use bore::error::{DecodeError, MessageError, NameError};
use bore::name::DomainName;
use bore::record::{
    decode_question, decode_questions, decode_record, decode_section, encode_question,
    encode_record, Question, RecordClass, RecordType, ResourceRecord,
};

fn name_of(labels: &[&[u8]]) -> DomainName {
    DomainName::from_labels(labels.iter().map(|l| l.to_vec()).collect())
}

fn a_record() -> ResourceRecord {
    ResourceRecord {
        owner: name_of(&[b"example", b"com"]),
        rtype: RecordType::A,
        class: RecordClass::In,
        ttl: 300,
        rdata: vec![93, 184, 216, 34],
    }
}

const A_RECORD_WIRE: &[u8] =
    b"\x07example\x03com\x00\x00\x01\x00\x01\x00\x00\x01\x2c\x00\x04\x5d\xb8\xd8\x22";

#[test]
fn type_codes_go_both_ways() {
    let known = [
        (1, RecordType::A),
        (2, RecordType::Ns),
        (5, RecordType::Cname),
        (6, RecordType::Soa),
        (12, RecordType::Ptr),
        (15, RecordType::Mx),
        (16, RecordType::Txt),
        (28, RecordType::Aaaa),
        (41, RecordType::Opt),
    ];
    for (code, rtype) in known {
        assert_eq!(RecordType::from_code(code), rtype);
        assert_eq!(rtype.code(), code);
    }
    assert_eq!(RecordType::from_code(33), RecordType::Unrecognized(33));
    assert_eq!(RecordType::Unrecognized(33).code(), 33);
    for code in 0..=u16::MAX {
        assert_eq!(RecordType::from_code(code).code(), code);
    }
}

#[test]
fn class_codes_go_both_ways() {
    let known = [
        (1, RecordClass::In),
        (3, RecordClass::Ch),
        (4, RecordClass::Hs),
        (254, RecordClass::Unset),
        (255, RecordClass::Any),
    ];
    for (code, class) in known {
        assert_eq!(RecordClass::from_code(code), class);
        assert_eq!(class.code(), code);
    }
    assert_eq!(RecordClass::from_code(4096), RecordClass::Unrecognized(4096));
    for code in 0..=u16::MAX {
        assert_eq!(RecordClass::from_code(code).code(), code);
    }
}

#[test]
fn question_is_name_type_class() {
    assert_eq!(
        encode_question(&name_of(&[b"example", b"com"]), RecordType::Aaaa, RecordClass::In),
        Ok(b"\x07example\x03com\x00\x00\x1c\x00\x01".to_vec())
    );
    assert_eq!(
        encode_question(&DomainName::root(), RecordType::Unrecognized(0x1234), RecordClass::Ch),
        Ok(b"\x00\x12\x34\x00\x03".to_vec())
    );
}

#[test]
fn question_with_bad_name_is_refused() {
    assert_eq!(
        encode_question(&name_of(&[&[b'x'; 64]]), RecordType::A, RecordClass::In),
        Err(NameError::LabelTooLong)
    );
}

#[test]
fn question_reads_back() {
    let wire = b"\xee\x03foo\x00\x00\x0f\x00\x01\xee";
    assert_eq!(
        decode_question(wire, 1),
        Ok((
            Question {
                name: name_of(&[b"foo"]),
                qtype: RecordType::Mx,
                qclass: RecordClass::In
            },
            9
        ))
    );
}

#[test]
fn question_cut_short_is_truncated() {
    assert_eq!(
        decode_question(b"\x03foo\x00\x00\x0f\x00", 0),
        Err(DecodeError::Truncated)
    );
    assert_eq!(
        decode_question(b"\x03fo", 0),
        Err(DecodeError::Name(NameError::TruncatedName))
    );
}

#[test]
fn record_is_written_field_by_field() {
    assert_eq!(encode_record(&a_record()), Ok(A_RECORD_WIRE.to_vec()));
}

#[test]
fn record_reads_back() {
    assert_eq!(
        decode_record(A_RECORD_WIRE, 0),
        Ok((a_record(), A_RECORD_WIRE.len()))
    );
}

#[test]
fn record_reads_all_four_ttl_octets() {
    let wire = b"\x00\x00\x10\x00\x01\x12\x34\x56\x78\x00\x00";
    let (record, used) = decode_record(wire, 0).unwrap();
    assert_eq!(record.ttl, 0x12345678);
    assert_eq!(record.rtype, RecordType::Txt);
    assert_eq!(record.rdata, Vec::<u8>::new());
    assert_eq!(used, 11);
    assert_eq!(encode_record(&record), Ok(wire.to_vec()));
}

#[test]
fn record_owner_may_be_compressed() {
    let mut buf = b"\x07example\x03com\x00".to_vec();
    let at = buf.len();
    buf.extend_from_slice(b"\xc0\x00\x00\x01\x00\x01\x00\x00\x01\x2c\x00\x04\x5d\xb8\xd8\x22");
    assert_eq!(decode_record(&buf, at), Ok((a_record(), 16)));
}

#[test]
fn record_data_past_the_end_is_truncated() {
    let wire = &A_RECORD_WIRE[..A_RECORD_WIRE.len() - 1];
    assert_eq!(decode_record(wire, 0), Err(DecodeError::Truncated));
}

#[test]
fn record_fixed_fields_past_the_end_are_truncated() {
    assert_eq!(
        decode_record(&A_RECORD_WIRE[..20], 0),
        Err(DecodeError::Truncated)
    );
}

#[test]
fn record_with_bad_owner_is_a_name_fault() {
    assert_eq!(
        decode_record(b"\xc0\x00\x00\x01\x00\x01\x00\x00\x00\x00\x00\x00", 0),
        Err(DecodeError::Name(NameError::CompressionLoop))
    );
}

#[test]
fn section_reads_as_many_records_as_counted() {
    let mut buf = A_RECORD_WIRE.to_vec();
    buf.extend_from_slice(A_RECORD_WIRE);
    buf.extend_from_slice(b"tail");
    assert_eq!(
        decode_section(&buf, 0, 2),
        Ok((vec![a_record(), a_record()], 2 * A_RECORD_WIRE.len()))
    );
    assert_eq!(
        decode_section(&buf, 0, 1),
        Ok((vec![a_record()], A_RECORD_WIRE.len()))
    );
    assert_eq!(decode_section(&buf, 5, 0), Ok((vec![], 5)));
}

#[test]
fn section_short_of_records_is_a_count_mismatch() {
    assert_eq!(
        decode_section(A_RECORD_WIRE, 0, 2),
        Err(MessageError::SectionCountMismatch)
    );
    assert_eq!(
        decode_section(b"", 0, 1),
        Err(MessageError::SectionCountMismatch)
    );
}

#[test]
fn section_with_faulty_record_is_malformed() {
    let mut buf = A_RECORD_WIRE.to_vec();
    buf.extend_from_slice(b"\x03ab");
    assert_eq!(
        decode_section(&buf, 0, 2),
        Err(MessageError::Malformed(DecodeError::Name(
            NameError::TruncatedName
        )))
    );
}

#[test]
fn questions_read_as_many_as_counted() {
    let buf = b"\x01a\x00\x00\x01\x00\x01\x01b\x00\x00\x02\x00\x03";
    let (qs, end) = decode_questions(buf, 0, 2).unwrap();
    assert_eq!(end, 14);
    assert_eq!(qs.len(), 2);
    assert_eq!(qs[1].name, name_of(&[b"b"]));
    assert_eq!(qs[1].qtype, RecordType::Ns);
    assert_eq!(qs[1].qclass, RecordClass::Ch);
    assert_eq!(
        decode_questions(buf, 0, 3),
        Err(MessageError::SectionCountMismatch)
    );
    assert_eq!(
        decode_questions(&buf[..13], 0, 2),
        Err(MessageError::Malformed(DecodeError::Truncated))
    );
}

fn message_with(rtype: u8, rdata: &[u8]) -> (Vec<u8>, usize) {
    // "example.com." at 0, so that data can point at 0 ("example.com.") and 8 ("com.")
    let mut buf = b"\x07example\x03com\x00".to_vec();
    let at = buf.len();
    buf.extend_from_slice(&[0xc0, 0x00, 0x00, rtype, 0x00, 0x01, 0, 0, 0, 60]);
    buf.extend_from_slice(&(rdata.len() as u16).to_be_bytes());
    buf.extend_from_slice(rdata);
    (buf, at)
}

#[test]
fn compressed_name_in_name_server_data_is_spelled_out() {
    let (buf, at) = message_with(2, b"\x03ns1\xc0\x00");
    let (record, used) = decode_record(&buf, at).unwrap();
    assert_eq!(record.rtype, RecordType::Ns);
    assert_eq!(record.rdata, b"\x03ns1\x07example\x03com\x00".to_vec());
    assert_eq!(used, 12 + 6);
}

#[test]
fn compressed_name_in_alias_and_pointer_data_is_spelled_out() {
    for rtype in [5u8, 12] {
        let (buf, at) = message_with(rtype, b"\xc0\x08");
        let (record, _) = decode_record(&buf, at).unwrap();
        assert_eq!(record.rdata, b"\x03com\x00".to_vec());
    }
}

#[test]
fn compressed_name_in_mail_exchange_data_is_spelled_out() {
    let (buf, at) = message_with(15, b"\x00\x0a\x02mx\xc0\x00");
    let (record, _) = decode_record(&buf, at).unwrap();
    assert_eq!(record.rdata, b"\x00\x0a\x02mx\x07example\x03com\x00".to_vec());
}

#[test]
fn compressed_names_in_start_of_authority_data_are_spelled_out() {
    let mut rdata = b"\x02ns\xc0\x00\x05admin\xc0\x08".to_vec();
    rdata.extend_from_slice(&[0, 0, 0, 1, 0, 0, 0, 2, 0, 0, 0, 3, 0, 0, 0, 4, 0, 0, 0, 5]);
    let (buf, at) = message_with(6, &rdata);
    let (record, used) = decode_record(&buf, at).unwrap();
    let mut expected = b"\x02ns\x07example\x03com\x00\x05admin\x03com\x00".to_vec();
    expected.extend_from_slice(&[0, 0, 0, 1, 0, 0, 0, 2, 0, 0, 0, 3, 0, 0, 0, 4, 0, 0, 0, 5]);
    assert_eq!(record.rdata, expected);
    assert_eq!(used, 12 + rdata.len());
}

#[test]
fn data_without_pointers_is_kept_as_it_is() {
    let (buf, at) = message_with(2, b"\x03ns1\x03Net\x00");
    let (record, _) = decode_record(&buf, at).unwrap();
    assert_eq!(record.rdata, b"\x03ns1\x03Net\x00".to_vec());
}

#[test]
fn pointers_in_data_of_other_types_are_not_followed() {
    for rtype in [1u8, 16, 28, 33, 41] {
        let (buf, at) = message_with(rtype, b"\x03ns1\xc0\x00");
        let (record, _) = decode_record(&buf, at).unwrap();
        assert_eq!(record.rdata, b"\x03ns1\xc0\x00".to_vec());
    }
}

#[test]
fn name_data_that_is_no_name_is_kept_as_it_is() {
    // a pointer at itself, a name with octets behind it, a name cut short, no data
    let own = 13 + 12;
    for rdata in [&[0xc0, own as u8][..], b"\x01a\x00\x00", b"\x05ab", b""] {
        let (buf, at) = message_with(2, rdata);
        let (record, used) = decode_record(&buf, at).unwrap();
        assert_eq!(record.rdata, rdata.to_vec());
        assert_eq!(used, 12 + rdata.len());
    }
    let (buf, at) = message_with(15, b"\x00");
    assert_eq!(decode_record(&buf, at).unwrap().0.rdata, vec![0]);
    let (buf, at) = message_with(6, b"\x00\x00\x00\x00\x00\x01");
    assert_eq!(decode_record(&buf, at).unwrap().0.rdata, vec![0, 0, 0, 0, 0, 1]);
}
