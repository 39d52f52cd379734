use bore::assemble::{AssembleError, Assembler, Section, Stage};
use bore::error::{DecodeError, MessageError, NameError};
use bore::header::MessageHeader;
use bore::message::{build_query, build_query_with_id, decode_message, Message};
use bore::name::DomainName;
use bore::opt::{OptOption, OptRecord, OptionCode};
use bore::record::{Question, RecordClass, RecordType, ResourceRecord};

fn name_of(labels: &[&[u8]]) -> DomainName {
    DomainName::from_labels(labels.iter().map(|l| l.to_vec()).collect())
}

fn example_com() -> DomainName {
    name_of(&[b"example", b"com"])
}

const NSID_QUERY: &[u8] = b"\x12\x34\x01\x00\x00\x01\x00\x00\x00\x00\x00\x01\
\x07example\x03com\x00\x00\x01\x00\x01\
\x00\x00\x29\x10\x00\x00\x00\x00\x00\x00\x04\x00\x03\x00\x00";

const A_RESPONSE: &[u8] = b"\x12\x34\x81\x80\x00\x01\x00\x01\x00\x00\x00\x00\
\x07example\x03com\x00\x00\x01\x00\x01\
\xc0\x0c\x00\x01\x00\x01\x00\x00\x01\x2c\x00\x04\x5d\xb8\xd8\x22";

const OPT_EMPTY: &[u8] = b"\x00\x00\x29\x04\xd0\x00\x00\x00\x00\x00\x00";

fn response_with(ancount: u8, arcount: u8, records: &[&[u8]]) -> Vec<u8> {
    let mut buf = vec![0, 1, 0x81, 0x80, 0, 1, 0, ancount, 0, 0, 0, arcount];
    buf.extend_from_slice(b"\x07example\x03com\x00\x00\x01\x00\x01");
    for record in records {
        buf.extend_from_slice(record);
    }
    buf
}

const A_ANSWER: &[u8] = b"\xc0\x0c\x00\x01\x00\x01\x00\x00\x01\x2c\x00\x04\x5d\xb8\xd8\x22";

#[test]
fn query_with_nsid_is_header_question_opt() {
    assert_eq!(
        build_query_with_id(0x1234, &example_com(), RecordType::A, 4096, false, true),
        Ok(NSID_QUERY.to_vec())
    );
}

#[test]
fn query_with_nsid_decodes_to_what_was_asked() {
    let bytes = build_query(&example_com(), RecordType::A, 4096, false, true).unwrap();
    let m = decode_message(&bytes).unwrap();
    assert_eq!(m.header.qdcount, 1);
    assert_eq!(m.header.arcount, 1);
    assert_eq!(m.header.ancount, 0);
    assert_eq!(m.header.nscount, 0);
    assert!(m.header.rd);
    assert!(!m.header.qr);
    assert_eq!(
        m.questions,
        vec![Question {
            name: example_com(),
            qtype: RecordType::A,
            qclass: RecordClass::In
        }]
    );
    assert!(m.answers.is_empty());
    assert!(m.authorities.is_empty());
    assert!(m.additionals.is_empty());
    assert_eq!(
        m.opt,
        Some(OptRecord {
            payload_size: 4096,
            ext_rcode: 0,
            version: 0,
            dnssec_ok: false,
            options: vec![OptOption { code: OptionCode::Nsid, data: vec![] }],
        })
    );
}

#[test]
fn query_round_trip_for_every_flag_setting() {
    let names = [DomainName::root(), example_com(), name_of(&[&[b'x'; 63], b"Y"])];
    let types = [RecordType::A, RecordType::Aaaa, RecordType::Txt, RecordType::Unrecognized(255)];
    for name in &names {
        for rtype in types {
            for payload in [0u16, 512, 513, 1232, 4096, 65535] {
                for do_bit in [false, true] {
                    for nsid in [false, true] {
                        let bytes =
                            build_query_with_id(77, name, rtype, payload, do_bit, nsid).unwrap();
                        let m = decode_message(&bytes).unwrap();
                        let edns = payload > 512 || do_bit || nsid;
                        let mut header = MessageHeader::query(77);
                        header.qdcount = 1;
                        header.arcount = if edns { 1 } else { 0 };
                        let options = if nsid {
                            vec![OptOption { code: OptionCode::Nsid, data: vec![] }]
                        } else {
                            vec![]
                        };
                        let opt = if edns {
                            Some(OptRecord {
                                payload_size: payload,
                                ext_rcode: 0,
                                version: 0,
                                dnssec_ok: do_bit,
                                options,
                            })
                        } else {
                            None
                        };
                        assert_eq!(
                            m,
                            Message {
                                header,
                                questions: vec![Question {
                                    name: name.clone(),
                                    qtype: rtype,
                                    qclass: RecordClass::In
                                }],
                                answers: vec![],
                                authorities: vec![],
                                additionals: vec![],
                                opt,
                            }
                        );
                    }
                }
            }
        }
    }
}

#[test]
fn plain_query_has_no_opt_record() {
    let bytes = build_query_with_id(1, &example_com(), RecordType::Mx, 512, false, false).unwrap();
    assert_eq!(
        bytes,
        b"\x00\x01\x01\x00\x00\x01\x00\x00\x00\x00\x00\x00\x07example\x03com\x00\x00\x0f\x00\x01"
            .to_vec()
    );
}

#[test]
fn do_bit_alone_brings_an_opt_record() {
    let bytes = build_query_with_id(1, &DomainName::root(), RecordType::Ns, 0, true, false).unwrap();
    assert_eq!(
        bytes,
        b"\x00\x01\x01\x00\x00\x01\x00\x00\x00\x00\x00\x01\x00\x00\x02\x00\x01\
\x00\x00\x29\x00\x00\x00\x00\x80\x00\x00\x00"
            .to_vec()
    );
}

#[test]
fn query_is_the_same_but_for_the_id() {
    let a = build_query(&example_com(), RecordType::A, 4096, true, true).unwrap();
    let b = build_query(&example_com(), RecordType::A, 4096, true, true).unwrap();
    assert_eq!(a[2..], b[2..]);
    let fixed = build_query_with_id(0, &example_com(), RecordType::A, 4096, true, true).unwrap();
    assert_eq!(a[2..], fixed[2..]);
}

#[test]
fn query_ids_vary() {
    let mut seen = std::collections::HashSet::new();
    for _ in 0..1000 {
        let bytes = build_query(&example_com(), RecordType::A, 4096, false, false).unwrap();
        seen.insert(u16::from_be_bytes([bytes[0], bytes[1]]));
    }
    assert!(seen.len() > 900);
}

#[test]
fn query_for_a_bad_name_fails_with_the_name_fault() {
    let long_label = name_of(&[&[b'x'; 64]]);
    assert_eq!(
        build_query(&long_label, RecordType::A, 4096, false, false),
        Err(NameError::LabelTooLong)
    );
    let long_name = name_of(&[&[b'x'; 63], &[b'x'; 63], &[b'x'; 63], &[b'x'; 62]]);
    assert_eq!(
        build_query_with_id(5, &long_name, RecordType::A, 4096, false, false),
        Err(NameError::NameTooLong)
    );
    assert_eq!(
        build_query_with_id(5, &name_of(&[b""]), RecordType::A, 0, false, false),
        Err(NameError::EmptyLabel)
    );
}

#[test]
fn longest_query_has_286_octets() {
    let longest = name_of(&[&[b'x'; 63], &[b'x'; 63], &[b'x'; 63], &[b'x'; 61]]);
    let bytes = build_query(&longest, RecordType::A, 4096, true, true).unwrap();
    assert_eq!(bytes.len(), 286);
}

#[test]
fn response_with_one_answer_decodes() {
    let m = decode_message(A_RESPONSE).unwrap();
    assert_eq!(m.header.id, 0x1234);
    assert!(m.header.qr && m.header.rd && m.header.ra);
    assert_eq!(m.questions.len(), 1);
    assert_eq!(
        m.answers,
        vec![ResourceRecord {
            owner: example_com(),
            rtype: RecordType::A,
            class: RecordClass::In,
            ttl: 300,
            rdata: vec![93, 184, 216, 34],
        }]
    );
    assert!(m.authorities.is_empty());
    assert!(m.additionals.is_empty());
    assert_eq!(m.opt, None);
}

#[test]
fn header_cut_short_is_malformed_truncated() {
    assert_eq!(
        decode_message(&A_RESPONSE[..11]),
        Err(MessageError::Malformed(DecodeError::Truncated))
    );
    assert_eq!(
        decode_message(b""),
        Err(MessageError::Malformed(DecodeError::Truncated))
    );
}

#[test]
fn two_answers_counted_one_present_is_a_count_mismatch() {
    let buf = response_with(2, 0, &[A_ANSWER]);
    assert_eq!(decode_message(&buf), Err(MessageError::SectionCountMismatch));
}

#[test]
fn question_counted_but_absent_is_a_count_mismatch() {
    assert_eq!(
        decode_message(&[0, 1, 0, 0, 0, 1, 0, 0, 0, 0, 0, 0]),
        Err(MessageError::SectionCountMismatch)
    );
}

#[test]
fn octets_behind_the_last_section_are_a_count_mismatch() {
    let buf = response_with(1, 0, &[A_ANSWER, b"\x00"]);
    assert_eq!(decode_message(&buf), Err(MessageError::SectionCountMismatch));
    let buf = response_with(1, 0, &[A_ANSWER, A_ANSWER]);
    assert_eq!(decode_message(&buf), Err(MessageError::SectionCountMismatch));
}

#[test]
fn two_opt_records_are_refused() {
    let buf = response_with(0, 2, &[OPT_EMPTY, OPT_EMPTY]);
    assert_eq!(decode_message(&buf), Err(MessageError::MultipleOptRecords));
}

#[test]
fn two_opt_records_are_refused_even_if_one_is_faulty() {
    let faulty: &[u8] = b"\x00\x00\x29\x04\xd0\x00\x00\x00\x00\x00\x02\x00\x03";
    let buf = response_with(0, 2, &[faulty, OPT_EMPTY]);
    assert_eq!(decode_message(&buf), Err(MessageError::MultipleOptRecords));
}

#[test]
fn faulty_opt_record_is_malformed() {
    let faulty: &[u8] = b"\x00\x00\x29\x04\xd0\x00\x00\x00\x00\x00\x02\x00\x03";
    let buf = response_with(0, 1, &[faulty]);
    assert_eq!(
        decode_message(&buf),
        Err(MessageError::Malformed(DecodeError::Truncated))
    );
}

#[test]
fn opt_record_is_taken_out_of_the_additional_section() {
    let glue: &[u8] = b"\x02ns\xc0\x0c\x00\x01\x00\x01\x00\x00\x00\x3c\x00\x04\x01\x02\x03\x04";
    let buf = response_with(1, 3, &[A_ANSWER, glue, OPT_EMPTY, glue]);
    let m = decode_message(&buf).unwrap();
    assert_eq!(m.header.arcount, 3);
    assert_eq!(m.additionals.len(), 2);
    assert_eq!(m.additionals[0].owner, name_of(&[b"ns", b"example", b"com"]));
    assert_eq!(m.additionals[0], m.additionals[1]);
    assert_eq!(
        m.opt,
        Some(OptRecord {
            payload_size: 1232,
            ext_rcode: 0,
            version: 0,
            dnssec_ok: false,
            options: vec![],
        })
    );
}

#[test]
fn opt_record_among_the_answers_stays_there() {
    let buf = response_with(1, 1, &[OPT_EMPTY, OPT_EMPTY]);
    let m = decode_message(&buf).unwrap();
    assert_eq!(m.answers.len(), 1);
    assert_eq!(m.answers[0].rtype, RecordType::Opt);
    assert!(m.opt.is_some());
    assert!(m.additionals.is_empty());
}

#[test]
fn faulty_name_in_an_answer_is_malformed() {
    let looped: &[u8] = b"\xc0\x1d\x00\x01\x00\x01\x00\x00\x00\x00\x00\x00";
    let buf = response_with(1, 0, &[looped]);
    assert_eq!(
        decode_message(&buf),
        Err(MessageError::Malformed(DecodeError::Name(
            NameError::CompressionLoop
        )))
    );
}

#[test]
fn unknown_type_and_option_do_not_fail_the_message() {
    let odd: &[u8] = b"\xc0\x0c\xff\x00\x00\x01\x00\x00\x00\x00\x00\x03abc";
    let opt: &[u8] = b"\x00\x00\x29\x04\xd0\x00\x00\x00\x00\x00\x06\xff\x00\x00\x02hi";
    let buf = response_with(1, 1, &[odd, opt]);
    let m = decode_message(&buf).unwrap();
    assert_eq!(m.answers[0].rtype, RecordType::Unrecognized(0xff00));
    assert_eq!(m.answers[0].rdata, b"abc".to_vec());
    assert_eq!(
        m.opt.unwrap().options,
        vec![OptOption { code: OptionCode::Unrecognized(0xff00), data: b"hi".to_vec() }]
    );
}

#[test]
fn assembler_takes_sections_in_order() {
    let mut a = Assembler::new(MessageHeader { qdcount: 9, ..MessageHeader::query(3) });
    assert_eq!(a.stage(), Stage::Header);
    assert_eq!(a.header().qdcount, 0);
    assert_eq!(a.push_question(&example_com(), RecordType::A, RecordClass::In), Ok(()));
    assert_eq!(a.stage(), Stage::Question);
    assert_eq!(a.body(), b"\x07example\x03com\x00\x00\x01\x00\x01");
    let record = ResourceRecord {
        owner: example_com(),
        rtype: RecordType::A,
        class: RecordClass::In,
        ttl: 300,
        rdata: vec![93, 184, 216, 34],
    };
    assert_eq!(a.push_record(Section::Answer, &record), Ok(()));
    assert_eq!(a.push_record(Section::Answer, &record), Ok(()));
    assert_eq!(a.push_record(Section::Additional, &record), Ok(()));
    assert_eq!(a.stage(), Stage::Additional);
    let h = a.header();
    assert_eq!((h.qdcount, h.ancount, h.nscount, h.arcount), (1, 2, 0, 1));
    assert!(h.is_wf());
    let bytes = a.finish();
    let m = decode_message(&bytes).unwrap();
    assert_eq!(m.answers, vec![record.clone(), record.clone()]);
    assert_eq!(m.additionals, vec![record]);
    assert_eq!(m.header.id, 3);
}

#[test]
fn assembler_does_not_go_back() {
    let mut a = Assembler::new(MessageHeader::query(3));
    let record = ResourceRecord {
        owner: DomainName::root(),
        rtype: RecordType::Txt,
        class: RecordClass::In,
        ttl: 0,
        rdata: vec![],
    };
    assert_eq!(a.push_record(Section::Authority, &record), Ok(()));
    let before = a.clone();
    assert_eq!(
        a.push_record(Section::Answer, &record),
        Err(AssembleError::StagePassed)
    );
    assert_eq!(
        a.push_question(&example_com(), RecordType::A, RecordClass::In),
        Err(AssembleError::StagePassed)
    );
    assert_eq!(a, before);
    assert_eq!(a.push_record(Section::Authority, &record), Ok(()));
    assert_eq!(a.push_record(Section::Additional, &record), Ok(()));
    assert_eq!(
        a.push_record(Section::Authority, &record),
        Err(AssembleError::StagePassed)
    );
}

#[test]
fn assembler_refuses_what_cannot_be_written() {
    let mut a = Assembler::new(MessageHeader::query(3));
    assert_eq!(
        a.push_question(&name_of(&[&[b'x'; 64]]), RecordType::A, RecordClass::In),
        Err(AssembleError::Name(NameError::LabelTooLong))
    );
    let mut record = ResourceRecord {
        owner: DomainName::root(),
        rtype: RecordType::Txt,
        class: RecordClass::In,
        ttl: 0,
        rdata: vec![0; 65536],
    };
    assert_eq!(
        a.push_record(Section::Answer, &record),
        Err(AssembleError::DataTooLong)
    );
    record.owner = name_of(&[b""]);
    record.rdata.clear();
    assert_eq!(
        a.push_record(Section::Answer, &record),
        Err(AssembleError::Name(NameError::EmptyLabel))
    );
    assert_eq!(a.stage(), Stage::Header);
    assert!(a.body().is_empty());
    assert_eq!(a.header(), MessageHeader::query(3));
}

#[test]
fn assembler_counts_no_further_than_the_field() {
    let mut a = Assembler::new(MessageHeader::query(3));
    for _ in 0..65535 {
        assert_eq!(a.push_question(&DomainName::root(), RecordType::A, RecordClass::In), Ok(()));
    }
    assert_eq!(a.header().qdcount, 65535);
    assert_eq!(
        a.push_question(&DomainName::root(), RecordType::A, RecordClass::In),
        Err(AssembleError::SectionFull)
    );
    assert_eq!(a.body().len(), 5 * 65535);
    let record = ResourceRecord {
        owner: DomainName::root(),
        rtype: RecordType::A,
        class: RecordClass::In,
        ttl: 0,
        rdata: vec![],
    };
    for _ in 0..65535 {
        assert_eq!(a.push_record(Section::Authority, &record), Ok(()));
    }
    assert_eq!(
        a.push_record(Section::Authority, &record),
        Err(AssembleError::SectionFull)
    );
    assert_eq!(a.stage(), Stage::Authority);
    assert_eq!(a.push_record(Section::Additional, &record), Ok(()));
}
