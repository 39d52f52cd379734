use bore::format::format_message;
use bore::header::MessageHeader;
use bore::message::{decode_message, Message};
use bore::name::DomainName;
use bore::opt::{OptOption, OptRecord, OptionCode};
use bore::present::present_rdata;
use bore::record::{Question, RecordClass, RecordType, ResourceRecord};

fn name_of(labels: &[&[u8]]) -> DomainName {
    DomainName::from_labels(labels.iter().map(|l| l.to_vec()).collect())
}

const A_RESPONSE: &[u8] = b"\x12\x34\x81\x80\x00\x01\x00\x01\x00\x00\x00\x00\
\x07example\x03com\x00\x00\x01\x00\x01\
\xc0\x0c\x00\x01\x00\x01\x00\x00\x01\x2c\x00\x04\x5d\xb8\xd8\x22";

fn empty_message() -> Message {
    Message {
        header: MessageHeader { rd: false, ..MessageHeader::query(0) },
        questions: vec![],
        answers: vec![],
        authorities: vec![],
        additionals: vec![],
        opt: None,
    }
}

#[test]
fn answer_with_address_is_shown_dotted() {
    let m = decode_message(A_RESPONSE).unwrap();
    let text = format_message(&m);
    assert!(text.contains("\n;; ANSWER SECTION:\n;; example.com. 300 IN A 93.184.216.34\n"));
}

#[test]
fn report_of_a_response_line_by_line() {
    let m = decode_message(A_RESPONSE).unwrap();
    assert_eq!(
        format_message(&m),
        ";; ->>HEADER<<- opcode: QUERY, rcode: NOERROR, id: 4660\n\
;; flags: QR RD RA ; QUERY: 1, ANSWER: 1, AUTHORITY: 0, ADDITIONAL: 0\n\
;; QUESTION SECTION:\n\
;; example.com.\tA\tIN\n\
\n\
;; ANSWER SECTION:\n\
;; example.com. 300 IN A 93.184.216.34\n\
\n\
;; AUTHORITY SECTION:\n\
\n\
;; ADDITIONAL SECTION:\n"
    );
}

#[test]
fn formatting_twice_gives_the_same_text() {
    let m = decode_message(A_RESPONSE).unwrap();
    let first = format_message(&m);
    let second = format_message(&m);
    assert_eq!(first.as_bytes(), second.as_bytes());
    let again = decode_message(A_RESPONSE).unwrap();
    assert_eq!(format_message(&again), first);
}

#[test]
fn report_of_an_empty_message() {
    assert_eq!(
        format_message(&empty_message()),
        ";; ->>HEADER<<- opcode: QUERY, rcode: NOERROR, id: 0\n\
;; flags:  ; QUERY: 0, ANSWER: 0, AUTHORITY: 0, ADDITIONAL: 0\n\
;; QUESTION SECTION:\n\
\n\
;; ANSWER SECTION:\n\
\n\
;; AUTHORITY SECTION:\n\
\n\
;; ADDITIONAL SECTION:\n"
    );
}

#[test]
fn report_with_every_section_and_option() {
    let record = |owner: &[u8], rtype, rdata: &[u8]| ResourceRecord {
        owner: name_of(&[owner, b"test"]),
        rtype,
        class: RecordClass::In,
        ttl: 60,
        rdata: rdata.to_vec(),
    };
    let m = Message {
        header: MessageHeader {
            id: 65535,
            qr: true,
            opcode: 5,
            aa: true,
            tc: true,
            rd: true,
            ra: true,
            z: true,
            ad: true,
            cd: true,
            rcode: 0,
            qdcount: 2,
            ancount: 2,
            nscount: 1,
            arcount: 2,
        },
        questions: vec![
            Question { name: DomainName::root(), qtype: RecordType::Ns, qclass: RecordClass::Ch },
            Question {
                name: name_of(&[b"a b", b"c.d"]),
                qtype: RecordType::Unrecognized(65280),
                qclass: RecordClass::Unrecognized(7),
            },
        ],
        answers: vec![
            record(b"mail", RecordType::Mx, b"\x00\x0a\x02mx\x04test\x00"),
            record(b"txt", RecordType::Txt, b"\x02hi\x00\x03a\"b"),
        ],
        authorities: vec![record(b"ns", RecordType::Ns, b"\x01a\x04test\x00")],
        additionals: vec![record(b"six", RecordType::Aaaa, &[
            0x20, 0x01, 0x0d, 0xb8, 0, 0, 0, 0, 0, 0, 0, 0, 0, 0, 0, 1,
        ])],
        opt: Some(OptRecord {
            payload_size: 1232,
            ext_rcode: 1,
            version: 0,
            dnssec_ok: true,
            options: vec![
                OptOption { code: OptionCode::Nsid, data: b"ns1".to_vec() },
                OptOption { code: OptionCode::ExtendedError, data: b"\x00\x12blocked".to_vec() },
                OptOption { code: OptionCode::ExtendedError, data: b"\x00\x03".to_vec() },
                OptOption { code: OptionCode::Cookie, data: vec![0, 0xff] },
                OptOption { code: OptionCode::Unrecognized(4242), data: vec![1] },
            ],
        }),
    };
    assert_eq!(
        format_message(&m),
        ";; ->>HEADER<<- opcode: UPDATE, rcode: BADVERS, id: 65535\n\
;; flags: QR AA TC RD RA AD CD ; QUERY: 2, ANSWER: 2, AUTHORITY: 1, ADDITIONAL: 2\n\
;; QUESTION SECTION:\n\
;; .\tNS\tCH\n\
;; a\\ b.c\\.d.\tTYPE65280\tCLASS7\n\
\n\
;; ANSWER SECTION:\n\
;; mail.test. 60 IN MX 10 mx.test.\n\
;; txt.test. 60 IN TXT \"hi\" \"\" \"a\\\"b\"\n\
\n\
;; AUTHORITY SECTION:\n\
ns.test. 60 IN NS a.test.\n\
\n\
;; ADDITIONAL SECTION:\n\
six.test. 60 IN AAAA 2001:db8::1\n\
;; EDNS: version 0; flags: true; udp: 1232\n\
; NSID: 6e7331\n\
; EDE: 18 (blocked)\n\
; EDE: 3\n\
; COOKIE: 00ff\n\
; unrecognized option, code=4242\n"
    );
}

#[test]
fn response_codes_have_their_names() {
    let with = |rcode: u8, ext: Option<u8>| {
        let mut m = empty_message();
        m.header.rcode = rcode;
        m.opt = ext.map(|ext_rcode| OptRecord {
            payload_size: 512,
            ext_rcode,
            version: 0,
            dnssec_ok: false,
            options: vec![],
        });
        let text = format_message(&m);
        let line = text.lines().next().unwrap().to_string();
        line
    };
    assert_eq!(with(3, None), ";; ->>HEADER<<- opcode: QUERY, rcode: NXDOMAIN, id: 0");
    assert_eq!(with(2, Some(0)), ";; ->>HEADER<<- opcode: QUERY, rcode: SERVFAIL, id: 0");
    assert_eq!(with(5, None), ";; ->>HEADER<<- opcode: QUERY, rcode: REFUSED, id: 0");
    assert_eq!(with(7, Some(1)), ";; ->>HEADER<<- opcode: QUERY, rcode: BADCOOKIE, id: 0");
    assert_eq!(with(11, None), ";; ->>HEADER<<- opcode: QUERY, rcode: 11, id: 0");
    assert_eq!(with(15, Some(255)), ";; ->>HEADER<<- opcode: QUERY, rcode: 4095, id: 0");
}

#[test]
fn opcodes_have_their_names() {
    let with = |opcode: u8| {
        let mut m = empty_message();
        m.header.opcode = opcode;
        let text = format_message(&m);
        let line = text.lines().next().unwrap().to_string();
        line
    };
    assert_eq!(with(1), ";; ->>HEADER<<- opcode: IQUERY, rcode: NOERROR, id: 0");
    assert_eq!(with(2), ";; ->>HEADER<<- opcode: STATUS, rcode: NOERROR, id: 0");
    assert_eq!(with(3), ";; ->>HEADER<<- opcode: 3, rcode: NOERROR, id: 0");
    assert_eq!(with(4), ";; ->>HEADER<<- opcode: NOTIFY, rcode: NOERROR, id: 0");
    assert_eq!(with(6), ";; ->>HEADER<<- opcode: DSO, rcode: NOERROR, id: 0");
    assert_eq!(with(15), ";; ->>HEADER<<- opcode: 15, rcode: NOERROR, id: 0");
}

#[test]
fn address_is_four_octets_dotted() {
    assert_eq!(present_rdata(RecordType::A, &[93, 184, 216, 34]), "93.184.216.34");
    assert_eq!(present_rdata(RecordType::A, &[0, 9, 10, 255]), "0.9.10.255");
}

#[test]
fn address_of_wrong_length_is_opaque() {
    assert_eq!(present_rdata(RecordType::A, &[1, 2, 3]), "\\# 3 01 02 03");
    assert_eq!(present_rdata(RecordType::A, &[]), "\\# 0");
    assert_eq!(present_rdata(RecordType::Aaaa, &[0; 15]).len(), "\\# 15".len() + 45);
}

#[test]
fn address6_is_eight_groups() {
    let addr = [0xfe, 0x80, 0, 0, 0, 0, 0, 0, 0x02, 0x00, 0x5e, 0xff, 0xfe, 0x00, 0x53, 0x0a];
    assert_eq!(present_rdata(RecordType::Aaaa, &addr), "fe80::200:5eff:fe00:530a");
    assert_eq!(
        present_rdata(RecordType::Aaaa, &[0xff; 16]),
        "ffff:ffff:ffff:ffff:ffff:ffff:ffff:ffff"
    );
    let plain = [0, 1, 0, 0x23, 0x04, 0x56, 0x78, 0x9a, 0, 0xb, 0xcd, 0xef, 0, 0x10, 0x0a, 0];
    assert_eq!(present_rdata(RecordType::Aaaa, &plain), "1:23:456:789a:b:cdef:10:a00");
}

fn groups(g: [u16; 8]) -> Vec<u8> {
    g.iter().flat_map(|group| group.to_be_bytes()).collect()
}

#[test]
fn address6_shortens_the_longest_run_of_zero_groups() {
    let shown = |g: [u16; 8]| present_rdata(RecordType::Aaaa, &groups(g));
    assert_eq!(shown([0; 8]), "::");
    assert_eq!(shown([0, 0, 0, 0, 0, 0, 0, 1]), "::1");
    assert_eq!(shown([1, 0, 0, 0, 0, 0, 0, 0]), "1::");
    assert_eq!(shown([0x2001, 0xdb8, 0, 0, 0, 0, 0, 1]), "2001:db8::1");
    assert_eq!(shown([1, 0, 0, 2, 0, 0, 0, 3]), "1:0:0:2::3");
    assert_eq!(shown([1, 0, 0, 0, 2, 0, 0, 3]), "1::2:0:0:3");
    assert_eq!(shown([1, 2, 3, 4, 5, 6, 0, 0]), "1:2:3:4:5:6::");
    assert_eq!(shown([0, 0, 1, 2, 3, 4, 5, 6]), "::1:2:3:4:5:6");
}

#[test]
fn address6_shortens_the_leftmost_of_equal_runs() {
    let shown = |g: [u16; 8]| present_rdata(RecordType::Aaaa, &groups(g));
    assert_eq!(shown([1, 0, 0, 2, 0, 0, 3, 4]), "1::2:0:0:3:4");
    assert_eq!(shown([0, 0, 1, 0, 0, 2, 0, 0]), "::1:0:0:2:0:0");
}

#[test]
fn address6_keeps_a_single_zero_group() {
    let shown = |g: [u16; 8]| present_rdata(RecordType::Aaaa, &groups(g));
    assert_eq!(shown([1, 0, 2, 3, 4, 5, 6, 7]), "1:0:2:3:4:5:6:7");
    assert_eq!(shown([0, 1, 0, 1, 0, 1, 0, 1]), "0:1:0:1:0:1:0:1");
    assert_eq!(shown([1, 2, 3, 4, 5, 6, 7, 0]), "1:2:3:4:5:6:7:0");
}

#[test]
fn mapped_address_is_shown_dotted() {
    let shown = |g: [u16; 8]| present_rdata(RecordType::Aaaa, &groups(g));
    assert_eq!(shown([0, 0, 0, 0, 0, 0xffff, 0x5db8, 0xd822]), "::ffff:93.184.216.34");
    assert_eq!(shown([0, 0, 0, 0, 0, 0xffff, 0, 0]), "::ffff:0.0.0.0");
    assert_eq!(shown([0, 0, 0, 0, 0, 0xfffe, 0x0102, 0x0304]), "::fffe:102:304");
    assert_eq!(shown([0, 0, 0, 0, 0, 0, 0x0102, 0x0304]), "::102:304");
    assert_eq!(shown([0, 0, 0, 0, 1, 0xffff, 0x0102, 0x0304]), "::1:ffff:102:304");
}

#[test]
fn name_data_is_shown_as_a_name() {
    let data = b"\x03ns1\x07example\x03com\x00";
    assert_eq!(present_rdata(RecordType::Ns, data), "ns1.example.com.");
    assert_eq!(present_rdata(RecordType::Cname, data), "ns1.example.com.");
    assert_eq!(present_rdata(RecordType::Ptr, data), "ns1.example.com.");
    assert_eq!(present_rdata(RecordType::Ns, b"\x00"), ".");
}

#[test]
fn name_octets_are_escaped() {
    assert_eq!(
        present_rdata(RecordType::Ptr, b"\x06a.b\\ \x00\x02\x7f\xff\x00"),
        "a\\.b\\\\\\ \\000.\\127\\255."
    );
}

#[test]
fn name_data_with_more_behind_it_is_opaque() {
    assert_eq!(present_rdata(RecordType::Ns, b"\x01a\x00\x00"), "\\# 4 01 61 00 00");
    assert_eq!(present_rdata(RecordType::Ns, b"\x01a"), "\\# 2 01 61");
    assert_eq!(present_rdata(RecordType::Ns, b""), "\\# 0");
}

#[test]
fn mail_exchange_is_preference_and_name() {
    assert_eq!(present_rdata(RecordType::Mx, b"\x01\x00\x04mail\x00"), "256 mail.");
    assert_eq!(present_rdata(RecordType::Mx, b"\x00"), "\\# 1 00");
    assert_eq!(present_rdata(RecordType::Mx, b"\x00\x01"), "\\# 2 00 01");
}

#[test]
fn start_of_authority_is_two_names_and_five_numbers() {
    let mut data = b"\x02ns\x00\x05admin\x02ns\x00".to_vec();
    data.extend_from_slice(&2024010101u32.to_be_bytes());
    data.extend_from_slice(&7200u32.to_be_bytes());
    data.extend_from_slice(&3600u32.to_be_bytes());
    data.extend_from_slice(&u32::MAX.to_be_bytes());
    data.extend_from_slice(&0u32.to_be_bytes());
    assert_eq!(
        present_rdata(RecordType::Soa, &data),
        "ns. admin.ns. 2024010101 7200 3600 4294967295 0"
    );
    data.push(0);
    assert!(present_rdata(RecordType::Soa, &data).starts_with("\\# 35 02 6e 73 00"));
}

#[test]
fn text_is_quoted_strings() {
    assert_eq!(present_rdata(RecordType::Txt, b"\x05hello"), "\"hello\"");
    assert_eq!(
        present_rdata(RecordType::Txt, b"\x03a b\x04\"\\\x00\xe9"),
        "\"a b\" \"\\\"\\\\\\000\\233\""
    );
    assert_eq!(present_rdata(RecordType::Txt, b"\x00"), "\"\"");
}

#[test]
fn text_that_runs_past_the_end_is_opaque() {
    assert_eq!(present_rdata(RecordType::Txt, b"\x02a"), "\\# 2 02 61");
    assert_eq!(present_rdata(RecordType::Txt, b""), "\\# 0");
}

#[test]
fn data_of_other_types_is_opaque() {
    assert_eq!(
        present_rdata(RecordType::Unrecognized(99), &[0x00, 0x0f, 0xa0, 0xff]),
        "\\# 4 00 0f a0 ff"
    );
    assert_eq!(present_rdata(RecordType::Opt, &[1]), "\\# 1 01");
    assert_eq!(
        present_rdata(RecordType::Unrecognized(1), &[93, 184, 216, 34]),
        "\\# 4 5d b8 d8 22"
    );
}

#[test]
fn compressed_name_in_data_is_not_followed() {
    assert_eq!(present_rdata(RecordType::Ns, b"\x01a\xc0\x00"), "\\# 4 01 61 c0 00");
}

#[test]
fn short_error_option_is_shown_in_hexadecimal() {
    let mut m = empty_message();
    m.opt = Some(OptRecord {
        payload_size: 0,
        ext_rcode: 0,
        version: 1,
        dnssec_ok: false,
        options: vec![
            OptOption { code: OptionCode::ExtendedError, data: vec![7] },
            OptOption { code: OptionCode::Padding, data: vec![] },
        ],
    });
    let text = format_message(&m);
    assert!(text.ends_with(
        ";; ADDITIONAL SECTION:\n;; EDNS: version 1; flags: false; udp: 0\n; EDE: 07\n; PADDING: \n"
    ));
}

#[test]
fn compressed_names_in_a_response_are_shown_in_full() {
    let mut buf = vec![0xab, 0xcd, 0x85, 0x00, 0, 1, 0, 1, 0, 1, 0, 0];
    buf.extend_from_slice(b"\x03www\x07example\x03com\x00\x00\x01\x00\x01");
    // www.example.com. CNAME example.com.
    buf.extend_from_slice(b"\xc0\x0c\x00\x05\x00\x01\x00\x00\x0e\x10\x00\x02\xc0\x10");
    // example.com. SOA ns.example.com. admin.example.com. 1 2 3 4 5
    buf.extend_from_slice(b"\xc0\x10\x00\x06\x00\x01\x00\x00\x00\x3c\x00\x21\x02ns\xc0\x10\x05admin\xc0\x10");
    buf.extend_from_slice(&[0, 0, 0, 1, 0, 0, 0, 2, 0, 0, 0, 3, 0, 0, 0, 4, 0, 0, 0, 5]);
    let m = decode_message(&buf).unwrap();
    assert_eq!(
        format_message(&m),
        ";; ->>HEADER<<- opcode: QUERY, rcode: NOERROR, id: 43981\n\
;; flags: QR AA RD ; QUERY: 1, ANSWER: 1, AUTHORITY: 1, ADDITIONAL: 0\n\
;; QUESTION SECTION:\n\
;; www.example.com.\tA\tIN\n\
\n\
;; ANSWER SECTION:\n\
;; www.example.com. 3600 IN CNAME example.com.\n\
\n\
;; AUTHORITY SECTION:\n\
example.com. 60 IN SOA ns.example.com. admin.example.com. 1 2 3 4 5\n\
\n\
;; ADDITIONAL SECTION:\n"
    );
}
