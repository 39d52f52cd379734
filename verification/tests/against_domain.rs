use std::str::FromStr;

use bore::message::{build_query_with_id, decode_message};
use bore::name::DomainName;
use bore::present::present_rdata;
use bore::record::RecordType;
use domain::base::iana::OptionCode;
use domain::base::message::Message;
use domain::base::octets::OctetsBuilder;
use domain::base::{Dname, MessageBuilder, Rtype, StaticCompressor, StreamTarget};

fn name_of(labels: &[&[u8]]) -> DomainName {
    DomainName::from_labels(labels.iter().map(|l| l.to_vec()).collect())
}

fn built_by_domain(id: u16, do_bit: bool, nsid: bool) -> Vec<u8> {
    let qname = Dname::<Vec<u8>>::from_str("www.example.com.").unwrap();
    let mut msg =
        MessageBuilder::from_target(StaticCompressor::new(StreamTarget::new_vec())).unwrap();
    msg.header_mut().set_rd(true);
    msg.header_mut().set_id(id);
    let mut msg = msg.question();
    msg.push((&qname, Rtype::A)).unwrap();
    let mut msg = msg.additional();
    msg.opt(|opt| {
        opt.set_udp_payload_size(4096);
        if nsid {
            opt.push_raw_option(OptionCode::Nsid, |target| target.append_slice(b""))?;
        }
        if do_bit {
            opt.set_dnssec_ok(true);
        }
        Ok(())
    })
    .unwrap();
    msg.finish().into_target().as_dgram_slice().to_vec()
}

#[test]
fn query_is_octet_for_octet_what_domain_builds() {
    let name = name_of(&[b"www", b"example", b"com"]);
    for do_bit in [false, true] {
        for nsid in [false, true] {
            assert_eq!(
                build_query_with_id(0xbeef, &name, RecordType::A, 4096, do_bit, nsid).unwrap(),
                built_by_domain(0xbeef, do_bit, nsid)
            );
        }
    }
}

#[test]
fn query_is_read_by_domain() {
    let name = name_of(&[b"www", b"example", b"com"]);
    let bytes = build_query_with_id(9, &name, RecordType::Aaaa, 1232, true, true).unwrap();
    let msg = Message::from_octets(bytes).unwrap();
    assert_eq!(msg.header().id(), 9);
    assert!(msg.header().rd());
    assert_eq!(msg.header_counts().qdcount(), 1);
    assert_eq!(msg.header_counts().arcount(), 1);
    let question = msg.first_question().unwrap();
    assert_eq!(format!("{}", question.qname()), "www.example.com");
    assert_eq!(question.qtype(), Rtype::Aaaa);
    let opt = msg.opt().unwrap();
    assert_eq!(opt.udp_payload_size(), 1232);
    assert!(opt.dnssec_ok());
    assert_eq!(opt.version(), 0);
}

#[test]
fn message_built_by_domain_is_decoded() {
    let m = decode_message(&built_by_domain(17, true, true)).unwrap();
    assert_eq!(m.header.id, 17);
    assert_eq!(m.questions[0].name, name_of(&[b"www", b"example", b"com"]));
    let opt = m.opt.unwrap();
    assert_eq!(opt.payload_size, 4096);
    assert!(opt.dnssec_ok);
    assert_eq!(opt.options.len(), 1);
}

#[test]
fn address_is_shown_as_domain_shows_it() {
    let a = domain::rdata::A::from_octets(93, 184, 216, 34);
    assert_eq!(present_rdata(RecordType::A, &[93, 184, 216, 34]), format!("{}", a));
}

#[test]
fn address6_is_shown_as_domain_shows_it() {
    // every pattern of zero and other groups, and the mapped addresses
    let values = [0u16, 0xffff, 0x1, 0xab];
    for pattern in 0u32..(1 << 16) {
        let mut octets = [0u8; 16];
        for i in 0..8 {
            let value = values[((pattern >> (2 * i)) & 3) as usize];
            octets[2 * i..2 * i + 2].copy_from_slice(&value.to_be_bytes());
        }
        let theirs = domain::rdata::Aaaa::new(octets.into());
        assert_eq!(present_rdata(RecordType::Aaaa, &octets), format!("{}", theirs));
    }
}

fn dname(text: &str) -> Dname<Vec<u8>> {
    Dname::<Vec<u8>>::from_str(text).unwrap()
}

fn response_by_domain() -> Vec<u8> {
    let qname = dname("www.example.com.");
    let zone = dname("example.com.");
    let mut msg =
        MessageBuilder::from_target(StaticCompressor::new(StreamTarget::new_vec())).unwrap();
    msg.header_mut().set_id(4242);
    msg.header_mut().set_qr(true);
    msg.header_mut().set_rd(true);
    msg.header_mut().set_ra(true);
    msg.header_mut().set_aa(true);
    let mut msg = msg.question();
    msg.push((&qname, Rtype::Any)).unwrap();
    let mut msg = msg.answer();
    msg.push((&qname, 300, domain::rdata::Cname::new(dname("web.example.com.")))).unwrap();
    msg.push((&qname, 60, domain::rdata::A::from_octets(192, 0, 2, 1))).unwrap();
    msg.push((&qname, 60, domain::rdata::Aaaa::new([0x20, 1, 0xd, 0xb8, 0, 0, 0, 0, 0, 0, 0, 0, 0, 0, 0, 7].into())))
        .unwrap();
    msg.push((&zone, 7200, domain::rdata::Mx::new(10, dname("mail.example.com.")))).unwrap();
    msg.push((&dname("1.2.0.192.in-addr.arpa."), 7200, domain::rdata::Ptr::new(qname.clone())))
        .unwrap();
    let mut msg = msg.authority();
    msg.push((&zone, 86400, domain::rdata::Ns::new(dname("ns1.example.com.")))).unwrap();
    msg.push((
        &zone,
        3600,
        domain::rdata::Soa::new(
            dname("ns1.example.com."),
            dname("host\\.master.example.com."),
            domain::base::Serial(2024010101),
            7200,
            900,
            1209600,
            300,
        ),
    ))
    .unwrap();
    let mut msg = msg.additional();
    msg.push((&dname("ns1.example.com."), 86400, domain::rdata::A::from_octets(192, 0, 2, 53)))
        .unwrap();
    msg.finish().into_target().as_dgram_slice().to_vec()
}

#[test]
fn records_built_by_domain_are_shown_as_domain_shows_them() {
    let bytes = response_by_domain();
    let theirs = Message::from_octets(bytes.clone()).unwrap();
    let mut expected = String::new();
    expected.push_str(";; ->>HEADER<<- opcode: QUERY, rcode: NOERROR, id: 4242\n");
    expected.push_str(";; flags: QR AA RD RA ; QUERY: 1, ANSWER: 5, AUTHORITY: 2, ADDITIONAL: 1\n");
    expected.push_str(";; QUESTION SECTION:\n");
    expected.push_str(";; www.example.com.\tTYPE255\tIN\n");
    expected.push_str("\n;; ANSWER SECTION:\n");
    for record in theirs
        .answer()
        .unwrap()
        .limit_to::<domain::rdata::AllRecordData<_, _>>()
    {
        expected.push_str(&format!(";; {}\n", record.unwrap()));
    }
    expected.push_str("\n;; AUTHORITY SECTION:\n");
    for record in theirs
        .authority()
        .unwrap()
        .limit_to::<domain::rdata::AllRecordData<_, _>>()
    {
        expected.push_str(&format!("{}\n", record.unwrap()));
    }
    expected.push_str("\n;; ADDITIONAL SECTION:\n");
    for record in theirs
        .additional()
        .unwrap()
        .limit_to::<domain::rdata::AllRecordData<_, _>>()
    {
        expected.push_str(&format!("{}\n", record.unwrap()));
    }
    let ours = decode_message(&bytes).unwrap();
    assert_eq!(bore::format::format_message(&ours), expected);
    assert!(expected.contains(";; example.com. 7200 IN MX 10 mail.example.com.\n"));
    assert!(expected.contains("host\\.master.example.com. 2024010101 7200 900 1209600 300\n"));
}

#[test]
fn names_are_shown_as_domain_shows_them() {
    let labels: [&[u8]; 6] = [b"plain", b"with space", b"dot.ted", b"back\\slash", b"\x00\x1f\x7f\xff", b"~!@#$%"];
    let ours = DomainName::from_labels(labels.iter().map(|l| l.to_vec()).collect());
    let wire = ours.encode().unwrap();
    let theirs = Dname::from_octets(wire.clone()).unwrap();
    let mut record = wire;
    assert_eq!(
        present_rdata(RecordType::Ns, &record),
        format!("{}.", theirs)
    );
    record.clear();
    record.push(0);
    assert_eq!(
        present_rdata(RecordType::Ns, &record),
        format!("{}.", Dname::<Vec<u8>>::root())
    );
}
