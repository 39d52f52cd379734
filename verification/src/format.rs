//! The text report of a decoded message.

use crate::header::MessageHeader;
use crate::message::{Message, MessageView};
use crate::opt::{options_view, OptOption, OptRecord, OptView, OptionCode, OptionView};
use crate::present::{
    class_text, hex_text, name_text, present_rdata, push_class, push_hex_text, push_name,
    push_quoted, push_type, quoted_text, rdata_text, type_text,
};
use crate::record::{
    questions_view, records_view, Question, QuestionView, RecordView, ResourceRecord,
};
use crate::text::{decimal, push_decimal, push_str};
use crate::wire::{get_u16, read_u16};
use vstd::prelude::*;
use vstd::string::*;

verus! {

/// The mnemonic of an opcode; the number for an opcode without one.
pub open spec fn opcode_text(opcode: u8) -> Seq<char> {
    if opcode == 0 {
        "QUERY"@
    } else if opcode == 1 {
        "IQUERY"@
    } else if opcode == 2 {
        "STATUS"@
    } else if opcode == 4 {
        "NOTIFY"@
    } else if opcode == 5 {
        "UPDATE"@
    } else if opcode == 6 {
        "DSO"@
    } else {
        decimal(opcode as nat)
    }
}

/// The mnemonic of a response code; the number for a code without one.
pub open spec fn rcode_text(rcode: u16) -> Seq<char> {
    if rcode == 0 {
        "NOERROR"@
    } else if rcode == 1 {
        "FORMERR"@
    } else if rcode == 2 {
        "SERVFAIL"@
    } else if rcode == 3 {
        "NXDOMAIN"@
    } else if rcode == 4 {
        "NOTIMP"@
    } else if rcode == 5 {
        "REFUSED"@
    } else if rcode == 6 {
        "YXDOMAIN"@
    } else if rcode == 7 {
        "YXRRSET"@
    } else if rcode == 8 {
        "NXRRSET"@
    } else if rcode == 9 {
        "NOTAUTH"@
    } else if rcode == 10 {
        "NOTZONE"@
    } else if rcode == 16 {
        "BADVERS"@
    } else if rcode == 17 {
        "BADKEY"@
    } else if rcode == 18 {
        "BADTIME"@
    } else if rcode == 19 {
        "BADMODE"@
    } else if rcode == 20 {
        "BADNAME"@
    } else if rcode == 21 {
        "BADALG"@
    } else if rcode == 22 {
        "BADTRUNC"@
    } else if rcode == 23 {
        "BADCOOKIE"@
    } else {
        decimal(rcode as nat)
    }
}

/// The response code of a message: the four bits of the header, with the
/// eight bits of the OPT record in front of them if there is one.
pub open spec fn full_rcode(m: MessageView) -> u16 {
    match m.opt {
        Some(opt) => (opt.ext_rcode * 16 + m.header.rcode) as u16,
        None => m.header.rcode as u16,
    }
}

/// The flags listed so far with one more, if it is set; a space between one
/// and the next.
pub open spec fn with_flag(listed: Seq<char>, set: bool, word: Seq<char>) -> Seq<char> {
    if !set {
        listed
    } else if listed.len() == 0 {
        word
    } else {
        listed + " "@ + word
    }
}

/// The flags of a header that are set, in wire order.
pub open spec fn flags_text(h: MessageHeader) -> Seq<char> {
    with_flag(
        with_flag(
            with_flag(
                with_flag(
                    with_flag(
                        with_flag(with_flag(Seq::empty(), h.qr, "QR"@), h.aa, "AA"@),
                        h.tc,
                        "TC"@,
                    ),
                    h.rd,
                    "RD"@,
                ),
                h.ra,
                "RA"@,
            ),
            h.ad,
            "AD"@,
        ),
        h.cd,
        "CD"@,
    )
}

/// The first line of a report: opcode, response code and id.
pub open spec fn header_line(m: MessageView) -> Seq<char> {
    ";; ->>HEADER<<- opcode: "@ + opcode_text(m.header.opcode) + ", rcode: "@ + rcode_text(
        full_rcode(m),
    ) + ", id: "@ + decimal(m.header.id as nat) + "\n"@
}

/// The second line of a report: the flags and the four counts.
pub open spec fn counts_line(h: MessageHeader) -> Seq<char> {
    ";; flags: "@ + flags_text(h) + " ; QUERY: "@ + decimal(h.qdcount as nat) + ", ANSWER: "@
        + decimal(h.ancount as nat) + ", AUTHORITY: "@ + decimal(h.nscount as nat)
        + ", ADDITIONAL: "@ + decimal(h.arcount as nat) + "\n"@
}

/// The line of a question: name, type and class, tabs between them.
pub open spec fn question_line(q: QuestionView) -> Seq<char> {
    ";; "@ + name_text(q.name) + "\t"@ + type_text(q.qtype) + "\t"@ + class_text(q.qclass) + "\n"@
}

/// The line of a record: owner, time to live, class, type and data.
pub open spec fn record_line(r: RecordView, lead: Seq<char>) -> Seq<char> {
    lead + name_text(r.owner) + " "@ + decimal(r.ttl as nat) + " "@ + class_text(r.class) + " "@
        + type_text(r.rtype) + " "@ + rdata_text(r.rtype, r.rdata) + "\n"@
}

/// The lines of the question section.
pub open spec fn questions_text(qs: Seq<QuestionView>) -> Seq<char>
    decreases qs.len(),
{
    if qs.len() == 0 {
        Seq::empty()
    } else {
        questions_text(qs.drop_last()) + question_line(qs.last())
    }
}

/// The lines of a section of records.
pub open spec fn records_text(rs: Seq<RecordView>, lead: Seq<char>) -> Seq<char>
    decreases rs.len(),
{
    if rs.len() == 0 {
        Seq::empty()
    } else {
        records_text(rs.drop_last(), lead) + record_line(rs.last(), lead)
    }
}

/// The name under which a known option is shown.
pub open spec fn option_name(code: OptionCode) -> Seq<char> {
    match code {
        OptionCode::Nsid => "NSID"@,
        OptionCode::Dau => "DAU"@,
        OptionCode::Dhu => "DHU"@,
        OptionCode::N3u => "N3U"@,
        OptionCode::ClientSubnet => "CLIENTSUBNET"@,
        OptionCode::Expire => "EXPIRE"@,
        OptionCode::Cookie => "COOKIE"@,
        OptionCode::TcpKeepalive => "TCPKEEPALIVE"@,
        OptionCode::Padding => "PADDING"@,
        OptionCode::Chain => "CHAIN"@,
        OptionCode::KeyTag => "KEYTAG"@,
        OptionCode::ExtendedError => "EDE"@,
        OptionCode::Unrecognized(_) => Seq::empty(),
    }
}

/// An extended DNS error: the info code in decimal and, if there is any,
/// the text in brackets. Data too short for an info code is shown in
/// hexadecimal.
pub open spec fn ede_text(data: Seq<u8>) -> Seq<char> {
    if data.len() < 2 {
        hex_text(data, Seq::empty())
    } else if data.len() == 2 {
        decimal(read_u16(data, 0) as nat)
    } else {
        decimal(read_u16(data, 0) as nat) + " ("@ + quoted_text(
            data.subrange(2, data.len() as int),
        ) + ")"@
    }
}

/// The line of an option: a known option under its name, with its data in
/// hexadecimal or, for an extended DNS error, as info code and text; any
/// other option as unrecognized, with its code.
pub open spec fn option_line(o: OptionView) -> Seq<char> {
    match o.code {
        OptionCode::Unrecognized(code) => "; unrecognized option, code="@ + decimal(code as nat)
            + "\n"@,
        OptionCode::ExtendedError => "; EDE: "@ + ede_text(o.data) + "\n"@,
        known => "; "@ + option_name(known) + ": "@ + hex_text(o.data, Seq::empty()) + "\n"@,
    }
}

/// The lines of the options.
pub open spec fn options_text(os: Seq<OptionView>) -> Seq<char>
    decreases os.len(),
{
    if os.len() == 0 {
        Seq::empty()
    } else {
        options_text(os.drop_last()) + option_line(os.last())
    }
}

/// The EDNS(0) lines: version, DO bit and payload size, then the options;
/// nothing for a message without OPT record.
pub open spec fn edns_text(opt: Option<OptView>) -> Seq<char> {
    match opt {
        None => Seq::empty(),
        Some(opt) => ";; EDNS: version "@ + decimal(opt.version as nat) + "; flags: "@ + (if opt.dnssec_ok {
            "true"@
        } else {
            "false"@
        }) + "; udp: "@ + decimal(opt.payload_size as nat) + "\n"@ + options_text(opt.options),
    }
}

/// The report of a message: header line, flags and counts, then the
/// question, answer, authority and additional sections in that order, the
/// EDNS(0) lines last.
pub open spec fn report_text(m: MessageView) -> Seq<char> {
    header_line(m) + counts_line(m.header) + ";; QUESTION SECTION:\n"@ + questions_text(
        m.questions,
    ) + "\n;; ANSWER SECTION:\n"@ + records_text(m.answers, ";; "@)
        + "\n;; AUTHORITY SECTION:\n"@ + records_text(m.authorities, Seq::empty())
        + "\n;; ADDITIONAL SECTION:\n"@ + records_text(m.additionals, Seq::empty()) + edns_text(
        m.opt,
    )
}

/// The report depends on nothing but the message's value: two messages
/// with the same view have the same report, so formatting one message twice
/// gives the same text twice.
pub proof fn lemma_report_by_view(a: Message, b: Message)
    requires
        a@ == b@,
    ensures
        report_text(a@) == report_text(b@),
{
}

fn push_opcode(out: &mut String, opcode: u8)
    ensures
        final(out)@ == old(out)@ + opcode_text(opcode),
{
    match opcode {
        0 => push_str(out, "QUERY"),
        1 => push_str(out, "IQUERY"),
        2 => push_str(out, "STATUS"),
        4 => push_str(out, "NOTIFY"),
        5 => push_str(out, "UPDATE"),
        6 => push_str(out, "DSO"),
        _ => push_decimal(out, opcode as u64),
    }
}

fn push_rcode(out: &mut String, rcode: u16)
    ensures
        final(out)@ == old(out)@ + rcode_text(rcode),
{
    match rcode {
        0 => push_str(out, "NOERROR"),
        1 => push_str(out, "FORMERR"),
        2 => push_str(out, "SERVFAIL"),
        3 => push_str(out, "NXDOMAIN"),
        4 => push_str(out, "NOTIMP"),
        5 => push_str(out, "REFUSED"),
        6 => push_str(out, "YXDOMAIN"),
        7 => push_str(out, "YXRRSET"),
        8 => push_str(out, "NXRRSET"),
        9 => push_str(out, "NOTAUTH"),
        10 => push_str(out, "NOTZONE"),
        16 => push_str(out, "BADVERS"),
        17 => push_str(out, "BADKEY"),
        18 => push_str(out, "BADTIME"),
        19 => push_str(out, "BADMODE"),
        20 => push_str(out, "BADNAME"),
        21 => push_str(out, "BADALG"),
        22 => push_str(out, "BADTRUNC"),
        23 => push_str(out, "BADCOOKIE"),
        _ => push_decimal(out, rcode as u64),
    }
}

fn add_flag(listed: &mut String, any: &mut bool, set: bool, word: &str)
    requires
        word@.len() > 0,
        *old(any) == (old(listed)@.len() > 0),
    ensures
        final(listed)@ == with_flag(old(listed)@, set, word@),
        *final(any) == (final(listed)@.len() > 0),
{
    if set {
        if *any {
            push_str(listed, " ");
            push_str(listed, word);
        } else {
            push_str(listed, word);
            assert(listed@ == word@);
        }
        *any = true;
    }
}

fn push_flags(out: &mut String, h: &MessageHeader)
    ensures
        final(out)@ == old(out)@ + flags_text(*h),
{
    let mut listed = String::new();
    let mut any = false;
    proof {
        reveal_strlit("QR");
        reveal_strlit("AA");
        reveal_strlit("TC");
        reveal_strlit("RD");
        reveal_strlit("RA");
        reveal_strlit("AD");
        reveal_strlit("CD");
    }
    add_flag(&mut listed, &mut any, h.qr, "QR");
    add_flag(&mut listed, &mut any, h.aa, "AA");
    add_flag(&mut listed, &mut any, h.tc, "TC");
    add_flag(&mut listed, &mut any, h.rd, "RD");
    add_flag(&mut listed, &mut any, h.ra, "RA");
    add_flag(&mut listed, &mut any, h.ad, "AD");
    add_flag(&mut listed, &mut any, h.cd, "CD");
    push_str(out, listed.as_str());
}

fn push_header_line(out: &mut String, m: &Message)
    ensures
        final(out)@ == old(out)@ + header_line(m@),
{
    let rcode: u16 = match &m.opt {
        Some(opt) => opt.ext_rcode as u16 * 16 + m.header.rcode as u16,
        None => m.header.rcode as u16,
    };
    assert(rcode == full_rcode(m@));
    push_str(out, ";; ->>HEADER<<- opcode: ");
    push_opcode(out, m.header.opcode);
    push_str(out, ", rcode: ");
    push_rcode(out, rcode);
    push_str(out, ", id: ");
    push_decimal(out, m.header.id as u64);
    push_str(out, "\n");
    assert(out@ == old(out)@ + (";; ->>HEADER<<- opcode: "@ + opcode_text(m.header.opcode)
        + ", rcode: "@ + rcode_text(rcode) + ", id: "@ + decimal(m.header.id as nat) + "\n"@));
}

fn push_counts_line(out: &mut String, h: &MessageHeader)
    ensures
        final(out)@ == old(out)@ + counts_line(*h),
{
    push_str(out, ";; flags: ");
    push_flags(out, h);
    push_str(out, " ; QUERY: ");
    push_decimal(out, h.qdcount as u64);
    push_str(out, ", ANSWER: ");
    push_decimal(out, h.ancount as u64);
    push_str(out, ", AUTHORITY: ");
    push_decimal(out, h.nscount as u64);
    push_str(out, ", ADDITIONAL: ");
    push_decimal(out, h.arcount as u64);
    push_str(out, "\n");
    assert(out@ == old(out)@ + (";; flags: "@ + flags_text(*h) + " ; QUERY: "@ + decimal(
        h.qdcount as nat,
    ) + ", ANSWER: "@ + decimal(h.ancount as nat) + ", AUTHORITY: "@ + decimal(h.nscount as nat)
        + ", ADDITIONAL: "@ + decimal(h.arcount as nat) + "\n"@));
}

fn push_question_line(out: &mut String, q: &Question)
    ensures
        final(out)@ == old(out)@ + question_line(q@),
{
    push_str(out, ";; ");
    push_name(out, &q.name);
    push_str(out, "\t");
    push_type(out, q.qtype);
    push_str(out, "\t");
    push_class(out, q.qclass);
    push_str(out, "\n");
    assert(out@ == old(out)@ + (";; "@ + name_text(q.name@) + "\t"@ + type_text(q.qtype) + "\t"@
        + class_text(q.qclass) + "\n"@));
}

fn push_record_line(out: &mut String, r: &ResourceRecord, lead: &str)
    ensures
        final(out)@ == old(out)@ + record_line(r@, lead@),
{
    push_str(out, lead);
    push_name(out, &r.owner);
    push_str(out, " ");
    push_decimal(out, r.ttl as u64);
    push_str(out, " ");
    push_class(out, r.class);
    push_str(out, " ");
    push_type(out, r.rtype);
    push_str(out, " ");
    let data = present_rdata(r.rtype, r.rdata.as_slice());
    push_str(out, data.as_str());
    push_str(out, "\n");
    assert(out@ == old(out)@ + (lead@ + name_text(r.owner@) + " "@ + decimal(r.ttl as nat) + " "@
        + class_text(r.class) + " "@ + type_text(r.rtype) + " "@ + rdata_text(r.rtype, r.rdata@)
        + "\n"@));
}

fn push_questions(out: &mut String, qs: &Vec<Question>)
    ensures
        final(out)@ == old(out)@ + questions_text(questions_view(qs@)),
{
    let ghost all = questions_view(qs@);
    let mut i: usize = 0;
    assert(all.take(0) == Seq::<QuestionView>::empty());
    while i < qs.len()
        invariant
            i <= qs.len(),
            all == questions_view(qs@),
            out@ == old(out)@ + questions_text(all.take(i as int)),
        decreases qs.len() - i,
    {
        proof {
            assert(all.take(i + 1).drop_last() == all.take(i as int));
            assert(all.take(i + 1).last() == qs@[i as int]@);
        }
        push_question_line(out, &qs[i]);
        i += 1;
    }
    assert(all.take(qs.len() as int) == all);
}

fn push_records(out: &mut String, rs: &Vec<ResourceRecord>, lead: &str)
    ensures
        final(out)@ == old(out)@ + records_text(records_view(rs@), lead@),
{
    let ghost all = records_view(rs@);
    let mut i: usize = 0;
    assert(all.take(0) == Seq::<RecordView>::empty());
    while i < rs.len()
        invariant
            i <= rs.len(),
            all == records_view(rs@),
            out@ == old(out)@ + records_text(all.take(i as int), lead@),
        decreases rs.len() - i,
    {
        proof {
            assert(all.take(i + 1).drop_last() == all.take(i as int));
            assert(all.take(i + 1).last() == rs@[i as int]@);
        }
        push_record_line(out, &rs[i], lead);
        i += 1;
    }
    assert(all.take(rs.len() as int) == all);
}

fn push_option_name(out: &mut String, code: OptionCode)
    ensures
        final(out)@ == old(out)@ + option_name(code),
{
    match code {
        OptionCode::Nsid => push_str(out, "NSID"),
        OptionCode::Dau => push_str(out, "DAU"),
        OptionCode::Dhu => push_str(out, "DHU"),
        OptionCode::N3u => push_str(out, "N3U"),
        OptionCode::ClientSubnet => push_str(out, "CLIENTSUBNET"),
        OptionCode::Expire => push_str(out, "EXPIRE"),
        OptionCode::Cookie => push_str(out, "COOKIE"),
        OptionCode::TcpKeepalive => push_str(out, "TCPKEEPALIVE"),
        OptionCode::Padding => push_str(out, "PADDING"),
        OptionCode::Chain => push_str(out, "CHAIN"),
        OptionCode::KeyTag => push_str(out, "KEYTAG"),
        OptionCode::ExtendedError => push_str(out, "EDE"),
        OptionCode::Unrecognized(_) => {
            assert(out@ + Seq::<char>::empty() == out@);
        },
    }
}

fn push_ede(out: &mut String, data: &[u8])
    ensures
        final(out)@ == old(out)@ + ede_text(data@),
{
    if data.len() < 2 {
        push_hex_text(out, data, "");
        assert("".view() == Seq::<char>::empty()) by {
            reveal_strlit("");
        }
    } else if data.len() == 2 {
        push_decimal(out, get_u16(data, 0) as u64);
    } else {
        push_decimal(out, get_u16(data, 0) as u64);
        push_str(out, " (");
        let text = crate::name::copy_range(data, 2, data.len());
        push_quoted(out, text.as_slice());
        push_str(out, ")");
        assert(out@ == old(out)@ + (decimal(read_u16(data@, 0) as nat) + " ("@ + quoted_text(
            data@.subrange(2, data@.len() as int),
        ) + ")"@));
    }
}

fn push_option_line(out: &mut String, o: &OptOption)
    ensures
        final(out)@ == old(out)@ + option_line(o@),
{
    match o.code {
        OptionCode::Unrecognized(code) => {
            push_str(out, "; unrecognized option, code=");
            push_decimal(out, code as u64);
            push_str(out, "\n");
            assert(out@ == old(out)@ + ("; unrecognized option, code="@ + decimal(code as nat)
                + "\n"@));
        },
        OptionCode::ExtendedError => {
            push_str(out, "; EDE: ");
            push_ede(out, o.data.as_slice());
            push_str(out, "\n");
            assert(out@ == old(out)@ + ("; EDE: "@ + ede_text(o.data@) + "\n"@));
        },
        known => {
            push_str(out, "; ");
            push_option_name(out, known);
            push_str(out, ": ");
            push_hex_text(out, o.data.as_slice(), "");
            push_str(out, "\n");
            assert("".view() == Seq::<char>::empty()) by {
                reveal_strlit("");
            }
            assert(out@ == old(out)@ + ("; "@ + option_name(known) + ": "@ + hex_text(
                o.data@,
                Seq::empty(),
            ) + "\n"@));
        },
    }
}

fn push_options(out: &mut String, os: &Vec<OptOption>)
    ensures
        final(out)@ == old(out)@ + options_text(options_view(os@)),
{
    let ghost all = options_view(os@);
    let mut i: usize = 0;
    assert(all.take(0) == Seq::<OptionView>::empty());
    while i < os.len()
        invariant
            i <= os.len(),
            all == options_view(os@),
            out@ == old(out)@ + options_text(all.take(i as int)),
        decreases os.len() - i,
    {
        proof {
            assert(all.take(i + 1).drop_last() == all.take(i as int));
            assert(all.take(i + 1).last() == os@[i as int]@);
        }
        push_option_line(out, &os[i]);
        i += 1;
    }
    assert(all.take(os.len() as int) == all);
}

fn push_edns(out: &mut String, opt: &Option<OptRecord>)
    ensures
        final(out)@ == old(out)@ + edns_text(
            match *opt {
                Some(o) => Some(o@),
                None => None,
            },
        ),
{
    match opt {
        None => {
            assert(out@ + Seq::<char>::empty() == out@);
        },
        Some(o) => {
            push_str(out, ";; EDNS: version ");
            push_decimal(out, o.version as u64);
            push_str(out, "; flags: ");
            if o.dnssec_ok {
                push_str(out, "true");
            } else {
                push_str(out, "false");
            }
            push_str(out, "; udp: ");
            push_decimal(out, o.payload_size as u64);
            push_str(out, "\n");
            push_options(out, &o.options);
            assert(out@ == old(out)@ + (";; EDNS: version "@ + decimal(o.version as nat)
                + "; flags: "@ + (if o.dnssec_ok {
                "true"@
            } else {
                "false"@
            }) + "; udp: "@ + decimal(o.payload_size as nat) + "\n"@ + options_text(
                options_view(o.options@),
            )));
        },
    }
}

/// Renders a message as its report. The text is a function of the message's
/// value, so the same message always gives the same text.
pub fn format_message(m: &Message) -> (text: String)
    ensures
        text@ == report_text(m@),
{
    let mut out = String::new();
    push_header_line(&mut out, m);
    push_counts_line(&mut out, &m.header);
    push_str(&mut out, ";; QUESTION SECTION:\n");
    push_questions(&mut out, &m.questions);
    push_str(&mut out, "\n;; ANSWER SECTION:\n");
    push_records(&mut out, &m.answers, ";; ");
    push_str(&mut out, "\n;; AUTHORITY SECTION:\n");
    push_records(&mut out, &m.authorities, "");
    push_str(&mut out, "\n;; ADDITIONAL SECTION:\n");
    push_records(&mut out, &m.additionals, "");
    push_edns(&mut out, &m.opt);
    proof {
        reveal_strlit("");
        assert(""@ == Seq::<char>::empty());
        assert(out@ == Seq::<char>::empty() + report_text(m@));
    }
    out
}

} // verus!
