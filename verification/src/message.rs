//! Whole messages: building the query datagram and decoding a response
//! datagram into its sections.

use crate::assemble::{AssembleError, Assembler, Section};
use crate::error::{DecodeError, MessageError, NameError};
use crate::header::{parse_header, MessageHeader, HEADER_LEN};
use crate::name::{name_defect, valid_name, DomainName};
use crate::opt::{
    decode_opt, encode_opt, opt_of_record, opt_record_view, options_view, options_wire, OptOption,
    OptRecord, OptView, OptionCode, OptionView,
};
use crate::record::{
    decode_questions, decode_record, decode_section, parse_questions, parse_record, parse_records,
    question_wire, questions_view, record_wire, records_view, resume_section, Question,
    QuestionView, RecordClass, RecordType, RecordView, ResourceRecord,
};
use vstd::prelude::*;

verus! {

/// The largest UDP payload that a message without EDNS(0) may have.
pub const PLAIN_UDP_LIMIT: u16 = 512;

/// The largest query that `build_query` makes: header, a question with the
/// longest name, and an OPT record with one empty option.
pub const MAX_QUERY_LEN: usize = 286;

/// A decoded message. The OPT record, if the additional section held one,
/// stands in `opt` and not among `additionals`.
#[derive(Clone, Debug, PartialEq, Eq)]
pub struct Message {
    pub header: MessageHeader,
    pub questions: Vec<Question>,
    pub answers: Vec<ResourceRecord>,
    pub authorities: Vec<ResourceRecord>,
    pub additionals: Vec<ResourceRecord>,
    pub opt: Option<OptRecord>,
}

/// A message as a mathematical value.
pub struct MessageView {
    pub header: MessageHeader,
    pub questions: Seq<QuestionView>,
    pub answers: Seq<RecordView>,
    pub authorities: Seq<RecordView>,
    pub additionals: Seq<RecordView>,
    pub opt: Option<OptView>,
}

impl View for Message {
    type V = MessageView;

    open spec fn view(&self) -> MessageView {
        MessageView {
            header: self.header,
            questions: questions_view(self.questions@),
            answers: records_view(self.answers@),
            authorities: records_view(self.authorities@),
            additionals: records_view(self.additionals@),
            opt: match self.opt {
                Some(opt) => Some(opt@),
                None => None,
            },
        }
    }
}

impl MessageView {
    /// Each count of the header is the number of entries in its section, the
    /// OPT record counted with the additional section.
    pub open spec fn counts_agree(self) -> bool {
        &&& self.header.qdcount == self.questions.len()
        &&& self.header.ancount == self.answers.len()
        &&& self.header.nscount == self.authorities.len()
        &&& self.header.arcount == self.additionals.len() + if self.opt is Some {
            1int
        } else {
            0int
        }
    }
}

/// Whether a query with these parameters carries an OPT record: it does when
/// it advertises more payload than plain DNS allows, or asks for DNSSEC
/// records or for the server's identifier.
pub open spec fn wants_edns(payload_size: u16, do_bit: bool, want_nsid: bool) -> bool {
    payload_size > PLAIN_UDP_LIMIT || do_bit || want_nsid
}

/// The options of a query: an empty NSID option if the identifier is asked
/// for, nothing else.
pub open spec fn query_options(want_nsid: bool) -> Seq<OptionView> {
    if want_nsid {
        seq![OptionView { code: OptionCode::Nsid, data: Seq::empty() }]
    } else {
        Seq::empty()
    }
}

/// The header of a query: recursion desired, one question, and one
/// additional record if the query carries an OPT record.
pub open spec fn query_header(id: u16, edns: bool) -> MessageHeader {
    MessageHeader {
        id,
        qr: false,
        opcode: 0,
        aa: false,
        tc: false,
        rd: true,
        ra: false,
        z: false,
        ad: false,
        cd: false,
        rcode: 0,
        qdcount: 1,
        ancount: 0,
        nscount: 0,
        arcount: if edns {
            1
        } else {
            0
        },
    }
}

/// The question of a query: the name and type asked for, class IN.
pub open spec fn query_question(name: Seq<Seq<u8>>, rtype: RecordType) -> QuestionView {
    QuestionView { name, qtype: rtype, qclass: RecordClass::In }
}

/// The query datagram: header, question, and the OPT record if there is one.
#[verifier::opaque]
pub open spec fn query_wire(
    id: u16,
    name: Seq<Seq<u8>>,
    rtype: RecordType,
    payload_size: u16,
    do_bit: bool,
    want_nsid: bool,
) -> Seq<u8> {
    let edns = wants_edns(payload_size, do_bit, want_nsid);
    query_header(id, edns).wire() + question_wire(query_question(name, rtype)) + if edns {
        record_wire(opt_record_view(payload_size, do_bit, query_options(want_nsid)))
    } else {
        Seq::empty()
    }
}

/// The OPT records among the records of a section.
pub open spec fn opt_records(rs: Seq<RecordView>) -> Seq<RecordView> {
    rs.filter(|r: RecordView| r.rtype == RecordType::Opt)
}

/// The records of a section that are no OPT records.
pub open spec fn plain_records(rs: Seq<RecordView>) -> Seq<RecordView> {
    rs.filter(|r: RecordView| r.rtype != RecordType::Opt)
}

/// The OPT record of an additional section: none, the one it holds, or a
/// fault when it holds several or the one cannot be unpacked.
#[verifier::opaque]
pub open spec fn extract_opt(additional: Seq<RecordView>) -> Result<Option<OptView>, MessageError> {
    let opts = opt_records(additional);
    if opts.len() > 1 {
        Err(MessageError::MultipleOptRecords)
    } else if opts.len() == 0 {
        Ok(None)
    } else {
        match opt_of_record(opts[0]) {
            Err(e) => Err(MessageError::Malformed(e)),
            Ok(opt) => Ok(Some(opt)),
        }
    }
}

/// Decoding a datagram: the header, then as many questions, answers,
/// authority and additional records as the header counts, with nothing left
/// over, and the OPT record taken out of the additional records. The first
/// fault met in that order is the result.
#[verifier::opaque]
pub open spec fn parse_message(buf: Seq<u8>) -> Result<MessageView, MessageError> {
    match parse_header(buf) {
        Err(e) => Err(MessageError::Malformed(e)),
        Ok(header) => match parse_questions(buf, HEADER_LEN as int, header.qdcount as nat) {
            Err(e) => Err(e),
            Ok((questions, p1)) => match parse_records(buf, p1, header.ancount as nat) {
                Err(e) => Err(e),
                Ok((answers, p2)) => match parse_records(buf, p2, header.nscount as nat) {
                    Err(e) => Err(e),
                    Ok((authorities, p3)) => match parse_records(buf, p3, header.arcount as nat) {
                        Err(e) => Err(e),
                        Ok((additional, end)) => {
                            if end != buf.len() {
                                Err(MessageError::SectionCountMismatch)
                            } else {
                                match extract_opt(additional) {
                                    Err(e) => Err(e),
                                    Ok(opt) => Ok(
                                        MessageView {
                                            header,
                                            questions,
                                            answers,
                                            authorities,
                                            additionals: plain_records(additional),
                                            opt,
                                        },
                                    ),
                                }
                            }
                        },
                    },
                },
            },
        },
    }
}

/// What `build_query_with_id` returns.
pub open spec fn query_outcome(
    id: u16,
    name: Seq<Seq<u8>>,
    rtype: RecordType,
    payload_size: u16,
    do_bit: bool,
    want_nsid: bool,
) -> Result<Seq<u8>, NameError> {
    match name_defect(name) {
        Some(e) => Err(e),
        None => Ok(query_wire(id, name, rtype, payload_size, do_bit, want_nsid)),
    }
}

/// The octets of a result, if it holds any.
pub open spec fn bytes_view(r: Result<Vec<u8>, NameError>) -> Result<Seq<u8>, NameError> {
    match r {
        Ok(bytes) => Ok(bytes@),
        Err(e) => Err(e),
    }
}

/// Builds the query datagram with the given transaction id: recursion
/// desired, one question of class IN, and an OPT record exactly when
/// `wants_edns` holds. Fails exactly when the name has a defect, and with
/// that defect.
pub fn build_query_with_id(
    id: u16,
    name: &DomainName,
    rtype: RecordType,
    payload_size: u16,
    do_bit: bool,
    want_nsid: bool,
) -> (r: Result<Vec<u8>, NameError>)
    ensures
        bytes_view(r) == query_outcome(id, name@, rtype, payload_size, do_bit, want_nsid),
        r matches Ok(bytes) ==> bytes.len() <= MAX_QUERY_LEN,
{
    proof {
        reveal(query_wire);
        crate::header::lemma_header_wire_len(
            query_header(id, wants_edns(payload_size, do_bit, want_nsid)),
        );
    }
    let mut assembler = Assembler::new(MessageHeader::query(id));
    match assembler.push_question(name, rtype, RecordClass::In) {
        Err(AssembleError::Name(e)) => {
            return Err(e);
        },
        // a fresh message is in its first stage and holds no question yet
        Err(_) => vstd::pervasive::unreached(),
        Ok(()) => {},
    }
    let ghost q = query_question(name@, rtype);
    assert(question_wire(q).len() <= 259);
    if payload_size > PLAIN_UDP_LIMIT || do_bit || want_nsid {
        let mut options: Vec<OptOption> = Vec::new();
        if want_nsid {
            options.push(OptOption { code: OptionCode::Nsid, data: Vec::new() });
        }
        let ghost os = options_view(options@);
        proof {
            assert(os == query_options(want_nsid));
            lemma_query_options_wire(want_nsid);
        }
        let record = encode_opt(payload_size, do_bit, &options);
        assert(name_defect(record@.owner) is None);
        match assembler.push_record(Section::Additional, &record) {
            // no stage lies behind the additional section, which is empty,
            // and the record has the root for its owner and little data
            Err(_) => vstd::pervasive::unreached(),
            Ok(()) => {},
        }
        assert(record_wire(record@).len() <= 15);
    }
    let bytes = assembler.finish();
    assert(bytes@ == query_wire(id, name@, rtype, payload_size, do_bit, want_nsid));
    Ok(bytes)
}

/// The options of a query take up four octets, or none.
pub proof fn lemma_query_options_wire(want_nsid: bool)
    ensures
        options_wire(query_options(want_nsid)).len() == if want_nsid {
            4int
        } else {
            0int
        },
        crate::opt::options_wf(query_options(want_nsid)),
{
    let os = query_options(want_nsid);
    if want_nsid {
        assert(os.drop_first() == Seq::<OptionView>::empty());
        assert(options_wire(os.drop_first()) == Seq::<u8>::empty());
        assert(options_wire(os) == crate::opt::option_wire(os[0]) + Seq::<u8>::empty());
    }
}

/// A fresh transaction id, drawn by `domain::base::Header::set_random_id`
/// from the thread's random number generator. Nothing is claimed of the
/// value: any 16-bit id may come back, and two calls may differ.
#[verifier::external_body]
fn random_id() -> (id: u16) {
    let mut header = domain::base::Header::new();
    header.set_random_id();
    header.id()
}

/// Builds the query datagram under a random transaction id. Apart from the
/// id the datagram is the one `build_query_with_id` makes; it fails exactly
/// when the name has a defect, and with that defect.
pub fn build_query(
    name: &DomainName,
    rtype: RecordType,
    payload_size: u16,
    do_bit: bool,
    want_nsid: bool,
) -> (r: Result<Vec<u8>, NameError>)
    ensures
        exists|id: u16|
            bytes_view(r) == #[trigger] query_outcome(
                id,
                name@,
                rtype,
                payload_size,
                do_bit,
                want_nsid,
            ),
        r matches Ok(bytes) ==> bytes.len() <= MAX_QUERY_LEN,
{
    let id = random_id();
    build_query_with_id(id, name, rtype, payload_size, do_bit, want_nsid)
}

/// Sorting one more record: it joins the OPT records or the others.
pub proof fn lemma_sort_record(done: Seq<RecordView>, r: RecordView)
    ensures
        opt_records(done.push(r)) == if r.rtype == RecordType::Opt {
            opt_records(done).push(r)
        } else {
            opt_records(done)
        },
        plain_records(done.push(r)) == if r.rtype == RecordType::Opt {
            plain_records(done)
        } else {
            plain_records(done).push(r)
        },
{
    reveal(Seq::filter);
    assert(done.push(r).drop_last() == done);
    assert(done.push(r).last() == r);
}

/// Decodes the additional section and sorts its records as they come: the
/// OPT records apart from the others.
fn decode_additional(buf: &[u8], offset: usize, count: u16) -> (r: Result<
    (Vec<ResourceRecord>, Vec<ResourceRecord>, usize),
    MessageError,
>)
    requires
        offset <= buf.len(),
    ensures
        match r {
            Ok((plain, opts, end)) => {
                &&& parse_records(buf@, offset as int, count as nat) matches Ok((all, stop))
                &&& stop == end
                &&& records_view(plain@) == plain_records(all)
                &&& records_view(opts@) == opt_records(all)
                &&& plain.len() + opts.len() == count
                &&& end <= buf.len()
            },
            Err(e) => parse_records(buf@, offset as int, count as nat) == Err::<
                (Seq<RecordView>, int),
                _,
            >(e),
        },
{
    let ghost whole = parse_records(buf@, offset as int, count as nat);
    let ghost mut done: Seq<RecordView> = Seq::empty();
    let mut plain: Vec<ResourceRecord> = Vec::new();
    let mut opts: Vec<ResourceRecord> = Vec::new();
    let mut pos: usize = offset;
    let mut left: u16 = count;
    proof {
        reveal(Seq::filter);
        assert(done + Seq::<RecordView>::empty() == done);
        assert(records_view(plain@) == plain_records(done));
        assert(records_view(opts@) == opt_records(done));
    }
    while left > 0
        invariant
            whole == parse_records(buf@, offset as int, count as nat),
            whole == resume_section(done, parse_records(buf@, pos as int, left as nat)),
            records_view(plain@) == plain_records(done),
            records_view(opts@) == opt_records(done),
            plain.len() + opts.len() + left == count,
            offset <= pos <= buf.len(),
        decreases left,
    {
        if pos >= buf.len() {
            return Err(MessageError::SectionCountMismatch);
        }
        match decode_record(buf, pos) {
            Err(e) => {
                return Err(MessageError::Malformed(e));
            },
            Ok((record, used)) => {
                proof {
                    let rest = parse_records(buf@, pos + used, (left - 1) as nat);
                    if rest is Ok {
                        assert(done.push(record@) + rest->Ok_0.0 == done + (seq![record@]
                            + rest->Ok_0.0));
                    }
                    lemma_sort_record(done, record@);
                    done = done.push(record@);
                }
                match record.rtype {
                    RecordType::Opt => {
                        assert(records_view(opts@.push(record)) == records_view(opts@).push(
                            record@,
                        ));
                        opts.push(record);
                    },
                    _ => {
                        assert(records_view(plain@.push(record)) == records_view(plain@).push(
                            record@,
                        ));
                        plain.push(record);
                    },
                }
                pos = pos + used;
                left = left - 1;
            },
        }
    }
    assert(done + Seq::<RecordView>::empty() == done);
    Ok((plain, opts, pos))
}

/// The message that a result holds, as a mathematical value.
pub open spec fn message_view(r: Result<Message, MessageError>) -> Result<
    MessageView,
    MessageError,
> {
    match r {
        Ok(m) => Ok(m@),
        Err(e) => Err(e),
    }
}

/// Decodes a datagram. Either the whole message is returned, its counts in
/// agreement with its sections, or the first fault met: `Malformed` around a
/// truncated header or a faulty name, record or option,
/// `SectionCountMismatch` when the buffer ends before a section is complete
/// or goes on behind the last, `MultipleOptRecords` when the additional
/// section holds more than one OPT record.
pub fn decode_message(buf: &[u8]) -> (r: Result<Message, MessageError>)
    ensures
        message_view(r) == parse_message(buf@),
        r matches Ok(m) ==> m@.counts_agree(),
{
    reveal(parse_message);
    let header = match MessageHeader::decode(buf) {
        Err(e) => {
            return Err(MessageError::Malformed(e));
        },
        Ok(header) => header,
    };
    let (questions, p1) = match decode_questions(buf, HEADER_LEN, header.qdcount) {
        Err(e) => {
            return Err(e);
        },
        Ok(found) => found,
    };
    let (answers, p2) = match decode_section(buf, p1, header.ancount) {
        Err(e) => {
            return Err(e);
        },
        Ok(found) => found,
    };
    let (authorities, p3) = match decode_section(buf, p2, header.nscount) {
        Err(e) => {
            return Err(e);
        },
        Ok(found) => found,
    };
    let (additionals, opts, end) = match decode_additional(buf, p3, header.arcount) {
        Err(e) => {
            return Err(e);
        },
        Ok(found) => found,
    };
    if end != buf.len() {
        return Err(MessageError::SectionCountMismatch);
    }
    reveal(extract_opt);
    if opts.len() > 1 {
        return Err(MessageError::MultipleOptRecords);
    }
    let opt = if opts.len() == 0 {
        None
    } else {
        assert(records_view(opts@)[0] == opts@[0]@);
        match decode_opt(&opts[0]) {
            Err(e) => {
                return Err(MessageError::Malformed(e));
            },
            Ok(opt) => Some(opt),
        }
    };
    Ok(Message { header, questions, answers, authorities, additionals, opt })
}

/// The message that a query datagram decodes to: the query's header, its
/// question with the type in canonical form, no records, and the OPT
/// parameters it was built with if it carries an OPT record.
pub open spec fn query_message(
    id: u16,
    name: Seq<Seq<u8>>,
    rtype: RecordType,
    payload_size: u16,
    do_bit: bool,
    want_nsid: bool,
) -> MessageView {
    let edns = wants_edns(payload_size, do_bit, want_nsid);
    MessageView {
        header: query_header(id, edns),
        questions: seq![query_question(name, crate::record::type_of_code(rtype.code()))],
        answers: Seq::empty(),
        authorities: Seq::empty(),
        additionals: Seq::empty(),
        opt: if edns {
            Some(
                OptView {
                    payload_size,
                    ext_rcode: 0,
                    version: 0,
                    dnssec_ok: do_bit,
                    options: query_options(want_nsid),
                },
            )
        } else {
            None
        },
    }
}

/// No record at all holds no OPT record and no other.
pub proof fn lemma_sort_nothing()
    ensures
        opt_records(Seq::<RecordView>::empty()) == Seq::<RecordView>::empty(),
        plain_records(Seq::<RecordView>::empty()) == Seq::<RecordView>::empty(),
{
    reveal(Seq::filter);
}

/// The OPT record of a query, on the wire; nothing if the query has none.
pub open spec fn query_opt_wire(payload_size: u16, do_bit: bool, want_nsid: bool) -> Seq<u8> {
    if wants_edns(payload_size, do_bit, want_nsid) {
        record_wire(opt_record_view(payload_size, do_bit, query_options(want_nsid)))
    } else {
        Seq::empty()
    }
}

/// Where the parts of a query stand in the datagram.
proof fn lemma_query_layout(
    id: u16,
    name: Seq<Seq<u8>>,
    rtype: RecordType,
    payload_size: u16,
    do_bit: bool,
    want_nsid: bool,
)
    ensures
        ({
            let buf = query_wire(id, name, rtype, payload_size, do_bit, want_nsid);
            let h = query_header(id, wants_edns(payload_size, do_bit, want_nsid)).wire();
            let qw = question_wire(query_question(name, rtype));
            let ow = query_opt_wire(payload_size, do_bit, want_nsid);
            &&& h.len() == 12
            &&& buf.len() == 12 + qw.len() + ow.len()
            &&& buf.subrange(0, 12) == h
            &&& crate::record::holds_at(buf, 12, qw)
            &&& crate::record::holds_at(buf, 12 + qw.len() as int, ow)
        }),
{
    let buf = query_wire(id, name, rtype, payload_size, do_bit, want_nsid);
    let h = query_header(id, wants_edns(payload_size, do_bit, want_nsid)).wire();
    let qw = question_wire(query_question(name, rtype));
    let ow = query_opt_wire(payload_size, do_bit, want_nsid);
    reveal(query_wire);
    reveal(crate::record::holds_at);
    crate::header::lemma_header_wire_len(
        query_header(id, wants_edns(payload_size, do_bit, want_nsid)),
    );
    assert(buf == (h + qw) + ow);
    assert(buf.subrange(0, buf.len() as int) == buf);
    crate::wire::lemma_split_concat(buf, 0, h + qw, ow);
    crate::wire::lemma_split_concat(buf, 0, h, qw);
}

/// A buffer that holds one question entry with a valid name at `pos` has
/// that question as its question section.
proof fn lemma_one_question(buf: Seq<u8>, pos: int, q: QuestionView)
    requires
        valid_name(q.name),
        crate::record::holds_at(buf, pos, question_wire(q)),
    ensures
        parse_questions(buf, pos, 1) == Ok::<_, MessageError>(
            (
                seq![
                    QuestionView {
                        name: q.name,
                        qtype: crate::record::type_of_code(q.qtype.code()),
                        qclass: crate::record::class_of_code(q.qclass.code()),
                    },
                ],
                pos + question_wire(q).len(),
            ),
        ),
{
    crate::record::lemma_parse_question_wire(buf, pos, q);
    assert(pos < buf.len()) by {
        reveal(crate::record::holds_at);
    }
    reveal_with_fuel(parse_questions, 2);
    let asked = crate::record::parse_question(buf, pos)->Ok_0.0;
    assert(seq![asked] + Seq::<QuestionView>::empty() == seq![asked]);
}

/// A buffer that ends with the OPT record of a query has that record as its
/// additional section, and the record unpacks to what it was made from.
proof fn lemma_one_opt(buf: Seq<u8>, pos: int, payload_size: u16, do_bit: bool, want_nsid: bool)
    requires
        crate::record::holds_at(
            buf,
            pos,
            record_wire(opt_record_view(payload_size, do_bit, query_options(want_nsid))),
        ),
    ensures
        ({
            let record = opt_record_view(payload_size, do_bit, query_options(want_nsid));
            &&& parse_records(buf, pos, 1) == Ok::<_, MessageError>(
                (seq![record], pos + record_wire(record).len()),
            )
            &&& plain_records(seq![record]) == Seq::<RecordView>::empty()
            &&& extract_opt(seq![record]) == Ok::<_, MessageError>(
                Some(
                    OptView {
                        payload_size,
                        ext_rcode: 0,
                        version: 0,
                        dnssec_ok: do_bit,
                        options: query_options(want_nsid),
                    },
                ),
            )
        }),
{
    let options = query_options(want_nsid);
    let record = opt_record_view(payload_size, do_bit, options);
    let nothing = Seq::<RecordView>::empty();
    reveal(extract_opt);
    lemma_query_options_wire(want_nsid);
    assert(crate::name::labels_wire(record.owner) == Seq::<u8>::empty());
    assert(valid_name(record.owner));
    crate::record::lemma_parse_record_wire(buf, pos, record);
    assert(parse_record(buf, pos)->Ok_0.0 == record);
    assert(pos < buf.len()) by {
        reveal(crate::record::holds_at);
    }
    assert(parse_records(buf, pos, 1) == Ok::<_, MessageError>(
        (seq![record], pos + record_wire(record).len()),
    )) by {
        reveal_with_fuel(parse_records, 2);
        assert(seq![record] + nothing == seq![record]);
    }
    lemma_sort_nothing();
    lemma_sort_record(nothing, record);
    assert(nothing.push(record) == seq![record]);
    assert(opt_records(seq![record]) == seq![record]);
    assert(opt_records(seq![record])[0] == record);
    crate::opt::lemma_opt_round_trip(payload_size, do_bit, options);
}

/// A buffer whose header, sections and OPT record are known decodes to the
/// message made of them.
proof fn lemma_message_of_parts(
    buf: Seq<u8>,
    header: MessageHeader,
    questions: Seq<QuestionView>,
    answers: Seq<RecordView>,
    authorities: Seq<RecordView>,
    additional: Seq<RecordView>,
    opt: Option<OptView>,
    p1: int,
    p2: int,
    p3: int,
)
    requires
        parse_header(buf) == Ok::<_, DecodeError>(header),
        parse_questions(buf, HEADER_LEN as int, header.qdcount as nat) == Ok::<_, MessageError>(
            (questions, p1),
        ),
        parse_records(buf, p1, header.ancount as nat) == Ok::<_, MessageError>((answers, p2)),
        parse_records(buf, p2, header.nscount as nat) == Ok::<_, MessageError>(
            (authorities, p3),
        ),
        parse_records(buf, p3, header.arcount as nat) == Ok::<_, MessageError>(
            (additional, buf.len() as int),
        ),
        extract_opt(additional) == Ok::<_, MessageError>(opt),
    ensures
        parse_message(buf) == Ok::<_, MessageError>(
            MessageView {
                header,
                questions,
                answers,
                authorities,
                additionals: plain_records(additional),
                opt,
            },
        ),
{
    reveal(parse_message);
}

/// The additional section of a query: its OPT record, if it has one.
pub open spec fn query_additional(payload_size: u16, do_bit: bool, want_nsid: bool) -> Seq<
    RecordView,
> {
    if wants_edns(payload_size, do_bit, want_nsid) {
        seq![opt_record_view(payload_size, do_bit, query_options(want_nsid))]
    } else {
        Seq::empty()
    }
}

/// What decoding finds in a query datagram, section by section, counted as
/// the query's header counts.
proof fn lemma_query_parts(
    id: u16,
    name: Seq<Seq<u8>>,
    rtype: RecordType,
    payload_size: u16,
    do_bit: bool,
    want_nsid: bool,
)
    requires
        valid_name(name),
    ensures
        ({
            let buf = query_wire(id, name, rtype, payload_size, do_bit, want_nsid);
            let wanted = query_message(id, name, rtype, payload_size, do_bit, want_nsid);
            let p1 = 12 + question_wire(query_question(name, rtype)).len() as int;
            let additional = query_additional(payload_size, do_bit, want_nsid);
            let nothing = Seq::<RecordView>::empty();
            &&& parse_header(buf) == Ok::<_, DecodeError>(wanted.header)
            &&& parse_questions(buf, HEADER_LEN as int, wanted.header.qdcount as nat) == Ok::<
                _,
                MessageError,
            >((wanted.questions, p1))
            &&& parse_records(buf, p1, wanted.header.ancount as nat) == Ok::<_, MessageError>(
                (nothing, p1),
            )
            &&& parse_records(buf, p1, wanted.header.nscount as nat) == Ok::<_, MessageError>(
                (nothing, p1),
            )
            &&& parse_records(buf, p1, wanted.header.arcount as nat) == Ok::<_, MessageError>(
                (additional, buf.len() as int),
            )
            &&& extract_opt(additional) == Ok::<_, MessageError>(wanted.opt)
            &&& plain_records(additional) == nothing
        }),
{
    let edns = wants_edns(payload_size, do_bit, want_nsid);
    let buf = query_wire(id, name, rtype, payload_size, do_bit, want_nsid);
    let header = query_header(id, edns);
    let q = query_question(name, rtype);
    let p1 = 12 + question_wire(q).len() as int;
    lemma_query_layout(id, name, rtype, payload_size, do_bit, want_nsid);
    crate::header::lemma_header_round_trip(header, buf);
    lemma_one_question(buf, 12, q);
    lemma_sort_nothing();
    assert(extract_opt(Seq::<RecordView>::empty()) == Ok::<Option<OptView>, MessageError>(None)) by {
        reveal(extract_opt);
    }
    if edns {
        lemma_one_opt(buf, p1, payload_size, do_bit, want_nsid);
    }
}

/// A query's message has no records but the OPT record, and its counts
/// agree with its sections.
proof fn lemma_query_message_shape(
    id: u16,
    name: Seq<Seq<u8>>,
    rtype: RecordType,
    payload_size: u16,
    do_bit: bool,
    want_nsid: bool,
)
    ensures
        ({
            let wanted = query_message(id, name, rtype, payload_size, do_bit, want_nsid);
            &&& wanted == MessageView {
                header: wanted.header,
                questions: wanted.questions,
                answers: Seq::empty(),
                authorities: Seq::empty(),
                additionals: Seq::empty(),
                opt: wanted.opt,
            }
            &&& wanted.counts_agree()
        }),
{
}

/// Round trip: the query built for a valid name decodes to a message with
/// the same id and recursion desired, the same question, and the same OPT
/// parameters and options.
pub proof fn lemma_query_round_trip(
    id: u16,
    name: Seq<Seq<u8>>,
    rtype: RecordType,
    payload_size: u16,
    do_bit: bool,
    want_nsid: bool,
)
    requires
        valid_name(name),
    ensures
        parse_message(query_wire(id, name, rtype, payload_size, do_bit, want_nsid)) == Ok::<
            _,
            MessageError,
        >(query_message(id, name, rtype, payload_size, do_bit, want_nsid)),
        query_message(id, name, rtype, payload_size, do_bit, want_nsid).counts_agree(),
{
    let buf = query_wire(id, name, rtype, payload_size, do_bit, want_nsid);
    let wanted = query_message(id, name, rtype, payload_size, do_bit, want_nsid);
    let p1 = 12 + question_wire(query_question(name, rtype)).len() as int;
    let nothing = Seq::<RecordView>::empty();
    lemma_query_parts(id, name, rtype, payload_size, do_bit, want_nsid);
    lemma_query_message_shape(id, name, rtype, payload_size, do_bit, want_nsid);
    lemma_message_of_parts(
        buf,
        wanted.header,
        wanted.questions,
        nothing,
        nothing,
        query_additional(payload_size, do_bit, want_nsid),
        wanted.opt,
        p1,
        p1,
        p1,
    );
}

} // verus!
