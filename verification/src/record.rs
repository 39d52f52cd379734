//! Questions and resource records: their types and classes, the question
//! entry on the wire, and the decoding of records and whole sections.

use crate::error::{DecodeError, MessageError, NameError};
use crate::name::{copy_range, decode_name, name_wire, valid_name, DomainName};
use crate::wire::{
    get_u16, get_u32, lemma_read_u16_wire, lemma_read_u32_wire, lemma_split_concat, push_u16,
    push_u32, read_u16, read_u32, u16_wire, u32_wire,
};
use vstd::prelude::*;

verus! {

/// The type of a record: the types this library can present, and every other
/// type under its number.
#[derive(Clone, Copy, Debug, PartialEq, Eq, Structural)]
pub enum RecordType {
    A,
    Ns,
    Cname,
    Soa,
    Ptr,
    Mx,
    Txt,
    Aaaa,
    Opt,
    Unrecognized(u16),
}

/// The record type that a number stands for.
pub open spec fn type_of_code(code: u16) -> RecordType {
    if code == 1 {
        RecordType::A
    } else if code == 2 {
        RecordType::Ns
    } else if code == 5 {
        RecordType::Cname
    } else if code == 6 {
        RecordType::Soa
    } else if code == 12 {
        RecordType::Ptr
    } else if code == 15 {
        RecordType::Mx
    } else if code == 16 {
        RecordType::Txt
    } else if code == 28 {
        RecordType::Aaaa
    } else if code == 41 {
        RecordType::Opt
    } else {
        RecordType::Unrecognized(code)
    }
}

impl RecordType {
    /// The number of the type on the wire.
    pub open spec fn code_spec(self) -> u16 {
        match self {
            RecordType::A => 1,
            RecordType::Ns => 2,
            RecordType::Cname => 5,
            RecordType::Soa => 6,
            RecordType::Ptr => 12,
            RecordType::Mx => 15,
            RecordType::Txt => 16,
            RecordType::Aaaa => 28,
            RecordType::Opt => 41,
            RecordType::Unrecognized(code) => code,
        }
    }

    /// A type is canonical unless it hides a known number in `Unrecognized`.
    pub open spec fn canonical(self) -> bool {
        type_of_code(self.code_spec()) == self
    }

    /// The type that `code` stands for; always canonical.
    pub fn from_code(code: u16) -> (t: RecordType)
        ensures
            t == type_of_code(code),
            t.code_spec() == code,
            t.canonical(),
    {
        match code {
            1 => RecordType::A,
            2 => RecordType::Ns,
            5 => RecordType::Cname,
            6 => RecordType::Soa,
            12 => RecordType::Ptr,
            15 => RecordType::Mx,
            16 => RecordType::Txt,
            28 => RecordType::Aaaa,
            41 => RecordType::Opt,
            _ => RecordType::Unrecognized(code),
        }
    }

    /// The number of the type on the wire.
    #[verifier::when_used_as_spec(code_spec)]
    pub fn code(self) -> (code: u16)
        ensures
            code == self.code_spec(),
    {
        match self {
            RecordType::A => 1,
            RecordType::Ns => 2,
            RecordType::Cname => 5,
            RecordType::Soa => 6,
            RecordType::Ptr => 12,
            RecordType::Mx => 15,
            RecordType::Txt => 16,
            RecordType::Aaaa => 28,
            RecordType::Opt => 41,
            RecordType::Unrecognized(code) => code,
        }
    }
}

/// The class of a record: the assigned classes, and every other class under
/// its number.
#[derive(Clone, Copy, Debug, PartialEq, Eq, Structural)]
pub enum RecordClass {
    In,
    Ch,
    Hs,
    /// The class NONE of dynamic updates.
    Unset,
    Any,
    Unrecognized(u16),
}

/// The record class that a number stands for.
pub open spec fn class_of_code(code: u16) -> RecordClass {
    if code == 1 {
        RecordClass::In
    } else if code == 3 {
        RecordClass::Ch
    } else if code == 4 {
        RecordClass::Hs
    } else if code == 254 {
        RecordClass::Unset
    } else if code == 255 {
        RecordClass::Any
    } else {
        RecordClass::Unrecognized(code)
    }
}

impl RecordClass {
    /// The number of the class on the wire.
    pub open spec fn code_spec(self) -> u16 {
        match self {
            RecordClass::In => 1,
            RecordClass::Ch => 3,
            RecordClass::Hs => 4,
            RecordClass::Unset => 254,
            RecordClass::Any => 255,
            RecordClass::Unrecognized(code) => code,
        }
    }

    /// A class is canonical unless it hides a known number in `Unrecognized`.
    pub open spec fn canonical(self) -> bool {
        class_of_code(self.code_spec()) == self
    }

    /// The class that `code` stands for; always canonical.
    pub fn from_code(code: u16) -> (c: RecordClass)
        ensures
            c == class_of_code(code),
            c.code_spec() == code,
            c.canonical(),
    {
        match code {
            1 => RecordClass::In,
            3 => RecordClass::Ch,
            4 => RecordClass::Hs,
            254 => RecordClass::Unset,
            255 => RecordClass::Any,
            _ => RecordClass::Unrecognized(code),
        }
    }

    /// The number of the class on the wire.
    #[verifier::when_used_as_spec(code_spec)]
    pub fn code(self) -> (code: u16)
        ensures
            code == self.code_spec(),
    {
        match self {
            RecordClass::In => 1,
            RecordClass::Ch => 3,
            RecordClass::Hs => 4,
            RecordClass::Unset => 254,
            RecordClass::Any => 255,
            RecordClass::Unrecognized(code) => code,
        }
    }
}

/// One entry of the question section.
#[derive(Clone, Debug, PartialEq, Eq)]
pub struct Question {
    pub name: DomainName,
    pub qtype: RecordType,
    pub qclass: RecordClass,
}

/// A question as a mathematical value.
pub struct QuestionView {
    pub name: Seq<Seq<u8>>,
    pub qtype: RecordType,
    pub qclass: RecordClass,
}

impl View for Question {
    type V = QuestionView;

    open spec fn view(&self) -> QuestionView {
        QuestionView { name: self.name@, qtype: self.qtype, qclass: self.qclass }
    }
}

/// One resource record. The data is kept as octets and is interpreted by
/// type only when it is presented. A decoded record holds its data with the
/// names in it spelled out, so that the data can be read on its own.
#[derive(Clone, Debug, PartialEq, Eq)]
pub struct ResourceRecord {
    pub owner: DomainName,
    pub rtype: RecordType,
    pub class: RecordClass,
    /// Time to live, in seconds.
    pub ttl: u32,
    pub rdata: Vec<u8>,
}

/// A resource record as a mathematical value.
pub struct RecordView {
    pub owner: Seq<Seq<u8>>,
    pub rtype: RecordType,
    pub class: RecordClass,
    pub ttl: u32,
    pub rdata: Seq<u8>,
}

impl View for ResourceRecord {
    type V = RecordView;

    open spec fn view(&self) -> RecordView {
        RecordView {
            owner: self.owner@,
            rtype: self.rtype,
            class: self.class,
            ttl: self.ttl,
            rdata: self.rdata@,
        }
    }
}

/// The views of a run of questions.
pub open spec fn questions_view(qs: Seq<Question>) -> Seq<QuestionView> {
    Seq::new(qs.len(), |i: int| qs[i]@)
}

/// The views of a run of records.
pub open spec fn records_view(rs: Seq<ResourceRecord>) -> Seq<RecordView> {
    Seq::new(rs.len(), |i: int| rs[i]@)
}

/// The octets between an owner name and the record's data: type, class,
/// time to live and data length.
pub const RECORD_FIXED_LEN: usize = 10;

/// A question entry on the wire: the name, then type and class.
pub open spec fn question_wire(q: QuestionView) -> Seq<u8> {
    name_wire(q.name) + u16_wire(q.qtype.code()) + u16_wire(q.qclass.code())
}

/// A record on the wire, its owner spelled out.
pub open spec fn record_wire(r: RecordView) -> Seq<u8> {
    name_wire(r.owner) + u16_wire(r.rtype.code()) + u16_wire(r.class.code()) + u32_wire(r.ttl)
        + u16_wire(r.rdata.len() as u16) + r.rdata
}

/// Whether the data of a record of this type holds domain names that a
/// message may compress.
pub open spec fn carries_names(rtype: RecordType) -> bool {
    rtype == RecordType::Ns || rtype == RecordType::Cname || rtype == RecordType::Ptr || rtype
        == RecordType::Mx || rtype == RecordType::Soa
}

/// The name at `pos` spelled out, if one can be decoded there.
pub open spec fn spelled_out_at(buf: Seq<u8>, pos: int) -> Option<(Seq<u8>, int)> {
    match decode_name(buf, pos) {
        Ok((labels, used)) => Some((name_wire(labels), used)),
        Err(_) => None,
    }
}

/// The data of a record in a form that can be read without the message
/// around it. These are the `len` octets at `start`, except that in the data
/// of an NS, CNAME, PTR, MX or SOA record the names are spelled out, with
/// compression pointers followed through the message. Data that has not the
/// shape of its type is left as it is.
pub open spec fn settled_rdata(buf: Seq<u8>, rtype: RecordType, start: int, len: int) -> Seq<u8> {
    let raw = buf.subrange(start, start + len);
    match rtype {
        RecordType::Ns | RecordType::Cname | RecordType::Ptr => match spelled_out_at(buf, start) {
            Some((name, used)) => if used == len {
                name
            } else {
                raw
            },
            None => raw,
        },
        RecordType::Mx => if len < 2 {
            raw
        } else {
            match spelled_out_at(buf, start + 2) {
                Some((name, used)) => if 2 + used == len {
                    buf.subrange(start, start + 2) + name
                } else {
                    raw
                },
                None => raw,
            }
        },
        RecordType::Soa => match spelled_out_at(buf, start) {
            Some((mname, first)) => match spelled_out_at(buf, start + first) {
                Some((rname, second)) => if first + second + 20 == len {
                    mname + rname + buf.subrange(start + first + second, start + len)
                } else {
                    raw
                },
                None => raw,
            },
            None => raw,
        },
        _ => raw,
    }
}

/// Decoding the question entry at `pos`: the question and the octets it
/// takes up.
#[verifier::opaque]
pub open spec fn parse_question(buf: Seq<u8>, pos: int) -> Result<(QuestionView, int), DecodeError> {
    match decode_name(buf, pos) {
        Err(e) => Err(DecodeError::Name(e)),
        Ok((name, used)) => {
            if pos + used + 4 > buf.len() {
                Err(DecodeError::Truncated)
            } else {
                Ok(
                    (
                        QuestionView {
                            name,
                            qtype: type_of_code(read_u16(buf, pos + used)),
                            qclass: class_of_code(read_u16(buf, pos + used + 2)),
                        },
                        used + 4,
                    ),
                )
            }
        },
    }
}

/// Decoding the record at `pos`: the record and the octets it takes up.
#[verifier::opaque]
pub open spec fn parse_record(buf: Seq<u8>, pos: int) -> Result<(RecordView, int), DecodeError> {
    match decode_name(buf, pos) {
        Err(e) => Err(DecodeError::Name(e)),
        Ok((owner, used)) => {
            let fixed = pos + used;
            let data = fixed + RECORD_FIXED_LEN;
            if data > buf.len() {
                Err(DecodeError::Truncated)
            } else if data + read_u16(buf, fixed + 8) > buf.len() {
                Err(DecodeError::Truncated)
            } else {
                let len = read_u16(buf, fixed + 8) as int;
                Ok(
                    (
                        RecordView {
                            owner,
                            rtype: type_of_code(read_u16(buf, fixed)),
                            class: class_of_code(read_u16(buf, fixed + 2)),
                            ttl: read_u32(buf, fixed + 4),
                            rdata: settled_rdata(buf, type_of_code(read_u16(buf, fixed)), data, len),
                        },
                        used + RECORD_FIXED_LEN + len,
                    ),
                )
            }
        },
    }
}

/// Decoding `count` question entries from `pos` on: the questions, and the
/// offset behind the last.
pub open spec fn parse_questions(buf: Seq<u8>, pos: int, count: nat) -> Result<
    (Seq<QuestionView>, int),
    MessageError,
>
    decreases count,
{
    if count == 0 {
        Ok((Seq::empty(), pos))
    } else if pos >= buf.len() {
        Err(MessageError::SectionCountMismatch)
    } else {
        match parse_question(buf, pos) {
            Err(e) => Err(MessageError::Malformed(e)),
            Ok((q, used)) => match parse_questions(buf, pos + used, (count - 1) as nat) {
                Err(e) => Err(e),
                Ok((qs, end)) => Ok((seq![q] + qs, end)),
            },
        }
    }
}

/// Decoding `count` records from `pos` on: the records, and the offset
/// behind the last.
pub open spec fn parse_records(buf: Seq<u8>, pos: int, count: nat) -> Result<
    (Seq<RecordView>, int),
    MessageError,
>
    decreases count,
{
    if count == 0 {
        Ok((Seq::empty(), pos))
    } else if pos >= buf.len() {
        Err(MessageError::SectionCountMismatch)
    } else {
        match parse_record(buf, pos) {
            Err(e) => Err(MessageError::Malformed(e)),
            Ok((r, used)) => match parse_records(buf, pos + used, (count - 1) as nat) {
                Err(e) => Err(e),
                Ok((rs, end)) => Ok((seq![r] + rs, end)),
            },
        }
    }
}

/// The entries decoded so far, put in front of what decoding the rest gives.
pub open spec fn resume_section<T>(done: Seq<T>, rest: Result<(Seq<T>, int), MessageError>) -> Result<
    (Seq<T>, int),
    MessageError,
> {
    match rest {
        Ok((more, end)) => Ok((done + more, end)),
        Err(e) => Err(e),
    }
}

/// Whether `buf` holds `piece` at `pos`.
#[verifier::opaque]
pub open spec fn holds_at(buf: Seq<u8>, pos: int, piece: Seq<u8>) -> bool {
    0 <= pos && pos + piece.len() <= buf.len() && buf.subrange(pos, pos + piece.len()) == piece
}

/// Round trip: a question entry with a valid name reads back, wherever it
/// stands, as itself with type and class in canonical form, and takes up
/// exactly its wire form.
pub proof fn lemma_parse_question_wire(buf: Seq<u8>, pos: int, q: QuestionView)
    requires
        valid_name(q.name),
        holds_at(buf, pos, question_wire(q)),
    ensures
        parse_question(buf, pos) == Ok::<_, DecodeError>(
            (
                QuestionView {
                    name: q.name,
                    qtype: type_of_code(q.qtype.code()),
                    qclass: class_of_code(q.qclass.code()),
                },
                question_wire(q).len() as int,
            ),
        ),
{
    reveal(holds_at);
    reveal(parse_question);
    let n = name_wire(q.name);
    let t = u16_wire(q.qtype.code());
    let c = u16_wire(q.qclass.code());
    assert(question_wire(q) == (n + t) + c);
    lemma_split_concat(buf, pos, n + t, c);
    lemma_split_concat(buf, pos, n, t);
    crate::name::lemma_parse_spelled_out(
        buf,
        pos,
        q.name,
        seq![pos],
        crate::name::MAX_POINTER_HOPS as nat,
        crate::name::MAX_NAME_LEN as int,
    );
    lemma_read_u16_wire(buf, pos + n.len(), q.qtype.code());
    lemma_read_u16_wire(buf, pos + n.len() + 2, q.qclass.code());
}

/// Round trip: a record with a valid owner and data that fits its length
/// field, of a type whose data holds no names, reads back, wherever it
/// stands, as itself with type and class in canonical form, and takes up
/// exactly its wire form.
pub proof fn lemma_parse_record_wire(buf: Seq<u8>, pos: int, r: RecordView)
    requires
        valid_name(r.owner),
        r.rdata.len() <= u16::MAX,
        !carries_names(type_of_code(r.rtype.code())),
        holds_at(buf, pos, record_wire(r)),
    ensures
        parse_record(buf, pos) == Ok::<_, DecodeError>(
            (
                RecordView {
                    owner: r.owner,
                    rtype: type_of_code(r.rtype.code()),
                    class: class_of_code(r.class.code()),
                    ttl: r.ttl,
                    rdata: r.rdata,
                },
                record_wire(r).len() as int,
            ),
        ),
{
    reveal(holds_at);
    reveal(parse_record);
    let n = name_wire(r.owner);
    let t = u16_wire(r.rtype.code());
    let c = u16_wire(r.class.code());
    let l = u32_wire(r.ttl);
    let d = u16_wire(r.rdata.len() as u16);
    assert(record_wire(r) == ((((n + t) + c) + l) + d) + r.rdata);
    lemma_split_concat(buf, pos, (((n + t) + c) + l) + d, r.rdata);
    lemma_split_concat(buf, pos, ((n + t) + c) + l, d);
    lemma_split_concat(buf, pos, (n + t) + c, l);
    lemma_split_concat(buf, pos, n + t, c);
    lemma_split_concat(buf, pos, n, t);
    crate::name::lemma_parse_spelled_out(
        buf,
        pos,
        r.owner,
        seq![pos],
        crate::name::MAX_POINTER_HOPS as nat,
        crate::name::MAX_NAME_LEN as int,
    );
    let fixed = pos + n.len();
    lemma_read_u16_wire(buf, fixed, r.rtype.code());
    lemma_read_u16_wire(buf, fixed + 2, r.class.code());
    lemma_read_u32_wire(buf, fixed + 4, r.ttl);
    lemma_read_u16_wire(buf, fixed + 8, r.rdata.len() as u16);
}

/// Encodes a question entry: the name spelled out, then type and class.
/// Fails exactly when the name has a defect, and with that defect.
pub fn encode_question(name: &DomainName, qtype: RecordType, qclass: RecordClass) -> (r: Result<
    Vec<u8>,
    NameError,
>)
    ensures
        match r {
            Ok(bytes) => valid_name(name@) && bytes@ == question_wire(
                QuestionView { name: name@, qtype, qclass },
            ),
            Err(e) => crate::name::name_defect(name@) == Some(e),
        },
{
    match name.encode() {
        Err(e) => Err(e),
        Ok(mut out) => {
            push_u16(&mut out, qtype.code());
            push_u16(&mut out, qclass.code());
            Ok(out)
        },
    }
}

/// Encodes a record with its owner spelled out. Fails exactly when the owner
/// has a defect, and with that defect.
pub fn encode_record(record: &ResourceRecord) -> (r: Result<Vec<u8>, NameError>)
    requires
        record.rdata.len() <= u16::MAX,
    ensures
        match r {
            Ok(bytes) => valid_name(record.owner@) && bytes@ == record_wire(record@),
            Err(e) => crate::name::name_defect(record.owner@) == Some(e),
        },
{
    match record.owner.encode() {
        Err(e) => Err(e),
        Ok(mut out) => {
            push_u16(&mut out, record.rtype.code());
            push_u16(&mut out, record.class.code());
            push_u32(&mut out, record.ttl);
            push_u16(&mut out, record.rdata.len() as u16);
            out.extend_from_slice(record.rdata.as_slice());
            Ok(out)
        },
    }
}

/// Decodes the question entry at `offset`. Returns the question and the
/// octets it takes up.
pub fn decode_question(buf: &[u8], offset: usize) -> (r: Result<(Question, usize), DecodeError>)
    ensures
        match r {
            Ok((q, used)) => {
                &&& parse_question(buf@, offset as int) == Ok::<_, DecodeError>((q@, used as int))
                &&& valid_name(q.name@)
                &&& 5 <= used
                &&& offset + used <= buf.len()
            },
            Err(e) => parse_question(buf@, offset as int) == Err::<(QuestionView, int), _>(e),
        },
{
    reveal(parse_question);
    match DomainName::decode(buf, offset) {
        Err(e) => Err(DecodeError::Name(e)),
        Ok((name, used)) => {
            let fixed = offset + used;
            if buf.len() - fixed < 4 {
                return Err(DecodeError::Truncated);
            }
            let qtype = RecordType::from_code(get_u16(buf, fixed));
            let qclass = RecordClass::from_code(get_u16(buf, fixed + 2));
            Ok((Question { name, qtype, qclass }, used + 4))
        },
    }
}

/// The name at `pos` spelled out, and the octets it takes up there.
fn spell_out_at(buf: &[u8], pos: usize) -> (r: Option<(Vec<u8>, usize)>)
    ensures
        match r {
            Some((name, used)) => {
                &&& spelled_out_at(buf@, pos as int) == Some((name@, used as int))
                &&& name.len() <= crate::name::MAX_NAME_LEN
                &&& 1 <= used
                &&& pos + used <= buf.len()
            },
            None => spelled_out_at(buf@, pos as int) is None,
        },
{
    match DomainName::decode(buf, pos) {
        Err(_) => None,
        Ok((name, used)) => match name.encode() {
            Ok(wire) => Some((wire, used)),
            // a decoded name is valid
            Err(_) => vstd::pervasive::unreached(),
        },
    }
}

/// The data of a record, its names spelled out.
fn settle_rdata(buf: &[u8], rtype: RecordType, start: usize, len: usize) -> (out: Vec<u8>)
    requires
        start + len <= buf.len(),
        len <= u16::MAX,
    ensures
        out@ == settled_rdata(buf@, rtype, start as int, len as int),
        out.len() <= u16::MAX,
{
    match rtype {
        RecordType::Ns | RecordType::Cname | RecordType::Ptr => {
            if let Some((name, used)) = spell_out_at(buf, start) {
                if used == len {
                    return name;
                }
            }
        },
        RecordType::Mx => {
            if len >= 2 {
                if let Some((name, used)) = spell_out_at(buf, start + 2) {
                    if 2 + used == len {
                        let mut out = copy_range(buf, start, start + 2);
                        out.extend_from_slice(name.as_slice());
                        return out;
                    }
                }
            }
        },
        RecordType::Soa => {
            if let Some((mname, first)) = spell_out_at(buf, start) {
                if let Some((rname, second)) = spell_out_at(buf, start + first) {
                    if first <= len && second <= len - first && len - first - second == 20 {
                        let mut out = mname;
                        out.extend_from_slice(rname.as_slice());
                        let numbers = copy_range(buf, start + first + second, start + len);
                        out.extend_from_slice(numbers.as_slice());
                        return out;
                    }
                }
            }
        },
        _ => {},
    }
    copy_range(buf, start, start + len)
}

/// Decodes the record at `offset`: owner, type, class, time to live, data
/// length and that many octets of data. Returns the record and the octets it
/// takes up. Fails with `Truncated` when the buffer ends before the fixed
/// fields or the data do.
pub fn decode_record(buf: &[u8], offset: usize) -> (r: Result<(ResourceRecord, usize), DecodeError>)
    ensures
        match r {
            Ok((record, used)) => {
                &&& parse_record(buf@, offset as int) == Ok::<_, DecodeError>(
                    (record@, used as int),
                )
                &&& valid_name(record.owner@)
                &&& record.rdata.len() <= u16::MAX
                &&& 11 <= used
                &&& offset + used <= buf.len()
            },
            Err(e) => parse_record(buf@, offset as int) == Err::<(RecordView, int), _>(e),
        },
{
    reveal(parse_record);
    match DomainName::decode(buf, offset) {
        Err(e) => Err(DecodeError::Name(e)),
        Ok((owner, used)) => {
            let fixed = offset + used;
            if buf.len() - fixed < RECORD_FIXED_LEN {
                return Err(DecodeError::Truncated);
            }
            let rtype = RecordType::from_code(get_u16(buf, fixed));
            let class = RecordClass::from_code(get_u16(buf, fixed + 2));
            let ttl = get_u32(buf, fixed + 4);
            let len = get_u16(buf, fixed + 8) as usize;
            let data = fixed + RECORD_FIXED_LEN;
            if buf.len() - data < len {
                return Err(DecodeError::Truncated);
            }
            let rdata = settle_rdata(buf, rtype, data, len);
            Ok((ResourceRecord { owner, rtype, class, ttl, rdata }, used + RECORD_FIXED_LEN + len))
        },
    }
}

/// Decodes `count` question entries from `offset` on. Returns the questions
/// and the offset behind the last. Fails with `SectionCountMismatch` when the
/// buffer is used up before `count` entries are read, and with `Malformed`
/// when an entry is faulty.
pub fn decode_questions(buf: &[u8], offset: usize, count: u16) -> (r: Result<
    (Vec<Question>, usize),
    MessageError,
>)
    ensures
        match r {
            Ok((qs, end)) => {
                &&& parse_questions(buf@, offset as int, count as nat) == Ok::<_, MessageError>(
                    (questions_view(qs@), end as int),
                )
                &&& qs.len() == count
                &&& offset <= end
                &&& end <= buf.len() || end == offset
            },
            Err(e) => parse_questions(buf@, offset as int, count as nat) == Err::<
                (Seq<QuestionView>, int),
                _,
            >(e),
        },
{
    let ghost whole = parse_questions(buf@, offset as int, count as nat);
    let mut out: Vec<Question> = Vec::new();
    let mut pos: usize = offset;
    let mut left: u16 = count;
    assert(questions_view(out@) + Seq::<QuestionView>::empty() == Seq::<QuestionView>::empty());
    while left > 0
        invariant
            whole == parse_questions(buf@, offset as int, count as nat),
            whole == resume_section(
                questions_view(out@),
                parse_questions(buf@, pos as int, left as nat),
            ),
            out.len() + left == count,
            offset <= pos,
            pos <= buf.len() || pos == offset,
        decreases left,
    {
        if pos >= buf.len() {
            return Err(MessageError::SectionCountMismatch);
        }
        match decode_question(buf, pos) {
            Err(e) => {
                return Err(MessageError::Malformed(e));
            },
            Ok((q, used)) => {
                proof {
                    let rest = parse_questions(buf@, pos + used, (left - 1) as nat);
                    if rest is Ok {
                        assert(questions_view(out@.push(q)) + rest->Ok_0.0 == questions_view(out@)
                            + (seq![q@] + rest->Ok_0.0));
                    }
                }
                out.push(q);
                pos = pos + used;
                left = left - 1;
            },
        }
    }
    assert(questions_view(out@) + Seq::<QuestionView>::empty() == questions_view(out@));
    Ok((out, pos))
}

/// Decodes one section: `count` records from `offset` on. Returns the
/// records and the offset behind the last. Fails with `SectionCountMismatch`
/// when the buffer is used up before `count` records are read, and with
/// `Malformed` when a record is faulty.
pub fn decode_section(buf: &[u8], offset: usize, count: u16) -> (r: Result<
    (Vec<ResourceRecord>, usize),
    MessageError,
>)
    ensures
        match r {
            Ok((rs, end)) => {
                &&& parse_records(buf@, offset as int, count as nat) == Ok::<_, MessageError>(
                    (records_view(rs@), end as int),
                )
                &&& rs.len() == count
                &&& offset <= end
                &&& end <= buf.len() || end == offset
            },
            Err(e) => parse_records(buf@, offset as int, count as nat) == Err::<
                (Seq<RecordView>, int),
                _,
            >(e),
        },
{
    let ghost whole = parse_records(buf@, offset as int, count as nat);
    let mut out: Vec<ResourceRecord> = Vec::new();
    let mut pos: usize = offset;
    let mut left: u16 = count;
    assert(records_view(out@) + Seq::<RecordView>::empty() == Seq::<RecordView>::empty());
    while left > 0
        invariant
            whole == parse_records(buf@, offset as int, count as nat),
            whole == resume_section(
                records_view(out@),
                parse_records(buf@, pos as int, left as nat),
            ),
            out.len() + left == count,
            offset <= pos,
            pos <= buf.len() || pos == offset,
        decreases left,
    {
        if pos >= buf.len() {
            return Err(MessageError::SectionCountMismatch);
        }
        match decode_record(buf, pos) {
            Err(e) => {
                return Err(MessageError::Malformed(e));
            },
            Ok((record, used)) => {
                proof {
                    let rest = parse_records(buf@, pos + used, (left - 1) as nat);
                    if rest is Ok {
                        assert(records_view(out@.push(record)) + rest->Ok_0.0 == records_view(out@)
                            + (seq![record@] + rest->Ok_0.0));
                    }
                }
                out.push(record);
                pos = pos + used;
                left = left - 1;
            },
        }
    }
    assert(records_view(out@) + Seq::<RecordView>::empty() == records_view(out@));
    Ok((out, pos))
}

} // verus!
