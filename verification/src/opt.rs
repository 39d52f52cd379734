//! The EDNS(0) OPT pseudo-record: its parameters, which ride in the class
//! and time-to-live fields of a record, and its options, which make up the
//! record's data.

use crate::error::DecodeError;
use crate::header::bit;
use crate::name::{copy_range, DomainName};
use crate::record::{class_of_code, RecordClass, RecordType, RecordView, ResourceRecord};
use crate::wire::{get_u16, lemma_split_tail, push_u16, read_u16, u16_wire};
use vstd::prelude::*;

verus! {

/// The code of an option: the assigned codes this library knows by name, and
/// every other code under its number.
#[derive(Clone, Copy, Debug, PartialEq, Eq, Structural)]
pub enum OptionCode {
    Nsid,
    Dau,
    Dhu,
    N3u,
    ClientSubnet,
    Expire,
    Cookie,
    TcpKeepalive,
    Padding,
    Chain,
    KeyTag,
    ExtendedError,
    Unrecognized(u16),
}

/// The option code that a number stands for.
pub open spec fn option_of_code(code: u16) -> OptionCode {
    if code == 3 {
        OptionCode::Nsid
    } else if code == 5 {
        OptionCode::Dau
    } else if code == 6 {
        OptionCode::Dhu
    } else if code == 7 {
        OptionCode::N3u
    } else if code == 8 {
        OptionCode::ClientSubnet
    } else if code == 9 {
        OptionCode::Expire
    } else if code == 10 {
        OptionCode::Cookie
    } else if code == 11 {
        OptionCode::TcpKeepalive
    } else if code == 12 {
        OptionCode::Padding
    } else if code == 13 {
        OptionCode::Chain
    } else if code == 14 {
        OptionCode::KeyTag
    } else if code == 15 {
        OptionCode::ExtendedError
    } else {
        OptionCode::Unrecognized(code)
    }
}

impl OptionCode {
    /// The number of the code on the wire.
    pub open spec fn code_spec(self) -> u16 {
        match self {
            OptionCode::Nsid => 3,
            OptionCode::Dau => 5,
            OptionCode::Dhu => 6,
            OptionCode::N3u => 7,
            OptionCode::ClientSubnet => 8,
            OptionCode::Expire => 9,
            OptionCode::Cookie => 10,
            OptionCode::TcpKeepalive => 11,
            OptionCode::Padding => 12,
            OptionCode::Chain => 13,
            OptionCode::KeyTag => 14,
            OptionCode::ExtendedError => 15,
            OptionCode::Unrecognized(code) => code,
        }
    }

    /// A code is canonical unless it hides a known number in `Unrecognized`.
    pub open spec fn canonical(self) -> bool {
        option_of_code(self.code_spec()) == self
    }

    /// The option code that `code` stands for; always canonical.
    pub fn from_code(code: u16) -> (c: OptionCode)
        ensures
            c == option_of_code(code),
            c.code_spec() == code,
            c.canonical(),
    {
        match code {
            3 => OptionCode::Nsid,
            5 => OptionCode::Dau,
            6 => OptionCode::Dhu,
            7 => OptionCode::N3u,
            8 => OptionCode::ClientSubnet,
            9 => OptionCode::Expire,
            10 => OptionCode::Cookie,
            11 => OptionCode::TcpKeepalive,
            12 => OptionCode::Padding,
            13 => OptionCode::Chain,
            14 => OptionCode::KeyTag,
            15 => OptionCode::ExtendedError,
            _ => OptionCode::Unrecognized(code),
        }
    }

    /// The number of the code on the wire.
    #[verifier::when_used_as_spec(code_spec)]
    pub fn code(self) -> (code: u16)
        ensures
            code == self.code_spec(),
    {
        match self {
            OptionCode::Nsid => 3,
            OptionCode::Dau => 5,
            OptionCode::Dhu => 6,
            OptionCode::N3u => 7,
            OptionCode::ClientSubnet => 8,
            OptionCode::Expire => 9,
            OptionCode::Cookie => 10,
            OptionCode::TcpKeepalive => 11,
            OptionCode::Padding => 12,
            OptionCode::Chain => 13,
            OptionCode::KeyTag => 14,
            OptionCode::ExtendedError => 15,
            OptionCode::Unrecognized(code) => code,
        }
    }
}

/// One option: its code and its data, which is interpreted by code only when
/// it is presented.
#[derive(Clone, Debug, PartialEq, Eq)]
pub struct OptOption {
    pub code: OptionCode,
    pub data: Vec<u8>,
}

/// An option as a mathematical value.
pub struct OptionView {
    pub code: OptionCode,
    pub data: Seq<u8>,
}

impl View for OptOption {
    type V = OptionView;

    open spec fn view(&self) -> OptionView {
        OptionView { code: self.code, data: self.data@ }
    }
}

/// The views of a run of options.
pub open spec fn options_view(os: Seq<OptOption>) -> Seq<OptionView> {
    Seq::new(os.len(), |i: int| os[i]@)
}

/// The EDNS(0) parameters and options of a message.
#[derive(Clone, Debug, PartialEq, Eq)]
pub struct OptRecord {
    /// The largest UDP payload the sender can take, in octets.
    pub payload_size: u16,
    /// The upper eight bits of the extended response code.
    pub ext_rcode: u8,
    pub version: u8,
    /// The DO bit: DNSSEC records are wanted.
    pub dnssec_ok: bool,
    pub options: Vec<OptOption>,
}

/// An OPT record as a mathematical value.
pub struct OptView {
    pub payload_size: u16,
    pub ext_rcode: u8,
    pub version: u8,
    pub dnssec_ok: bool,
    pub options: Seq<OptionView>,
}

impl View for OptRecord {
    type V = OptView;

    open spec fn view(&self) -> OptView {
        OptView {
            payload_size: self.payload_size,
            ext_rcode: self.ext_rcode,
            version: self.version,
            dnssec_ok: self.dnssec_ok,
            options: options_view(self.options@),
        }
    }
}

/// The octets in front of an option's data: code and length.
pub const OPTION_FIXED_LEN: usize = 4;

/// One option on the wire: code, length, data.
pub open spec fn option_wire(o: OptionView) -> Seq<u8> {
    u16_wire(o.code.code()) + u16_wire(o.data.len() as u16) + o.data
}

/// A run of options on the wire, one behind the other.
pub open spec fn options_wire(os: Seq<OptionView>) -> Seq<u8>
    decreases os.len(),
{
    if os.len() == 0 {
        Seq::empty()
    } else {
        option_wire(os[0]) + options_wire(os.drop_first())
    }
}

/// The time-to-live field of an OPT record: extended response code, version,
/// the DO bit, and fifteen reserved bits left clear.
pub open spec fn opt_ttl(ext_rcode: u8, version: u8, dnssec_ok: bool) -> u32 {
    (ext_rcode * 16777216 + version * 65536 + bit(dnssec_ok) * 32768) as u32
}

/// The OPT record of a query: owner root, type OPT, the payload size as the
/// class, extended response code and version zero, and the options as data.
pub open spec fn opt_record_view(payload_size: u16, dnssec_ok: bool, options: Seq<OptionView>)
    -> RecordView {
    RecordView {
        owner: Seq::empty(),
        rtype: RecordType::Opt,
        class: class_of_code(payload_size),
        ttl: opt_ttl(0, 0, dnssec_ok),
        rdata: options_wire(options),
    }
}

/// Reading options from `pos` to the end of `rdata`.
pub open spec fn parse_options(rdata: Seq<u8>, pos: int) -> Result<Seq<OptionView>, DecodeError>
    decreases rdata.len() - pos,
{
    if pos < 0 || pos >= rdata.len() {
        Ok(Seq::empty())
    } else if pos + OPTION_FIXED_LEN > rdata.len() {
        Err(DecodeError::Truncated)
    } else if pos + OPTION_FIXED_LEN + read_u16(rdata, pos + 2) > rdata.len() {
        Err(DecodeError::Truncated)
    } else {
        let data = pos + OPTION_FIXED_LEN;
        let len = read_u16(rdata, pos + 2) as int;
        match parse_options(rdata, data + len) {
            Err(e) => Err(e),
            Ok(os) => Ok(
                seq![
                    OptionView {
                        code: option_of_code(read_u16(rdata, pos)),
                        data: rdata.subrange(data, data + len),
                    },
                ] + os,
            ),
        }
    }
}

/// Unpacking a record as an OPT record: the class is the payload size, the
/// time to live holds extended response code, version and DO bit, and the
/// data is a run of options.
pub open spec fn opt_of_record(r: RecordView) -> Result<OptView, DecodeError> {
    match parse_options(r.rdata, 0) {
        Err(e) => Err(e),
        Ok(options) => Ok(
            OptView {
                payload_size: r.class.code(),
                ext_rcode: (r.ttl / 16777216) as u8,
                version: (r.ttl / 65536 % 256) as u8,
                dnssec_ok: r.ttl / 32768 % 2 == 1,
                options,
            },
        ),
    }
}

/// Every code is canonical and every option's length fits its 16-bit field.
pub open spec fn options_wf(os: Seq<OptionView>) -> bool {
    forall|i: int|
        0 <= i < os.len() ==> (#[trigger] os[i]).code.canonical() && os[i].data.len() <= u16::MAX
}

/// The options read so far, put in front of what reading the rest gives.
pub open spec fn resume_options(done: Seq<OptionView>, rest: Result<Seq<OptionView>, DecodeError>)
    -> Result<Seq<OptionView>, DecodeError> {
    match rest {
        Ok(more) => Ok(done + more),
        Err(e) => Err(e),
    }
}

/// One more option goes on the wire behind the others.
pub proof fn lemma_options_wire_push(os: Seq<OptionView>, o: OptionView)
    ensures
        options_wire(os.push(o)) == options_wire(os) + option_wire(o),
    decreases os.len(),
{
    if os.len() == 0 {
        assert(os.push(o).drop_first() == Seq::<OptionView>::empty());
        assert(os.push(o)[0] == o);
        assert(options_wire(os.push(o).drop_first()) == Seq::<u8>::empty());
        assert(options_wire(os.push(o)) == option_wire(o) + Seq::<u8>::empty());
        assert(options_wire(os) + option_wire(o) == option_wire(o));
    } else {
        lemma_options_wire_push(os.drop_first(), o);
        assert(os.push(o).drop_first() == os.drop_first().push(o));
        assert(options_wire(os.push(o)) == option_wire(os[0]) + (options_wire(os.drop_first())
            + option_wire(o)));
    }
}

/// Options written one behind the other read back as themselves.
pub proof fn lemma_parse_options_wire(rdata: Seq<u8>, pos: int, os: Seq<OptionView>)
    requires
        0 <= pos <= rdata.len(),
        rdata.subrange(pos, rdata.len() as int) == options_wire(os),
        options_wf(os),
    ensures
        parse_options(rdata, pos) == Ok::<_, DecodeError>(os),
    decreases os.len(),
{
    let tail = rdata.subrange(pos, rdata.len() as int);
    if os.len() == 0 {
        assert(tail.len() == 0);
        assert(os == Seq::<OptionView>::empty());
    } else {
        let o = os[0];
        let rest = os.drop_first();
        let len = o.data.len() as int;
        assert(o.code.canonical() && len <= u16::MAX);
        let code_w = u16_wire(o.code.code());
        let len_w = u16_wire(len as u16);
        let rest_w = options_wire(rest);
        assert(tail == code_w + (len_w + (o.data + rest_w)));
        lemma_split_tail(rdata, pos, code_w, len_w + (o.data + rest_w));
        lemma_split_tail(rdata, pos + 2, len_w, o.data + rest_w);
        lemma_split_tail(rdata, pos + 4, o.data, rest_w);
        crate::wire::lemma_read_u16_wire(rdata, pos, o.code.code());
        crate::wire::lemma_read_u16_wire(rdata, pos + 2, len as u16);
        assert(options_wf(rest)) by {
            assert forall|i: int| 0 <= i < rest.len() implies (#[trigger] rest[i]).code.canonical()
                && rest[i].data.len() <= u16::MAX by {
                assert(rest[i] == os[i + 1]);
            }
        }
        lemma_parse_options_wire(rdata, pos + 4 + len, rest);
        assert(seq![o] + rest == os);
    }
}

/// Round trip: the OPT record of a query unpacks to the parameters and
/// options it was made from, with extended response code and version zero.
pub proof fn lemma_opt_round_trip(payload_size: u16, dnssec_ok: bool, options: Seq<OptionView>)
    requires
        options_wf(options),
    ensures
        opt_of_record(opt_record_view(payload_size, dnssec_ok, options)) == Ok::<_, DecodeError>(
            OptView { payload_size, ext_rcode: 0, version: 0, dnssec_ok, options },
        ),
{
    let r = opt_record_view(payload_size, dnssec_ok, options);
    assert(parse_options(r.rdata, 0) == Ok::<_, DecodeError>(options)) by {
        assert(r.rdata.subrange(0, r.rdata.len() as int) == r.rdata);
        lemma_parse_options_wire(r.rdata, 0, options);
    }
    assert(r.ttl == if dnssec_ok { 32768u32 } else { 0u32 });
    assert(r.class.code() == payload_size);
    let ttl = r.ttl;
    assert(ttl / 16777216 == 0 && ttl / 65536 % 256 == 0 && (ttl / 32768 % 2 == 1) == dnssec_ok);
}

/// Whether the options, written one behind the other, fit the data of one
/// record.
pub fn options_fit(options: &Vec<OptOption>) -> (fit: bool)
    ensures
        fit == (options_wire(options_view(options@)).len() <= u16::MAX),
{
    let ghost os = options_view(options@);
    let mut total: usize = 0;
    let mut i: usize = 0;
    assert(os.take(0) == Seq::<OptionView>::empty());
    while i < options.len()
        invariant
            i <= options.len(),
            os == options_view(options@),
            total == options_wire(os.take(i as int)).len(),
            total <= u16::MAX,
        decreases options.len() - i,
    {
        let len = options[i].data.len();
        proof {
            assert(os.take(i + 1) == os.take(i as int).push(os[i as int]));
            lemma_options_wire_push(os.take(i as int), os[i as int]);
            lemma_options_wire_prefix(os, i + 1);
        }
        if len > 0xffff || total + OPTION_FIXED_LEN + len > 0xffff {
            return false;
        }
        total = total + OPTION_FIXED_LEN + len;
        i += 1;
    }
    assert(os.take(options.len() as int) == os);
    true
}

/// A run of options is at least as long on the wire as any of its prefixes.
pub proof fn lemma_options_wire_prefix(os: Seq<OptionView>, n: int)
    requires
        0 <= n <= os.len(),
    ensures
        options_wire(os.take(n)).len() <= options_wire(os).len(),
    decreases os.len() - n,
{
    if n < os.len() {
        lemma_options_wire_prefix(os, n + 1);
        assert(os.take(n + 1) == os.take(n).push(os[n]));
        lemma_options_wire_push(os.take(n), os[n]);
    } else {
        assert(os.take(n) == os);
    }
}

/// Makes the OPT record of a query: owner root, type OPT, the payload size
/// as the class, extended response code and version zero with the DO bit as
/// given, and the options, in order, as the data.
pub fn encode_opt(payload_size: u16, dnssec_ok: bool, options: &Vec<OptOption>) -> (record:
    ResourceRecord)
    requires
        options_wire(options_view(options@)).len() <= u16::MAX,
    ensures
        record@ == opt_record_view(payload_size, dnssec_ok, options_view(options@)),
        record.rdata.len() <= u16::MAX,
{
    let ghost os = options_view(options@);
    let mut rdata: Vec<u8> = Vec::new();
    let mut i: usize = 0;
    assert(os.take(0) == Seq::<OptionView>::empty());
    while i < options.len()
        invariant
            i <= options.len(),
            os == options_view(options@),
            options_wire(os).len() <= u16::MAX,
            rdata@ == options_wire(os.take(i as int)),
        decreases options.len() - i,
    {
        let option = &options[i];
        proof {
            assert(os.take(i + 1) == os.take(i as int).push(os[i as int]));
            lemma_options_wire_push(os.take(i as int), os[i as int]);
            lemma_options_wire_prefix(os, i + 1);
        }
        push_u16(&mut rdata, option.code.code());
        push_u16(&mut rdata, option.data.len() as u16);
        rdata.extend_from_slice(option.data.as_slice());
        i += 1;
    }
    assert(os.take(options.len() as int) == os);
    let ttl: u32 = if dnssec_ok {
        32768
    } else {
        0
    };
    ResourceRecord {
        owner: DomainName::root(),
        rtype: RecordType::Opt,
        class: RecordClass::from_code(payload_size),
        ttl,
        rdata,
    }
}

/// Unpacks a record as an OPT record. Fails with `Truncated` exactly when an
/// option's fixed fields or declared length run past the end of the data.
pub fn decode_opt(record: &ResourceRecord) -> (r: Result<OptRecord, DecodeError>)
    ensures
        match r {
            Ok(opt) => opt_of_record(record@) == Ok::<_, DecodeError>(opt@),
            Err(e) => opt_of_record(record@) == Err::<OptView, _>(e),
        },
{
    let rdata = record.rdata.as_slice();
    let ghost whole = parse_options(rdata@, 0);
    let mut options: Vec<OptOption> = Vec::new();
    let mut pos: usize = 0;
    assert(options_view(options@) + Seq::<OptionView>::empty() == Seq::<OptionView>::empty());
    while pos < rdata.len()
        invariant
            pos <= rdata.len(),
            rdata@ == record.rdata@,
            whole == parse_options(rdata@, 0),
            whole == resume_options(options_view(options@), parse_options(rdata@, pos as int)),
        decreases rdata.len() - pos,
    {
        if rdata.len() - pos < OPTION_FIXED_LEN {
            return Err(DecodeError::Truncated);
        }
        let code = OptionCode::from_code(get_u16(rdata, pos));
        let len = get_u16(rdata, pos + 2) as usize;
        let start = pos + OPTION_FIXED_LEN;
        if rdata.len() - start < len {
            return Err(DecodeError::Truncated);
        }
        let option = OptOption { code, data: copy_range(rdata, start, start + len) };
        proof {
            let rest = parse_options(rdata@, start + len);
            if rest is Ok {
                assert(options_view(options@.push(option)) + rest->Ok_0 == options_view(options@)
                    + (seq![option@] + rest->Ok_0));
            }
        }
        options.push(option);
        pos = start + len;
    }
    assert(options_view(options@) + Seq::<OptionView>::empty() == options_view(options@));
    let ttl = record.ttl;
    Ok(
        OptRecord {
            payload_size: record.class.code(),
            ext_rcode: (ttl / 16777216) as u8,
            version: (ttl / 65536 % 256) as u8,
            dnssec_ok: ttl / 32768 % 2 == 1,
            options,
        },
    )
}

} // verus!
