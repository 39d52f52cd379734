//! The fixed 12-octet message header.

use crate::error::DecodeError;
use crate::wire::{get_u16, push_u16, read_u16, u16_wire};
use vstd::prelude::*;

verus! {

/// The length of a header on the wire.
pub const HEADER_LEN: usize = 12;

/// A message header: transaction id, flags, and the number of entries in
/// each of the four sections.
#[derive(Clone, Copy, Debug, PartialEq, Eq, Structural)]
pub struct MessageHeader {
    pub id: u16,
    /// Set in a response.
    pub qr: bool,
    /// The kind of query, four bits.
    pub opcode: u8,
    /// Authoritative answer.
    pub aa: bool,
    /// Truncated.
    pub tc: bool,
    /// Recursion desired.
    pub rd: bool,
    /// Recursion available.
    pub ra: bool,
    /// The reserved bit.
    pub z: bool,
    /// Authentic data.
    pub ad: bool,
    /// Checking disabled.
    pub cd: bool,
    /// The response code, four bits.
    pub rcode: u8,
    pub qdcount: u16,
    pub ancount: u16,
    pub nscount: u16,
    pub arcount: u16,
}

/// A flag as the value of its bit.
pub open spec fn bit(b: bool) -> int {
    if b {
        1
    } else {
        0
    }
}

impl MessageHeader {
    /// Opcode and response code fit their four bits.
    pub open spec fn wf(&self) -> bool {
        self.opcode < 16 && self.rcode < 16
    }

    /// The first flags octet: QR, opcode, AA, TC, RD.
    pub open spec fn flags_high(&self) -> u8 {
        (bit(self.qr) * 128 + self.opcode * 8 + bit(self.aa) * 4 + bit(self.tc) * 2 + bit(
            self.rd,
        )) as u8
    }

    /// The second flags octet: RA, Z, AD, CD, response code.
    pub open spec fn flags_low(&self) -> u8 {
        (bit(self.ra) * 128 + bit(self.z) * 64 + bit(self.ad) * 32 + bit(self.cd) * 16
            + self.rcode) as u8
    }

    /// The header on the wire.
    #[verifier::opaque]
    pub open spec fn wire(&self) -> Seq<u8> {
        u16_wire(self.id) + seq![self.flags_high(), self.flags_low()] + u16_wire(self.qdcount)
            + u16_wire(self.ancount) + u16_wire(self.nscount) + u16_wire(self.arcount)
    }
}

/// The header that the first 12 octets of `buf` spell.
#[verifier::opaque]
pub open spec fn header_at(buf: Seq<u8>) -> MessageHeader {
    MessageHeader {
        id: read_u16(buf, 0),
        qr: buf[2] >= 128,
        opcode: (buf[2] / 8 % 16) as u8,
        aa: buf[2] / 4 % 2 == 1,
        tc: buf[2] / 2 % 2 == 1,
        rd: buf[2] % 2 == 1,
        ra: buf[3] >= 128,
        z: buf[3] / 64 % 2 == 1,
        ad: buf[3] / 32 % 2 == 1,
        cd: buf[3] / 16 % 2 == 1,
        rcode: (buf[3] % 16) as u8,
        qdcount: read_u16(buf, 4),
        ancount: read_u16(buf, 6),
        nscount: read_u16(buf, 8),
        arcount: read_u16(buf, 10),
    }
}

/// Decoding a header: the buffer must hold at least 12 octets.
pub open spec fn parse_header(buf: Seq<u8>) -> Result<MessageHeader, DecodeError> {
    if buf.len() < HEADER_LEN {
        Err(DecodeError::Truncated)
    } else {
        Ok(header_at(buf))
    }
}

/// A header takes up 12 octets.
pub proof fn lemma_header_wire_len(h: MessageHeader)
    ensures
        h.wire().len() == HEADER_LEN,
{
    reveal(MessageHeader::wire);
}

/// Round trip: a well-formed header reads back from any buffer that starts
/// with its wire form.
pub proof fn lemma_header_round_trip(h: MessageHeader, buf: Seq<u8>)
    requires
        h.wf(),
        buf.len() >= HEADER_LEN,
        buf.subrange(0, HEADER_LEN as int) == h.wire(),
    ensures
        parse_header(buf) == Ok::<_, DecodeError>(h),
{
    reveal(MessageHeader::wire);
    reveal(header_at);
    let w = h.wire();
    assert(w.len() == 12);
    assert forall|k: int| 0 <= k < 12 implies buf[k] == w[k] by {
        assert(buf[k] == buf.subrange(0, HEADER_LEN as int)[k]);
    }
    let d = header_at(buf);
    assert(d.id == h.id);
    assert(d.qdcount == h.qdcount);
    assert(d.ancount == h.ancount);
    assert(d.nscount == h.nscount);
    assert(d.arcount == h.arcount);
    assert(buf[2] == h.flags_high());
    assert(buf[3] == h.flags_low());
    assert(d.opcode == h.opcode);
    assert(d.rcode == h.rcode);
    assert(d == h);
}

/// An octet is the sum of its bit fields, split as the first flags octet is.
proof fn lemma_split_high(b: u8)
    ensures
        b / 128 * 128 + b / 8 % 16 * 8 + b / 4 % 2 * 4 + b / 2 % 2 * 2 + b % 2 == b,
        b / 128 == bit(b >= 128),
{
    assert(b / 128 * 128 + b / 8 % 16 * 8 + b / 4 % 2 * 4 + b / 2 % 2 * 2 + b % 2 == b)
        by (bit_vector);
}

/// An octet is the sum of its bit fields, split as the second flags octet is.
proof fn lemma_split_low(b: u8)
    ensures
        b / 128 * 128 + b / 64 % 2 * 64 + b / 32 % 2 * 32 + b / 16 % 2 * 16 + b % 16 == b,
        b / 128 == bit(b >= 128),
{
    assert(b / 128 * 128 + b / 64 % 2 * 64 + b / 32 % 2 * 32 + b / 16 % 2 * 16 + b % 16 == b)
        by (bit_vector);
}

/// The other way round: the header read from 12 octets is well formed and
/// writes back as those octets.
pub proof fn lemma_header_wire_of_parsed(buf: Seq<u8>)
    requires
        buf.len() >= HEADER_LEN,
    ensures
        header_at(buf).wf(),
        header_at(buf).wire() == buf.subrange(0, HEADER_LEN as int),
{
    reveal(MessageHeader::wire);
    reveal(header_at);
    let h = header_at(buf);
    lemma_split_high(buf[2]);
    lemma_split_low(buf[3]);
    assert(h.flags_high() == buf[2]);
    assert(h.flags_low() == buf[3]);
    assert(u16_wire(read_u16(buf, 0)) == buf.subrange(0, 2));
    assert(u16_wire(read_u16(buf, 4)) == buf.subrange(4, 6));
    assert(u16_wire(read_u16(buf, 6)) == buf.subrange(6, 8));
    assert(u16_wire(read_u16(buf, 8)) == buf.subrange(8, 10));
    assert(u16_wire(read_u16(buf, 10)) == buf.subrange(10, 12));
    assert(h.wire() == buf.subrange(0, HEADER_LEN as int));
}

fn flag(b: bool) -> (v: u8)
    ensures
        v == bit(b),
{
    if b {
        1
    } else {
        0
    }
}

impl MessageHeader {
    /// The header of a fresh query: the given id, recursion desired, every
    /// other flag clear and every section empty.
    pub fn query(id: u16) -> (h: MessageHeader)
        ensures
            h == (MessageHeader {
                id,
                qr: false,
                opcode: 0,
                aa: false,
                tc: false,
                rd: true,
                ra: false,
                z: false,
                ad: false,
                cd: false,
                rcode: 0,
                qdcount: 0,
                ancount: 0,
                nscount: 0,
                arcount: 0,
            }),
    {
        MessageHeader {
            id,
            qr: false,
            opcode: 0,
            aa: false,
            tc: false,
            rd: true,
            ra: false,
            z: false,
            ad: false,
            cd: false,
            rcode: 0,
            qdcount: 0,
            ancount: 0,
            nscount: 0,
            arcount: 0,
        }
    }

    /// Whether opcode and response code fit their four bits.
    pub fn is_wf(&self) -> (ok: bool)
        ensures
            ok == self.wf(),
    {
        self.opcode < 16 && self.rcode < 16
    }

    /// Encodes the header as its 12 octets.
    pub fn encode(&self) -> (bytes: Vec<u8>)
        requires
            self.wf(),
        ensures
            bytes@ == self.wire(),
            bytes.len() == HEADER_LEN,
    {
        reveal(MessageHeader::wire);
        let mut out: Vec<u8> = Vec::new();
        push_u16(&mut out, self.id);
        let high: u8 = flag(self.qr) * 128 + self.opcode * 8 + flag(self.aa) * 4 + flag(self.tc)
            * 2 + flag(self.rd);
        let low: u8 = flag(self.ra) * 128 + flag(self.z) * 64 + flag(self.ad) * 32 + flag(self.cd)
            * 16 + self.rcode;
        out.push(high);
        out.push(low);
        assert(out@ == u16_wire(self.id) + seq![self.flags_high(), self.flags_low()]);
        push_u16(&mut out, self.qdcount);
        push_u16(&mut out, self.ancount);
        push_u16(&mut out, self.nscount);
        push_u16(&mut out, self.arcount);
        out
    }

    /// Decodes the header at the start of `buf`. Fails with `Truncated`
    /// exactly when `buf` holds fewer than 12 octets.
    pub fn decode(buf: &[u8]) -> (r: Result<MessageHeader, DecodeError>)
        ensures
            r == parse_header(buf@),
            r is Ok ==> r->Ok_0.wf(),
    {
        if buf.len() < HEADER_LEN {
            return Err(DecodeError::Truncated);
        }
        reveal(header_at);
        let high = buf[2];
        let low = buf[3];
        Ok(
            MessageHeader {
                id: get_u16(buf, 0),
                qr: high >= 128,
                opcode: high / 8 % 16,
                aa: high / 4 % 2 == 1,
                tc: high / 2 % 2 == 1,
                rd: high % 2 == 1,
                ra: low >= 128,
                z: low / 64 % 2 == 1,
                ad: low / 32 % 2 == 1,
                cd: low / 16 % 2 == 1,
                rcode: low % 16,
                qdcount: get_u16(buf, 4),
                ancount: get_u16(buf, 6),
                nscount: get_u16(buf, 8),
                arcount: get_u16(buf, 10),
            },
        )
    }
}

} // verus!
