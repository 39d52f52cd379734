//! Big-endian integers on the wire.

use vstd::prelude::*;

verus! {

/// The two octets of a 16-bit integer, most significant first.
pub open spec fn u16_wire(v: u16) -> Seq<u8> {
    seq![(v / 256) as u8, (v % 256) as u8]
}

/// The four octets of a 32-bit integer, most significant first.
pub open spec fn u32_wire(v: u32) -> Seq<u8> {
    seq![
        (v / 16777216) as u8,
        (v / 65536 % 256) as u8,
        (v / 256 % 256) as u8,
        (v % 256) as u8,
    ]
}

/// The 16-bit integer whose octets stand at `pos` and `pos + 1`.
pub open spec fn read_u16(buf: Seq<u8>, pos: int) -> u16 {
    (buf[pos] * 256 + buf[pos + 1]) as u16
}

/// The 32-bit integer whose octets stand at `pos` to `pos + 3`.
pub open spec fn read_u32(buf: Seq<u8>, pos: int) -> u32 {
    (buf[pos] * 16777216 + buf[pos + 1] * 65536 + buf[pos + 2] * 256 + buf[pos + 3]) as u32
}

/// Where a buffer holds `a + b` at `pos`, it holds `a` at `pos` and `b`
/// right behind it.
pub proof fn lemma_split_concat(buf: Seq<u8>, pos: int, a: Seq<u8>, b: Seq<u8>)
    requires
        0 <= pos,
        pos + a.len() + b.len() <= buf.len(),
        buf.subrange(pos, pos + a.len() + b.len()) == a + b,
    ensures
        buf.subrange(pos, pos + a.len()) == a,
        buf.subrange(pos + a.len(), pos + a.len() + b.len()) == b,
{
    let whole = buf.subrange(pos, pos + a.len() + b.len());
    assert forall|k: int| 0 <= k < a.len() implies buf.subrange(pos, pos + a.len())[k] == a[k] by {
        assert(buf[pos + k] == whole[k]);
        assert((a + b)[k] == a[k]);
    }
    assert forall|k: int| 0 <= k < b.len() implies buf.subrange(
        pos + a.len(),
        pos + a.len() + b.len(),
    )[k] == b[k] by {
        assert(buf[pos + a.len() + k] == whole[a.len() + k]);
        assert((a + b)[a.len() + k] == b[k]);
    }
}

/// Where a buffer holds `whole` from `pos` to its end and `whole` starts
/// with `a`, it holds `a` at `pos` and the rest of `whole` behind it.
pub proof fn lemma_split_tail(buf: Seq<u8>, pos: int, a: Seq<u8>, b: Seq<u8>)
    requires
        0 <= pos <= buf.len(),
        buf.subrange(pos, buf.len() as int) == a + b,
    ensures
        pos + a.len() + b.len() == buf.len(),
        buf.subrange(pos, pos + a.len()) == a,
        buf.subrange(pos + a.len(), buf.len() as int) == b,
{
    let tail = buf.subrange(pos, buf.len() as int);
    assert(tail.len() == buf.len() - pos);
    assert((a + b).len() == a.len() + b.len());
    assert(tail.len() == (a + b).len());
    lemma_split_concat(buf, pos, a, b);
}

/// Reading back what `u16_wire` wrote, wherever it stands.
pub proof fn lemma_read_u16_wire(buf: Seq<u8>, pos: int, v: u16)
    requires
        0 <= pos,
        pos + 2 <= buf.len(),
        buf.subrange(pos, pos + 2) == u16_wire(v),
    ensures
        read_u16(buf, pos) == v,
{
    assert(buf[pos] == buf.subrange(pos, pos + 2)[0]);
    assert(buf[pos + 1] == buf.subrange(pos, pos + 2)[1]);
}

/// Reading back what `u32_wire` wrote, wherever it stands.
pub proof fn lemma_read_u32_wire(buf: Seq<u8>, pos: int, v: u32)
    requires
        0 <= pos,
        pos + 4 <= buf.len(),
        buf.subrange(pos, pos + 4) == u32_wire(v),
    ensures
        read_u32(buf, pos) == v,
{
    assert(buf[pos] == buf.subrange(pos, pos + 4)[0]);
    assert(buf[pos + 1] == buf.subrange(pos, pos + 4)[1]);
    assert(buf[pos + 2] == buf.subrange(pos, pos + 4)[2]);
    assert(buf[pos + 3] == buf.subrange(pos, pos + 4)[3]);
}

/// Appends a 16-bit integer, most significant octet first.
pub fn push_u16(out: &mut Vec<u8>, v: u16)
    ensures
        final(out)@ == old(out)@ + u16_wire(v),
{
    out.push((v / 256) as u8);
    out.push((v % 256) as u8);
    assert(out@ == old(out)@ + u16_wire(v));
}

/// Appends a 32-bit integer, most significant octet first.
pub fn push_u32(out: &mut Vec<u8>, v: u32)
    ensures
        final(out)@ == old(out)@ + u32_wire(v),
{
    out.push((v / 16777216) as u8);
    out.push((v / 65536 % 256) as u8);
    out.push((v / 256 % 256) as u8);
    out.push((v % 256) as u8);
    assert(out@ == old(out)@ + u32_wire(v));
}

/// The 16-bit integer at `pos`.
pub fn get_u16(buf: &[u8], pos: usize) -> (v: u16)
    requires
        pos + 2 <= buf.len(),
    ensures
        v == read_u16(buf@, pos as int),
{
    buf[pos] as u16 * 256 + buf[pos + 1] as u16
}

/// The 32-bit integer at `pos`.
pub fn get_u32(buf: &[u8], pos: usize) -> (v: u32)
    requires
        pos + 4 <= buf.len(),
    ensures
        v == read_u32(buf@, pos as int),
{
    buf[pos] as u32 * 16777216 + buf[pos + 1] as u32 * 65536 + buf[pos + 2] as u32 * 256 + buf[pos
        + 3] as u32
}

} // verus!
