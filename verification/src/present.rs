//! The presentation format: names, types, classes and record data as text.

use crate::error::NameError;
use crate::name::{parse_name, DomainName, MAX_NAME_LEN};
use crate::record::{RecordClass, RecordType};
use crate::text::{
    decimal, decimal3, hex, hex2, printable, push_char, push_decimal, push_decimal3, push_hex,
    push_hex2, push_str,
};
use crate::wire::{get_u16, get_u32, read_u16, read_u32};
use vstd::prelude::*;
use vstd::string::*;

verus! {

/// One octet of a label: space, dot and backslash behind a backslash, an
/// octet that does not print as a backslash and three decimal digits, any
/// other as itself.
pub open spec fn label_octet_text(b: u8) -> Seq<char> {
    if b == 32 || b == 46 || b == 92 {
        seq!['\\', b as char]
    } else if !printable(b) {
        seq!['\\'] + decimal3(b)
    } else {
        seq![b as char]
    }
}

/// One octet of a quoted string: double quote and backslash behind a
/// backslash, an octet that does not print as a backslash and three decimal
/// digits, any other as itself.
pub open spec fn quoted_octet_text(b: u8) -> Seq<char> {
    if b == 34 || b == 92 {
        seq!['\\', b as char]
    } else if !printable(b) {
        seq!['\\'] + decimal3(b)
    } else {
        seq![b as char]
    }
}

/// A label as text.
pub open spec fn label_text(label: Seq<u8>) -> Seq<char>
    decreases label.len(),
{
    if label.len() == 0 {
        Seq::empty()
    } else {
        label_text(label.drop_last()) + label_octet_text(label.last())
    }
}

/// The inside of a quoted string as text.
pub open spec fn quoted_text(bytes: Seq<u8>) -> Seq<char>
    decreases bytes.len(),
{
    if bytes.len() == 0 {
        Seq::empty()
    } else {
        quoted_text(bytes.drop_last()) + quoted_octet_text(bytes.last())
    }
}

/// Octets in hexadecimal, two digits an octet, each octet behind `gap`.
pub open spec fn hex_text(bytes: Seq<u8>, gap: Seq<char>) -> Seq<char>
    decreases bytes.len(),
{
    if bytes.len() == 0 {
        Seq::empty()
    } else {
        hex_text(bytes.drop_last(), gap) + gap + hex2(bytes.last())
    }
}

/// Labels as text, a dot behind each.
pub open spec fn labels_text(labels: Seq<Seq<u8>>) -> Seq<char>
    decreases labels.len(),
{
    if labels.len() == 0 {
        Seq::empty()
    } else {
        labels_text(labels.drop_last()) + label_text(labels.last()) + "."@
    }
}

/// A name as text: its labels with a dot behind each; the root name is a
/// single dot.
pub open spec fn name_text(labels: Seq<Seq<u8>>) -> Seq<char> {
    if labels.len() == 0 {
        "."@
    } else {
        labels_text(labels)
    }
}

/// The mnemonic of a record type; `TYPE` and the number for a type without
/// one.
pub open spec fn type_text(t: RecordType) -> Seq<char> {
    match t {
        RecordType::A => "A"@,
        RecordType::Ns => "NS"@,
        RecordType::Cname => "CNAME"@,
        RecordType::Soa => "SOA"@,
        RecordType::Ptr => "PTR"@,
        RecordType::Mx => "MX"@,
        RecordType::Txt => "TXT"@,
        RecordType::Aaaa => "AAAA"@,
        RecordType::Opt => "OPT"@,
        RecordType::Unrecognized(code) => "TYPE"@ + decimal(code as nat),
    }
}

/// The mnemonic of a class; `CLASS` and the number for a class without one.
pub open spec fn class_text(c: RecordClass) -> Seq<char> {
    match c {
        RecordClass::In => "IN"@,
        RecordClass::Ch => "CH"@,
        RecordClass::Hs => "HS"@,
        RecordClass::Unset => "NONE"@,
        RecordClass::Any => "ANY"@,
        RecordClass::Unrecognized(code) => "CLASS"@ + decimal(code as nat),
    }
}

/// Appends a label.
pub fn push_label(out: &mut String, label: &[u8])
    ensures
        final(out)@ == old(out)@ + label_text(label@),
{
    let mut i: usize = 0;
    assert(label@.take(0) == Seq::<u8>::empty());
    while i < label.len()
        invariant
            i <= label.len(),
            out@ == old(out)@ + label_text(label@.take(i as int)),
        decreases label.len() - i,
    {
        let b = label[i];
        let ghost before = out@;
        proof {
            assert(label@.take(i + 1).drop_last() == label@.take(i as int));
            assert(label@.take(i + 1).last() == b);
        }
        if b == 32 || b == 46 || b == 92 {
            push_char(out, '\\');
            push_char(out, b as char);
            assert(out@ == before + label_octet_text(b));
        } else if b < 32 || b >= 127 {
            push_char(out, '\\');
            push_decimal3(out, b);
            assert(out@ == before + label_octet_text(b));
        } else {
            push_char(out, b as char);
            assert(out@ == before + label_octet_text(b));
        }
        i += 1;
    }
    assert(label@.take(label.len() as int) == label@);
}

/// Appends the inside of a quoted string.
pub fn push_quoted(out: &mut String, bytes: &[u8])
    ensures
        final(out)@ == old(out)@ + quoted_text(bytes@),
{
    let mut i: usize = 0;
    assert(bytes@.take(0) == Seq::<u8>::empty());
    while i < bytes.len()
        invariant
            i <= bytes.len(),
            out@ == old(out)@ + quoted_text(bytes@.take(i as int)),
        decreases bytes.len() - i,
    {
        let b = bytes[i];
        let ghost before = out@;
        proof {
            assert(bytes@.take(i + 1).drop_last() == bytes@.take(i as int));
            assert(bytes@.take(i + 1).last() == b);
        }
        if b == 34 || b == 92 {
            push_char(out, '\\');
            push_char(out, b as char);
            assert(out@ == before + quoted_octet_text(b));
        } else if b < 32 || b >= 127 {
            push_char(out, '\\');
            push_decimal3(out, b);
            assert(out@ == before + quoted_octet_text(b));
        } else {
            push_char(out, b as char);
            assert(out@ == before + quoted_octet_text(b));
        }
        i += 1;
    }
    assert(bytes@.take(bytes.len() as int) == bytes@);
}

/// Appends octets in hexadecimal, each behind `gap`.
pub fn push_hex_text(out: &mut String, bytes: &[u8], gap: &str)
    ensures
        final(out)@ == old(out)@ + hex_text(bytes@, gap@),
{
    let mut i: usize = 0;
    assert(bytes@.take(0) == Seq::<u8>::empty());
    while i < bytes.len()
        invariant
            i <= bytes.len(),
            out@ == old(out)@ + hex_text(bytes@.take(i as int), gap@),
        decreases bytes.len() - i,
    {
        let ghost before = out@;
        proof {
            assert(bytes@.take(i + 1).drop_last() == bytes@.take(i as int));
            assert(bytes@.take(i + 1).last() == bytes@[i as int]);
        }
        push_str(out, gap);
        push_hex2(out, bytes[i]);
        assert(out@ == before + gap@ + hex2(bytes@[i as int]));
        i += 1;
    }
    assert(bytes@.take(bytes.len() as int) == bytes@);
}

/// Appends a name.
pub fn push_name(out: &mut String, name: &DomainName)
    ensures
        final(out)@ == old(out)@ + name_text(name@),
{
    let n = name.labels.len();
    if n == 0 {
        push_str(out, ".");
        return ;
    }
    let mut i: usize = 0;
    assert(name@.take(0) == Seq::<Seq<u8>>::empty());
    while i < n
        invariant
            n == name.labels.len(),
            i <= n,
            out@ == old(out)@ + labels_text(name@.take(i as int)),
        decreases n - i,
    {
        let ghost before = out@;
        proof {
            assert(name@.take(i + 1).drop_last() == name@.take(i as int));
            assert(name@.take(i + 1).last() == name.labels@[i as int]@);
        }
        push_label(out, name.labels[i].as_slice());
        push_str(out, ".");
        assert(out@ == before + label_text(name.labels@[i as int]@) + "."@);
        i += 1;
    }
    assert(name@.take(n as int) == name@);
}

/// Appends the mnemonic of a record type.
pub fn push_type(out: &mut String, t: RecordType)
    ensures
        final(out)@ == old(out)@ + type_text(t),
{
    match t {
        RecordType::A => push_str(out, "A"),
        RecordType::Ns => push_str(out, "NS"),
        RecordType::Cname => push_str(out, "CNAME"),
        RecordType::Soa => push_str(out, "SOA"),
        RecordType::Ptr => push_str(out, "PTR"),
        RecordType::Mx => push_str(out, "MX"),
        RecordType::Txt => push_str(out, "TXT"),
        RecordType::Aaaa => push_str(out, "AAAA"),
        RecordType::Opt => push_str(out, "OPT"),
        RecordType::Unrecognized(code) => {
            push_str(out, "TYPE");
            push_decimal(out, code as u64);
            assert(out@ == old(out)@ + ("TYPE"@ + decimal(code as nat)));
        },
    }
}

/// Appends the mnemonic of a class.
pub fn push_class(out: &mut String, c: RecordClass)
    ensures
        final(out)@ == old(out)@ + class_text(c),
{
    match c {
        RecordClass::In => push_str(out, "IN"),
        RecordClass::Ch => push_str(out, "CH"),
        RecordClass::Hs => push_str(out, "HS"),
        RecordClass::Unset => push_str(out, "NONE"),
        RecordClass::Any => push_str(out, "ANY"),
        RecordClass::Unrecognized(code) => {
            push_str(out, "CLASS");
            push_decimal(out, code as u64);
            assert(out@ == old(out)@ + ("CLASS"@ + decimal(code as nat)));
        },
    }
}

/// Reading a name in record data, where no compression pointer is followed.
pub open spec fn plain_name(rdata: Seq<u8>, pos: int) -> Result<(Seq<Seq<u8>>, int), NameError> {
    parse_name(rdata, pos, seq![pos], 0, MAX_NAME_LEN as int)
}

/// Data of a type without a presentation of its own: `\#`, the length, and
/// every octet in hexadecimal.
pub open spec fn opaque_text(rdata: Seq<u8>) -> Seq<char> {
    "\\# "@ + decimal(rdata.len()) + hex_text(rdata, " "@)
}

/// The first `n` octets in decimal, dots between them.
pub open spec fn dotted_text(rdata: Seq<u8>, n: nat) -> Seq<char>
    decreases n,
{
    if n == 0 {
        Seq::empty()
    } else if n == 1 {
        decimal(rdata[0] as nat)
    } else {
        dotted_text(rdata, (n - 1) as nat) + "."@ + decimal(rdata[n - 1] as nat)
    }
}

/// The `n` 32-bit numbers from `pos` on in decimal, a space before each.
pub open spec fn numbers_text(rdata: Seq<u8>, pos: int, n: nat) -> Seq<char>
    decreases n,
{
    if n == 0 {
        Seq::empty()
    } else {
        numbers_text(rdata, pos, (n - 1) as nat) + " "@ + decimal(
            read_u32(rdata, pos + 4 * (n - 1)) as nat,
        )
    }
}

/// An IPv4 address in dotted decimal; nothing unless the data has four
/// octets.
pub open spec fn a_text(rdata: Seq<u8>) -> Option<Seq<char>> {
    if rdata.len() == 4 {
        Some(dotted_text(rdata, 4))
    } else {
        None
    }
}

/// The 16-bit group with the given number, counted from zero.
pub open spec fn group(rdata: Seq<u8>, i: int) -> u16 {
    read_u16(rdata, 2 * i)
}

/// The groups from number `from` up to, not including, number `to` in
/// hexadecimal, colons between them.
pub open spec fn groups_between(rdata: Seq<u8>, from: int, to: int) -> Seq<char>
    decreases to - from,
{
    if to <= from {
        Seq::empty()
    } else if to == from + 1 {
        hex(group(rdata, from) as nat)
    } else {
        groups_between(rdata, from, to - 1) + ":"@ + hex(group(rdata, to - 1) as nat)
    }
}

/// How many of the eight groups, from number `i` on, are zero without a
/// break.
pub open spec fn zero_run(rdata: Seq<u8>, i: int) -> nat
    decreases 8 - i,
{
    if i < 0 || i >= 8 || group(rdata, i) != 0 {
        0
    } else {
        1 + zero_run(rdata, i + 1)
    }
}

/// The longest run of zero groups that starts at group `i` or later, as
/// start and length; of two runs of one length the one further left.
pub open spec fn longest_zero_run(rdata: Seq<u8>, i: int) -> (int, int)
    decreases 8 - i,
{
    if i < 0 || i >= 8 {
        (8, 0)
    } else {
        let later = longest_zero_run(rdata, i + 1);
        if zero_run(rdata, i) > 0 && zero_run(rdata, i) >= later.1 {
            (i, zero_run(rdata, i) as int)
        } else {
            later
        }
    }
}

/// What the longest run is: where any group is zero, it is a run of zero
/// groups that starts at or behind `i`; no run that starts at or behind `i`
/// is longer, and none that starts in front of it is as long.
pub proof fn lemma_longest_zero_run(rdata: Seq<u8>, i: int, j: int)
    requires
        0 <= i <= j < 8,
    ensures
        ({
            let (start, len) = longest_zero_run(rdata, i);
            &&& zero_run(rdata, j) <= len
            &&& j < start ==> zero_run(rdata, j) < len || len == 0
            &&& len > 0 ==> i <= start < 8 && zero_run(rdata, start) == len
            &&& len == 0 ==> start == 8
        }),
    decreases 8 - i,
{
    if i < 7 {
        if j > i {
            lemma_longest_zero_run(rdata, i + 1, j);
        } else {
            lemma_longest_zero_run(rdata, i + 1, i + 1);
        }
    } else {
        assert(longest_zero_run(rdata, i + 1) == (8int, 0int));
    }
}

/// Whether sixteen octets are an IPv4 address mapped into IPv6: five zero
/// groups and one of all ones in front of it.
pub open spec fn ipv4_mapped(rdata: Seq<u8>) -> bool {
    group(rdata, 0) == 0 && group(rdata, 1) == 0 && group(rdata, 2) == 0 && group(rdata, 3) == 0
        && group(rdata, 4) == 0 && group(rdata, 5) == 0xffff
}

/// An IPv6 address as text. A mapped IPv4 address is `::ffff:` and the
/// address in dotted decimal. Any other address is its eight groups in
/// hexadecimal, with the longest run of two or more zero groups, the
/// leftmost of them, shortened to `::`.
pub open spec fn address6_text(rdata: Seq<u8>) -> Seq<char> {
    let (start, len) = longest_zero_run(rdata, 0);
    if ipv4_mapped(rdata) {
        "::ffff:"@ + dotted_text(rdata.subrange(12, 16), 4)
    } else if len < 2 {
        groups_between(rdata, 0, 8)
    } else {
        groups_between(rdata, 0, start) + "::"@ + groups_between(rdata, start + len, 8)
    }
}

/// An IPv6 address as text; nothing unless the data has sixteen octets.
pub open spec fn aaaa_text(rdata: Seq<u8>) -> Option<Seq<char>> {
    if rdata.len() == 16 {
        Some(address6_text(rdata))
    } else {
        None
    }
}

/// The name that makes up the data of an NS, CNAME or PTR record; nothing
/// unless the data is one name spelled out.
pub open spec fn target_text(rdata: Seq<u8>) -> Option<Seq<char>> {
    match plain_name(rdata, 0) {
        Ok((labels, used)) => if used == rdata.len() {
            Some(name_text(labels))
        } else {
            None
        },
        Err(_) => None,
    }
}

/// Preference and exchange of an MX record; nothing unless the data is a
/// 16-bit number and one name spelled out.
pub open spec fn mx_text(rdata: Seq<u8>) -> Option<Seq<char>> {
    if rdata.len() < 2 {
        None
    } else {
        match plain_name(rdata, 2) {
            Ok((labels, used)) => if 2 + used == rdata.len() {
                Some(decimal(read_u16(rdata, 0) as nat) + " "@ + name_text(labels))
            } else {
                None
            },
            Err(_) => None,
        }
    }
}

/// The fields of an SOA record: primary server, mailbox, then serial,
/// refresh, retry, expire and minimum; nothing unless the data is two names
/// spelled out and five 32-bit numbers.
pub open spec fn soa_text(rdata: Seq<u8>) -> Option<Seq<char>> {
    match plain_name(rdata, 0) {
        Err(_) => None,
        Ok((mname, first)) => match plain_name(rdata, first) {
            Err(_) => None,
            Ok((rname, second)) => if first + second + 20 == rdata.len() {
                Some(
                    name_text(mname) + " "@ + name_text(rname) + numbers_text(
                        rdata,
                        first + second,
                        5,
                    ),
                )
            } else {
                None
            },
        },
    }
}

/// The character strings from `pos` to the end of the data, each in double
/// quotes, a space between one and the next; nothing if a string runs past
/// the end.
pub open spec fn strings_text(rdata: Seq<u8>, pos: int) -> Option<Seq<char>>
    decreases rdata.len() - pos,
{
    if pos < 0 || pos >= rdata.len() {
        Some(Seq::empty())
    } else if pos + 1 + rdata[pos] > rdata.len() {
        None
    } else {
        match strings_text(rdata, pos + 1 + rdata[pos]) {
            None => None,
            Some(rest) => Some(
                (if pos == 0 {
                    Seq::empty()
                } else {
                    " "@
                }) + "\""@ + quoted_text(rdata.subrange(pos + 1, pos + 1 + rdata[pos])) + "\""@
                    + rest,
            ),
        }
    }
}

/// The strings of a TXT record; nothing unless the data is one string or
/// more.
pub open spec fn txt_text(rdata: Seq<u8>) -> Option<Seq<char>> {
    if rdata.len() == 0 {
        None
    } else {
        strings_text(rdata, 0)
    }
}

/// The presentation that the type gives the data, if the type has one and
/// the data has its shape.
pub open spec fn known_text(rtype: RecordType, rdata: Seq<u8>) -> Option<Seq<char>> {
    match rtype {
        RecordType::A => a_text(rdata),
        RecordType::Aaaa => aaaa_text(rdata),
        RecordType::Ns => target_text(rdata),
        RecordType::Cname => target_text(rdata),
        RecordType::Ptr => target_text(rdata),
        RecordType::Mx => mx_text(rdata),
        RecordType::Soa => soa_text(rdata),
        RecordType::Txt => txt_text(rdata),
        RecordType::Opt => None,
        RecordType::Unrecognized(_) => None,
    }
}

/// Record data as text: by type where the type is known and the data has
/// its shape, as opaque octets otherwise.
pub open spec fn rdata_text(rtype: RecordType, rdata: Seq<u8>) -> Seq<char> {
    match known_text(rtype, rdata) {
        Some(text) => text,
        None => opaque_text(rdata),
    }
}

/// Where the data of an NS, CNAME or PTR record in a message is one name,
/// compressed or not, the decoded record is presented as that name.
pub proof fn lemma_decoded_target_text(buf: Seq<u8>, rtype: RecordType, start: int, len: int)
    requires
        rtype == RecordType::Ns || rtype == RecordType::Cname || rtype == RecordType::Ptr,
        crate::name::decode_name(buf, start) is Ok,
        crate::name::decode_name(buf, start)->Ok_0.1 == len,
    ensures
        rdata_text(rtype, crate::record::settled_rdata(buf, rtype, start, len)) == name_text(
            crate::name::decode_name(buf, start)->Ok_0.0,
        ),
{
    let labels = crate::name::decode_name(buf, start)->Ok_0.0;
    let wire = crate::name::name_wire(labels);
    crate::name::lemma_decode_name_ok(buf, start);
    assert(wire.subrange(0, wire.len() as int) == wire);
    crate::name::lemma_parse_spelled_out(wire, 0, labels, seq![0int], 0, MAX_NAME_LEN as int);
    assert(crate::record::settled_rdata(buf, rtype, start, len) == wire);
    assert(target_text(wire) == Some(name_text(labels)));
}

/// Where the data of an MX record in a message is a preference and one
/// name, compressed or not, the decoded record is presented as the
/// preference and that name.
pub proof fn lemma_decoded_mx_text(buf: Seq<u8>, start: int, len: int)
    requires
        0 <= start,
        start + 2 <= buf.len(),
        crate::name::decode_name(buf, start + 2) is Ok,
        2 + crate::name::decode_name(buf, start + 2)->Ok_0.1 == len,
    ensures
        rdata_text(RecordType::Mx, crate::record::settled_rdata(buf, RecordType::Mx, start, len))
            == decimal(read_u16(buf, start) as nat) + " "@ + name_text(
            crate::name::decode_name(buf, start + 2)->Ok_0.0,
        ),
{
    let labels = crate::name::decode_name(buf, start + 2)->Ok_0.0;
    let wire = crate::name::name_wire(labels);
    let settled = buf.subrange(start, start + 2) + wire;
    crate::name::lemma_decode_name_ok(buf, start + 2);
    assert(crate::record::settled_rdata(buf, RecordType::Mx, start, len) == settled);
    assert(settled.subrange(2, 2 + wire.len() as int) == wire);
    crate::name::lemma_parse_spelled_out(settled, 2, labels, seq![2int], 0, MAX_NAME_LEN as int);
    assert(read_u16(settled, 0) == read_u16(buf, start));
    assert(mx_text(settled) == Some(
        decimal(read_u16(buf, start) as nat) + " "@ + name_text(labels),
    ));
}

/// The text of a run of 32-bit numbers depends on their octets alone.
pub proof fn lemma_numbers_text_moved(a: Seq<u8>, at: int, b: Seq<u8>, bt: int, n: nat)
    requires
        0 <= at,
        at + 4 * n <= a.len(),
        0 <= bt,
        bt + 4 * n <= b.len(),
        a.subrange(at, at + 4 * n) == b.subrange(bt, bt + 4 * n),
    ensures
        numbers_text(a, at, n) == numbers_text(b, bt, n),
    decreases n,
{
    if n > 0 {
        let m = (n - 1) as nat;
        let last = 4 * (n - 1);
        let sa = a.subrange(at, at + 4 * n);
        let sb = b.subrange(bt, bt + 4 * n);
        assert(a.subrange(at, at + last) == sa.subrange(0, last));
        assert(b.subrange(bt, bt + last) == sb.subrange(0, last));
        lemma_numbers_text_moved(a, at, b, bt, m);
        assert(a[at + last] == sa[last] && b[bt + last] == sb[last]);
        assert(a[at + last + 1] == sa[last + 1] && b[bt + last + 1] == sb[last + 1]);
        assert(a[at + last + 2] == sa[last + 2] && b[bt + last + 2] == sb[last + 2]);
        assert(a[at + last + 3] == sa[last + 3] && b[bt + last + 3] == sb[last + 3]);
        assert(read_u32(a, at + 4 * m) == read_u32(b, bt + 4 * m));
    }
}

/// Where the data of an SOA record in a message is two names, compressed or
/// not, and five numbers, the decoded record is presented as those names and
/// numbers.
pub proof fn lemma_decoded_soa_text(buf: Seq<u8>, start: int, len: int)
    requires
        crate::name::decode_name(buf, start) is Ok,
        crate::name::decode_name(buf, start + crate::name::decode_name(buf, start)->Ok_0.1) is Ok,
        crate::name::decode_name(buf, start)->Ok_0.1 + crate::name::decode_name(
            buf,
            start + crate::name::decode_name(buf, start)->Ok_0.1,
        )->Ok_0.1 + 20 == len,
        start + len <= buf.len(),
    ensures
        ({
            let (mname, first) = crate::name::decode_name(buf, start)->Ok_0;
            let (rname, second) = crate::name::decode_name(buf, start + first)->Ok_0;
            rdata_text(
                RecordType::Soa,
                crate::record::settled_rdata(buf, RecordType::Soa, start, len),
            ) == name_text(mname) + " "@ + name_text(rname) + numbers_text(
                buf,
                start + first + second,
                5,
            )
        }),
{
    let (mname, first) = crate::name::decode_name(buf, start)->Ok_0;
    let (rname, second) = crate::name::decode_name(buf, start + first)->Ok_0;
    let m = crate::name::name_wire(mname);
    let r = crate::name::name_wire(rname);
    let numbers = buf.subrange(start + first + second, start + len);
    let settled = m + r + numbers;
    crate::name::lemma_decode_name_ok(buf, start);
    crate::name::lemma_decode_name_ok(buf, start + first);
    assert(crate::record::settled_rdata(buf, RecordType::Soa, start, len) == settled);
    assert(settled.subrange(0, m.len() as int) == m);
    assert(settled.subrange(m.len() as int, m.len() as int + r.len()) == r);
    crate::name::lemma_parse_spelled_out(settled, 0, mname, seq![0int], 0, MAX_NAME_LEN as int);
    crate::name::lemma_parse_spelled_out(
        settled,
        m.len() as int,
        rname,
        seq![m.len() as int],
        0,
        MAX_NAME_LEN as int,
    );
    let at = m.len() as int + r.len();
    assert(settled.subrange(at, at + 20) == buf.subrange(
        start + first + second,
        start + first + second + 20,
    ));
    lemma_numbers_text_moved(settled, at, buf, start + first + second, 5);
    assert(soa_text(settled) == Some(
        name_text(mname) + " "@ + name_text(rname) + numbers_text(settled, at, 5),
    ));
}

/// The text that an optional string holds.
pub open spec fn text_view(s: Option<String>) -> Option<Seq<char>> {
    match s {
        Some(s) => Some(s@),
        None => None,
    }
}

/// The strings done so far, in front of what the rest gives.
pub open spec fn resume_text(done: Seq<char>, rest: Option<Seq<char>>) -> Option<Seq<char>> {
    match rest {
        Some(more) => Some(done + more),
        None => None,
    }
}

fn a_string(rdata: &[u8]) -> (r: Option<String>)
    ensures
        text_view(r) == a_text(rdata@),
{
    if rdata.len() != 4 {
        return None;
    }
    let mut out = String::new();
    let mut i: usize = 0;
    while i < 4
        invariant
            rdata.len() == 4,
            i <= 4,
            out@ == dotted_text(rdata@, i as nat),
        decreases 4 - i,
    {
        let ghost before = out@;
        if i > 0 {
            push_str(&mut out, ".");
        }
        push_decimal(&mut out, rdata[i] as u64);
        assert(out@ == dotted_text(rdata@, (i + 1) as nat)) by {
            if i == 0 {
                assert(before + decimal(rdata@[0] as nat) == decimal(rdata@[0] as nat));
            }
        }
        i += 1;
    }
    Some(out)
}

/// Appends the groups from number `from` up to, not including, number `to`.
fn push_groups(out: &mut String, rdata: &[u8], from: usize, to: usize)
    requires
        rdata.len() == 16,
        from <= 8,
        to <= 8,
    ensures
        final(out)@ == old(out)@ + groups_between(rdata@, from as int, to as int),
{
    let mut i: usize = from;
    assert(old(out)@ + Seq::<char>::empty() == old(out)@);
    while i < to
        invariant
            rdata.len() == 16,
            from <= i,
            i <= to || to <= from,
            to <= from ==> i == from,
            to <= 8,
            out@ == old(out)@ + groups_between(rdata@, from as int, i as int),
        decreases to - i,
    {
        let ghost before = out@;
        if i > from {
            push_str(out, ":");
        }
        let value = get_u16(rdata, 2 * i);
        push_hex(out, value as u32);
        assert(out@ == old(out)@ + groups_between(rdata@, from as int, i + 1)) by {
            if i == from {
                assert(before == old(out)@);
            }
        }
        i += 1;
    }
    assert(groups_between(rdata@, from as int, to as int) == groups_between(
        rdata@,
        from as int,
        i as int,
    ));
}

/// The longest run of zero groups, as start and length.
fn find_zero_run(rdata: &[u8]) -> (found: (usize, usize))
    requires
        rdata.len() == 16,
    ensures
        (found.0 as int, found.1 as int) == longest_zero_run(rdata@, 0),
        found.0 + found.1 <= 8,
{
    let mut i: usize = 8;
    let mut run: usize = 0;
    let mut best: (usize, usize) = (8, 0);
    while i > 0
        invariant
            rdata.len() == 16,
            i <= 8,
            run == zero_run(rdata@, i as int),
            (best.0 as int, best.1 as int) == longest_zero_run(rdata@, i as int),
            run <= 8 - i,
            best.0 + best.1 <= 8,
        decreases i,
    {
        i -= 1;
        if get_u16(rdata, 2 * i) == 0 {
            run += 1;
        } else {
            run = 0;
        }
        if run > 0 && run >= best.1 {
            best = (i, run);
        }
    }
    best
}

fn aaaa_string(rdata: &[u8]) -> (r: Option<String>)
    ensures
        text_view(r) == aaaa_text(rdata@),
{
    if rdata.len() != 16 {
        return None;
    }
    let mut out = String::new();
    let (start, len) = find_zero_run(rdata);
    if get_u16(rdata, 0) == 0 && get_u16(rdata, 2) == 0 && get_u16(rdata, 4) == 0 && get_u16(
        rdata,
        6,
    ) == 0 && get_u16(rdata, 8) == 0 && get_u16(rdata, 10) == 0xffff {
        push_str(&mut out, "::ffff:");
        let tail = crate::name::copy_range(rdata, 12, 16);
        let address = a_string(tail.as_slice());
        match address {
            Some(text) => {
                push_str(&mut out, text.as_str());
            },
            None => {},
        }
        assert(out@ == "::ffff:"@ + dotted_text(rdata@.subrange(12, 16), 4)) by {
            assert(Seq::<char>::empty() + "::ffff:"@ == "::ffff:"@);
        }
    } else if len < 2 {
        push_groups(&mut out, rdata, 0, 8);
        assert(out@ == groups_between(rdata@, 0, 8)) by {
            assert(Seq::<char>::empty() + groups_between(rdata@, 0, 8) == groups_between(
                rdata@,
                0,
                8,
            ));
        }
    } else {
        push_groups(&mut out, rdata, 0, start);
        push_str(&mut out, "::");
        push_groups(&mut out, rdata, start + len, 8);
        assert(out@ == groups_between(rdata@, 0, start as int) + "::"@ + groups_between(
            rdata@,
            start + len,
            8,
        )) by {
            assert(Seq::<char>::empty() + groups_between(rdata@, 0, start as int)
                == groups_between(rdata@, 0, start as int));
        }
    }
    Some(out)
}

fn target_string(rdata: &[u8]) -> (r: Option<String>)
    ensures
        text_view(r) == target_text(rdata@),
{
    match DomainName::decode_within(rdata, 0, 0) {
        Err(_) => None,
        Ok((name, used)) => {
            if used != rdata.len() {
                return None;
            }
            let mut out = String::new();
            push_name(&mut out, &name);
            assert(out@ == name_text(name@)) by {
                assert(Seq::<char>::empty() + name_text(name@) == name_text(name@));
            }
            Some(out)
        },
    }
}

fn mx_string(rdata: &[u8]) -> (r: Option<String>)
    ensures
        text_view(r) == mx_text(rdata@),
{
    if rdata.len() < 2 {
        return None;
    }
    match DomainName::decode_within(rdata, 2, 0) {
        Err(_) => None,
        Ok((name, used)) => {
            if 2 + used != rdata.len() {
                return None;
            }
            let mut out = String::new();
            let preference = get_u16(rdata, 0);
            push_decimal(&mut out, preference as u64);
            push_str(&mut out, " ");
            push_name(&mut out, &name);
            assert(out@ == decimal(preference as nat) + " "@ + name_text(name@)) by {
                assert(Seq::<char>::empty() + decimal(preference as nat) == decimal(
                    preference as nat,
                ));
            }
            Some(out)
        },
    }
}

fn soa_string(rdata: &[u8]) -> (r: Option<String>)
    ensures
        text_view(r) == soa_text(rdata@),
{
    let (mname, first) = match DomainName::decode_within(rdata, 0, 0) {
        Err(_) => {
            return None;
        },
        Ok(found) => found,
    };
    let (rname, second) = match DomainName::decode_within(rdata, first, 0) {
        Err(_) => {
            return None;
        },
        Ok(found) => found,
    };
    let fixed = first + second;
    if rdata.len() - fixed != 20 {
        return None;
    }
    let mut out = String::new();
    push_name(&mut out, &mname);
    push_str(&mut out, " ");
    push_name(&mut out, &rname);
    let ghost names = name_text(mname@) + " "@ + name_text(rname@);
    assert(out@ == names) by {
        assert(Seq::<char>::empty() + name_text(mname@) == name_text(mname@));
    }
    let mut i: usize = 0;
    assert(names + Seq::<char>::empty() == names);
    while i < 5
        invariant
            fixed + 20 == rdata.len(),
            i <= 5,
            out@ == names + numbers_text(rdata@, fixed as int, i as nat),
        decreases 5 - i,
    {
        let ghost before = out@;
        push_str(&mut out, " ");
        let number = get_u32(rdata, fixed + 4 * i);
        push_decimal(&mut out, number as u64);
        assert(out@ == names + numbers_text(rdata@, fixed as int, (i + 1) as nat)) by {
            assert(out@ == before + " "@ + decimal(number as nat));
        }
        i += 1;
    }
    Some(out)
}

fn txt_string(rdata: &[u8]) -> (r: Option<String>)
    ensures
        text_view(r) == txt_text(rdata@),
{
    if rdata.len() == 0 {
        return None;
    }
    let ghost whole = strings_text(rdata@, 0);
    let mut out = String::new();
    let mut pos: usize = 0;
    while pos < rdata.len()
        invariant
            pos <= rdata.len(),
            whole == strings_text(rdata@, 0),
            whole == resume_text(out@, strings_text(rdata@, pos as int)),
        decreases rdata.len() - pos,
    {
        let len = rdata[pos] as usize;
        if rdata.len() - pos - 1 < len {
            return None;
        }
        let ghost before = out@;
        let ghost piece = rdata@.subrange(pos + 1, pos + 1 + len);
        if pos > 0 {
            push_str(&mut out, " ");
        }
        push_str(&mut out, "\"");
        let string = crate::name::copy_range(rdata, pos + 1, pos + 1 + len);
        push_quoted(&mut out, string.as_slice());
        push_str(&mut out, "\"");
        proof {
            let gap = if pos == 0 {
                Seq::<char>::empty()
            } else {
                " "@
            };
            assert(out@ == before + gap + "\""@ + quoted_text(piece) + "\""@) by {
                assert(before + Seq::<char>::empty() == before);
            }
            let rest = strings_text(rdata@, pos + 1 + len);
            if rest is Some {
                assert(out@ + rest->Some_0 == before + (gap + "\""@ + quoted_text(piece) + "\""@
                    + rest->Some_0));
            }
        }
        pos = pos + 1 + len;
    }
    assert(out@ + Seq::<char>::empty() == out@);
    Some(out)
}

/// Appends record data as opaque octets.
pub fn push_opaque(out: &mut String, rdata: &[u8])
    ensures
        final(out)@ == old(out)@ + opaque_text(rdata@),
{
    push_str(out, "\\# ");
    push_decimal(out, rdata.len() as u64);
    push_hex_text(out, rdata, " ");
    assert(out@ == old(out)@ + ("\\# "@ + decimal(rdata@.len()) + hex_text(rdata@, " "@)));
}

/// Presents record data: a function of the type and the data alone. The
/// types with a presentation of their own are A, AAAA, NS, CNAME, PTR, MX,
/// SOA and TXT; data of any other type, and data that has not the shape of
/// its type, is presented as opaque octets. It never fails.
pub fn present_rdata(rtype: RecordType, rdata: &[u8]) -> (text: String)
    ensures
        text@ == rdata_text(rtype, rdata@),
{
    let known = match rtype {
        RecordType::A => a_string(rdata),
        RecordType::Aaaa => aaaa_string(rdata),
        RecordType::Ns => target_string(rdata),
        RecordType::Cname => target_string(rdata),
        RecordType::Ptr => target_string(rdata),
        RecordType::Mx => mx_string(rdata),
        RecordType::Soa => soa_string(rdata),
        RecordType::Txt => txt_string(rdata),
        RecordType::Opt => None,
        RecordType::Unrecognized(_) => None,
    };
    match known {
        Some(text) => text,
        None => {
            let mut out = String::new();
            push_opaque(&mut out, rdata);
            assert(out@ == opaque_text(rdata@)) by {
                assert(Seq::<char>::empty() + opaque_text(rdata@) == opaque_text(rdata@));
            }
            out
        },
    }
}

} // verus!
