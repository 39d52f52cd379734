//! Domain names and their wire form: a sequence of length-prefixed labels
//! closed by the zero-length root label, with decompression of pointers on
//! decoding.

use crate::error::NameError;
use vstd::prelude::*;

verus! {

/// The longest label, in octets.
pub const MAX_LABEL_LEN: usize = 63;

/// The longest encoded name, in octets, root label included.
pub const MAX_NAME_LEN: usize = 255;

/// The largest number of compression pointers followed while decoding one name.
pub const MAX_POINTER_HOPS: usize = 16;

/// An absolute domain name: its labels in order, without the root label that
/// closes every name on the wire. Case is preserved.
#[derive(Clone, Debug, PartialEq, Eq)]
pub struct DomainName {
    pub labels: Vec<Vec<u8>>,
}

impl View for DomainName {
    type V = Seq<Seq<u8>>;

    open spec fn view(&self) -> Seq<Seq<u8>> {
        Seq::new(self.labels@.len(), |i: int| self.labels@[i]@)
    }
}

/// The wire form of a run of labels: each label behind its length octet.
pub open spec fn labels_wire(labels: Seq<Seq<u8>>) -> Seq<u8>
    decreases labels.len(),
{
    if labels.len() == 0 {
        Seq::empty()
    } else {
        seq![labels[0].len() as u8] + labels[0] + labels_wire(labels.drop_first())
    }
}

/// The wire form of a name: its labels, then the root label.
pub open spec fn name_wire(labels: Seq<Seq<u8>>) -> Seq<u8> {
    labels_wire(labels).push(0u8)
}

/// Whether some label has more than 63 octets.
pub open spec fn has_long_label(labels: Seq<Seq<u8>>) -> bool {
    exists|i: int| 0 <= i < labels.len() && (#[trigger] labels[i]).len() > MAX_LABEL_LEN
}

/// Whether some label is empty.
pub open spec fn has_empty_label(labels: Seq<Seq<u8>>) -> bool {
    exists|i: int| 0 <= i < labels.len() && (#[trigger] labels[i]).len() == 0
}

/// What keeps a run of labels from being a name, if anything does. An
/// over-long label is reported before an empty one, and either before an
/// over-long name.
pub open spec fn name_defect(labels: Seq<Seq<u8>>) -> Option<NameError> {
    if has_long_label(labels) {
        Some(NameError::LabelTooLong)
    } else if has_empty_label(labels) {
        Some(NameError::EmptyLabel)
    } else if name_wire(labels).len() > MAX_NAME_LEN {
        Some(NameError::NameTooLong)
    } else {
        None
    }
}

/// A valid name: every label has 1 to 63 octets and the wire form has at
/// most 255.
pub open spec fn valid_name(labels: Seq<Seq<u8>>) -> bool {
    name_defect(labels) is None
}

/// Reading a name at `pos` of `buf`. `visited` holds the offsets at which
/// reading started or resumed after a pointer, `hops` the number of pointers
/// that may still be followed, and `budget` the octets the rest of the name,
/// root label included, may still take on the wire. The result is the labels
/// from `pos` on and the number of octets the name occupies at `pos`: up to
/// and including the root label or the first pointer.
pub open spec fn parse_name(buf: Seq<u8>, pos: int, visited: Seq<int>, hops: nat, budget: int)
    -> Result<(Seq<Seq<u8>>, int), NameError>
    decreases hops, buf.len() - pos,
{
    if pos < 0 || pos >= buf.len() {
        Err(NameError::TruncatedName)
    } else if buf[pos] == 0 {
        Ok((Seq::empty(), 1))
    } else if buf[pos] >= 192 {
        if pos + 1 >= buf.len() {
            Err(NameError::TruncatedName)
        } else {
            let target = (buf[pos] - 192) * 256 + buf[pos + 1];
            if hops == 0 || visited.contains(target) {
                Err(NameError::CompressionLoop)
            } else {
                match parse_name(buf, target, visited.push(target), (hops - 1) as nat, budget) {
                    Ok((labels, _)) => Ok((labels, 2)),
                    Err(e) => Err(e),
                }
            }
        }
    } else if buf[pos] > MAX_LABEL_LEN {
        Err(NameError::LabelTooLong)
    } else if pos + 1 + buf[pos] > buf.len() {
        Err(NameError::TruncatedName)
    } else if budget < buf[pos] + 2 {
        Err(NameError::NameTooLong)
    } else {
        match parse_name(buf, pos + 1 + buf[pos], visited, hops, budget - 1 - buf[pos]) {
            Ok((labels, used)) => Ok(
                (seq![buf.subrange(pos + 1, pos + 1 + buf[pos])] + labels, 1 + buf[pos] + used),
            ),
            Err(e) => Err(e),
        }
    }
}

/// Decoding the name that starts at `start` of `buf`: the labels, and the
/// number of octets the name takes up at `start`.
pub open spec fn decode_name(buf: Seq<u8>, start: int) -> Result<(Seq<Seq<u8>>, int), NameError> {
    parse_name(buf, start, seq![start], MAX_POINTER_HOPS as nat, MAX_NAME_LEN as int)
}

/// The labels read so far, put in front of what reading the rest gives.
pub open spec fn resume_name(
    done: Seq<Seq<u8>>,
    used: int,
    jumped: bool,
    rest: Result<(Seq<Seq<u8>>, int), NameError>,
) -> Result<(Seq<Seq<u8>>, int), NameError> {
    match rest {
        Ok((labels, more)) => Ok((done + labels, if jumped { used } else { used + more })),
        Err(e) => Err(e),
    }
}

/// Labels written one run behind the other are the two runs' wire forms,
/// one behind the other.
pub proof fn lemma_labels_wire_concat(a: Seq<Seq<u8>>, b: Seq<Seq<u8>>)
    ensures
        labels_wire(a + b) == labels_wire(a) + labels_wire(b),
    decreases a.len(),
{
    if a.len() == 0 {
        assert(a + b == b);
        assert(labels_wire(a) + labels_wire(b) == labels_wire(b));
    } else {
        lemma_labels_wire_concat(a.drop_first(), b);
        assert((a + b).drop_first() == a.drop_first() + b);
        assert((a + b)[0] == a[0]);
        assert(labels_wire(a + b) == seq![a[0].len() as u8] + a[0] + (labels_wire(a.drop_first())
            + labels_wire(b)));
        assert(labels_wire(a + b) == labels_wire(a) + labels_wire(b));
    }
}

/// One label on the wire is its length octet and its octets.
pub proof fn lemma_labels_wire_one(label: Seq<u8>)
    ensures
        labels_wire(seq![label]) == seq![label.len() as u8] + label,
{
    let s = seq![label];
    assert(s.drop_first() == Seq::<Seq<u8>>::empty());
    assert(labels_wire(s.drop_first()) == Seq::<u8>::empty());
    assert(labels_wire(s) == seq![label.len() as u8] + label + Seq::<u8>::empty());
}

/// The wire form grows with every label taken.
pub proof fn lemma_labels_wire_take(labels: Seq<Seq<u8>>, i: int)
    requires
        0 <= i < labels.len(),
    ensures
        labels_wire(labels.take(i + 1)) == labels_wire(labels.take(i)) + seq![
            labels[i].len() as u8,
        ] + labels[i],
        labels_wire(labels.take(i + 1)).len() <= labels_wire(labels).len(),
{
    assert(labels.take(i + 1) == labels.take(i) + seq![labels[i]]);
    lemma_labels_wire_concat(labels.take(i), seq![labels[i]]);
    lemma_labels_wire_one(labels[i]);
    assert(labels == labels.take(i + 1) + labels.skip(i + 1));
    lemma_labels_wire_concat(labels.take(i + 1), labels.skip(i + 1));
}

impl DomainName {
    /// The root name, which has no labels.
    pub fn root() -> (name: DomainName)
        ensures
            name@ == Seq::<Seq<u8>>::empty(),
    {
        let name = DomainName { labels: Vec::new() };
        assert(name@ == Seq::<Seq<u8>>::empty());
        name
    }

    /// The name with the given labels, taken as they are.
    pub fn from_labels(labels: Vec<Vec<u8>>) -> (name: DomainName)
        ensures
            name.labels == labels,
    {
        DomainName { labels }
    }

    /// Encodes the name without compression. Fails exactly when the name has
    /// a defect, and with that defect.
    pub fn encode(&self) -> (r: Result<Vec<u8>, NameError>)
        ensures
            match r {
                Ok(bytes) => valid_name(self@) && bytes@ == name_wire(self@),
                Err(e) => name_defect(self@) == Some(e),
            },
    {
        let n = self.labels.len();
        let mut i: usize = 0;
        while i < n
            invariant
                n == self.labels.len(),
                i <= n,
                forall|j: int| 0 <= j < i ==> (#[trigger] self@[j]).len() <= MAX_LABEL_LEN,
            decreases n - i,
        {
            if self.labels[i].len() > MAX_LABEL_LEN {
                assert(self@[i as int].len() > MAX_LABEL_LEN);
                return Err(NameError::LabelTooLong);
            }
            i += 1;
        }
        i = 0;
        while i < n
            invariant
                n == self.labels.len(),
                i <= n,
                !has_long_label(self@),
                forall|j: int| 0 <= j < i ==> (#[trigger] self@[j]).len() != 0,
            decreases n - i,
        {
            if self.labels[i].len() == 0 {
                assert(self@[i as int].len() == 0);
                return Err(NameError::EmptyLabel);
            }
            i += 1;
        }
        let mut out: Vec<u8> = Vec::new();
        i = 0;
        assert(self@.take(0) == Seq::<Seq<u8>>::empty());
        while i < n
            invariant
                n == self.labels.len(),
                i <= n,
                !has_long_label(self@),
                !has_empty_label(self@),
                out@ == labels_wire(self@.take(i as int)),
                out.len() < MAX_NAME_LEN,
            decreases n - i,
        {
            let label = &self.labels[i];
            assert(label@ == self@[i as int]);
            assert(label.len() <= MAX_LABEL_LEN);
            proof {
                lemma_labels_wire_take(self@, i as int);
            }
            if out.len() + 1 + label.len() >= MAX_NAME_LEN {
                return Err(NameError::NameTooLong);
            }
            out.push(label.len() as u8);
            out.extend_from_slice(label.as_slice());
            i += 1;
        }
        assert(self@.take(n as int) == self@);
        out.push(0u8);
        Ok(out)
    }
}

/// What a successful reading guarantees: the name is valid and fits the
/// budget, and the octets it takes up at `pos` lie inside the buffer.
pub proof fn lemma_parse_name_ok(buf: Seq<u8>, pos: int, visited: Seq<int>, hops: nat, budget: int)
    requires
        parse_name(buf, pos, visited, hops, budget) is Ok,
    ensures
        ({
            let (labels, used) = parse_name(buf, pos, visited, hops, budget)->Ok_0;
            &&& 0 <= pos
            &&& 1 <= used
            &&& pos + used <= buf.len()
            &&& !has_long_label(labels)
            &&& !has_empty_label(labels)
            &&& name_wire(labels).len() <= budget || labels.len() == 0
            &&& 1 <= budget <= MAX_NAME_LEN ==> valid_name(labels)
        }),
    decreases hops, buf.len() - pos,
{
    let (labels, used) = parse_name(buf, pos, visited, hops, budget)->Ok_0;
    if buf[pos] == 0 {
        assert(labels == Seq::<Seq<u8>>::empty());
        assert(labels_wire(labels) == Seq::<u8>::empty());
    } else if buf[pos] >= 192 {
        let target = (buf[pos] - 192) * 256 + buf[pos + 1];
        lemma_parse_name_ok(buf, target, visited.push(target), (hops - 1) as nat, budget);
    } else {
        let len = buf[pos] as int;
        let next = pos + 1 + len;
        lemma_parse_name_ok(buf, next, visited, hops, budget - 1 - len);
        let (rest, more) = parse_name(buf, next, visited, hops, budget - 1 - len)->Ok_0;
        let first = buf.subrange(pos + 1, next);
        assert(labels == seq![first] + rest);
        assert(labels.drop_first() == rest);
        assert(name_wire(labels).len() == 1 + len + name_wire(rest).len());
        assert(rest.len() == 0 ==> name_wire(rest).len() == 1);
        assert(!has_long_label(labels)) by {
            if has_long_label(labels) {
                let j = choose|j: int|
                    0 <= j < labels.len() && (#[trigger] labels[j]).len() > MAX_LABEL_LEN;
                if j > 0 {
                    assert(rest[j - 1] == labels[j]);
                }
            }
        }
        assert(!has_empty_label(labels)) by {
            if has_empty_label(labels) {
                let j = choose|j: int| 0 <= j < labels.len() && (#[trigger] labels[j]).len() == 0;
                if j > 0 {
                    assert(rest[j - 1] == labels[j]);
                }
            }
        }
    }
}

/// A decoded name is valid, and the octets it takes up lie inside the
/// buffer.
pub proof fn lemma_decode_name_ok(buf: Seq<u8>, start: int)
    requires
        decode_name(buf, start) is Ok,
    ensures
        valid_name(decode_name(buf, start)->Ok_0.0),
        0 <= start,
        1 <= decode_name(buf, start)->Ok_0.1,
        start + decode_name(buf, start)->Ok_0.1 <= buf.len(),
{
    lemma_parse_name_ok(buf, start, seq![start], MAX_POINTER_HOPS as nat, MAX_NAME_LEN as int);
}

/// Whether `target` is among the offsets already visited.
fn seen(visited: &Vec<usize>, target: usize) -> (found: bool)
    ensures
        found == visited@.contains(target),
{
    let mut i: usize = 0;
    while i < visited.len()
        invariant
            i <= visited.len(),
            forall|j: int| 0 <= j < i ==> visited@[j] != target,
        decreases visited.len() - i,
    {
        if visited[i] == target {
            return true;
        }
        i += 1;
    }
    false
}

/// A copy of `buf[from..to]`.
pub fn copy_range(buf: &[u8], from: usize, to: usize) -> (out: Vec<u8>)
    requires
        from <= to <= buf.len(),
    ensures
        out@ == buf@.subrange(from as int, to as int),
{
    let mut out: Vec<u8> = Vec::new();
    let mut i: usize = from;
    while i < to
        invariant
            from <= i <= to <= buf.len(),
            out@ == buf@.subrange(from as int, i as int),
        decreases to - i,
    {
        out.push(buf[i]);
        i += 1;
    }
    out
}

impl DomainName {
    /// Decodes the name that starts at `start` of `buf`, following
    /// compression pointers. Returns the name and the number of octets it
    /// takes up at `start`.
    pub fn decode(buf: &[u8], start: usize) -> (r: Result<(DomainName, usize), NameError>)
        ensures
            match r {
                Ok((name, used)) => {
                    &&& decode_name(buf@, start as int) == Ok::<_, NameError>((name@, used as int))
                    &&& valid_name(name@)
                    &&& 1 <= used
                    &&& start + used <= buf.len()
                },
                Err(e) => decode_name(buf@, start as int) == Err::<(Seq<Seq<u8>>, int), _>(e),
            },
    {
        Self::decode_within(buf, start, MAX_POINTER_HOPS)
    }

    /// Decodes like [`DomainName::decode`], following at most `max_hops`
    /// compression pointers.
    pub fn decode_within(buf: &[u8], start: usize, max_hops: usize) -> (r: Result<
        (DomainName, usize),
        NameError,
    >)
        ensures
            match r {
                Ok((name, used)) => {
                    &&& parse_name(
                        buf@,
                        start as int,
                        seq![start as int],
                        max_hops as nat,
                        MAX_NAME_LEN as int,
                    ) == Ok::<_, NameError>((name@, used as int))
                    &&& valid_name(name@)
                    &&& 1 <= used
                    &&& start + used <= buf.len()
                },
                Err(e) => parse_name(
                    buf@,
                    start as int,
                    seq![start as int],
                    max_hops as nat,
                    MAX_NAME_LEN as int,
                ) == Err::<(Seq<Seq<u8>>, int), _>(e),
            },
    {
        let ghost whole = parse_name(
            buf@,
            start as int,
            seq![start as int],
            max_hops as nat,
            MAX_NAME_LEN as int,
        );
        let mut labels: Vec<Vec<u8>> = Vec::new();
        let mut visited: Vec<usize> = Vec::new();
        visited.push(start);
        let ghost mut trail: Seq<int> = seq![start as int];
        let mut pos: usize = start;
        let mut used: usize = 0;
        let mut jumped: bool = false;
        let mut hops: usize = max_hops;
        let mut budget: usize = MAX_NAME_LEN;
        let ghost mut done: Seq<Seq<u8>> = Seq::empty();
        assert(done + Seq::<Seq<u8>>::empty() == Seq::<Seq<u8>>::empty());
        loop
            invariant
                whole == parse_name(
                    buf@,
                    start as int,
                    seq![start as int],
                    max_hops as nat,
                    MAX_NAME_LEN as int,
                ),
                budget <= MAX_NAME_LEN,
                !jumped ==> used + budget == MAX_NAME_LEN,
                jumped ==> used <= MAX_NAME_LEN + 2,
                done.len() == labels.len(),
                forall|j: int| 0 <= j < done.len() ==> done[j] == labels@[j]@,
                trail.len() == visited.len(),
                forall|j: int| 0 <= j < trail.len() ==> trail[j] == visited@[j] as int,
                whole == resume_name(
                    done,
                    used as int,
                    jumped,
                    parse_name(buf@, pos as int, trail, hops as nat, budget as int),
                ),
            decreases hops, buf.len() - pos,
        {
            if pos >= buf.len() {
                return Err(NameError::TruncatedName);
            }
            let len = buf[pos];
            if len == 0 {
                let name = DomainName { labels };
                assert(name@ == done);
                assert(done + Seq::<Seq<u8>>::empty() == done);
                proof {
                    lemma_parse_name_ok(
                        buf@,
                        start as int,
                        seq![start as int],
                        max_hops as nat,
                        MAX_NAME_LEN as int,
                    );
                }
                if jumped {
                    return Ok((name, used));
                } else {
                    return Ok((name, used + 1));
                }
            } else if len >= 192 {
                if pos + 1 >= buf.len() {
                    return Err(NameError::TruncatedName);
                }
                let target: usize = (len as usize - 192) * 256 + buf[pos + 1] as usize;
                let found = seen(&visited, target);
                assert(found == trail.contains(target as int)) by {
                    if found {
                        let j = choose|j: int| 0 <= j < visited@.len() && visited@[j] == target;
                        assert(trail[j] == target as int);
                    }
                    if trail.contains(target as int) {
                        let j = choose|j: int| 0 <= j < trail.len() && trail[j] == target as int;
                        assert(visited@[j] == target);
                    }
                }
                if hops == 0 || found {
                    return Err(NameError::CompressionLoop);
                }
                if !jumped {
                    used = used + 2;
                    jumped = true;
                }
                visited.push(target);
                proof {
                    trail = trail.push(target as int);
                }
                hops = hops - 1;
                pos = target;
            } else if len as usize > MAX_LABEL_LEN {
                return Err(NameError::LabelTooLong);
            } else if len as usize > buf.len() - pos - 1 {
                return Err(NameError::TruncatedName);
            } else if budget < len as usize + 2 {
                return Err(NameError::NameTooLong);
            } else {
                let label = copy_range(buf, pos + 1, pos + 1 + len as usize);
                proof {
                    assert(done.push(label@) + parse_name(
                        buf@,
                        pos + 1 + len,
                        trail,
                        hops as nat,
                        budget - 1 - len,
                    )->Ok_0.0 == done + (seq![label@] + parse_name(
                        buf@,
                        pos + 1 + len,
                        trail,
                        hops as nat,
                        budget - 1 - len,
                    )->Ok_0.0));
                    done = done.push(label@);
                }
                labels.push(label);
                if !jumped {
                    used = used + 1 + len as usize;
                }
                budget = budget - 1 - len as usize;
                pos = pos + 1 + len as usize;
            }
        }
    }
}

/// A name written without compression reads back as itself wherever it
/// stands in a buffer, whatever offsets were visited before and however many
/// pointers may still be followed, as long as the budget covers it.
pub proof fn lemma_parse_spelled_out(
    buf: Seq<u8>,
    pos: int,
    labels: Seq<Seq<u8>>,
    visited: Seq<int>,
    hops: nat,
    budget: int,
)
    requires
        0 <= pos,
        pos + name_wire(labels).len() <= buf.len(),
        buf.subrange(pos, pos + name_wire(labels).len()) == name_wire(labels),
        !has_long_label(labels),
        !has_empty_label(labels),
        name_wire(labels).len() <= budget,
    ensures
        parse_name(buf, pos, visited, hops, budget) == Ok::<_, NameError>(
            (labels, name_wire(labels).len() as int),
        ),
    decreases labels.len(),
{
    let wire = name_wire(labels);
    let total = wire.len() as int;
    assert(buf[pos] == buf.subrange(pos, pos + total)[0]);
    if labels.len() == 0 {
        assert(wire[0] == 0u8);
        assert(labels == Seq::<Seq<u8>>::empty());
    } else {
        let first = labels[0];
        let rest = labels.drop_first();
        let len = first.len() as int;
        assert(1 <= len <= 63);
        let rest_wire = name_wire(rest);
        assert(wire == seq![len as u8] + first + rest_wire);
        assert(wire[0] == len as u8);
        assert(buf.subrange(pos + 1, pos + 1 + len) == first) by {
            assert forall|k: int| 0 <= k < len implies buf.subrange(pos + 1, pos + 1 + len)[k]
                == first[k] by {
                assert(buf[pos + 1 + k] == buf.subrange(pos, pos + total)[1 + k]);
                assert(wire[1 + k] == first[k]);
            }
        }
        let next = pos + 1 + len;
        assert(buf.subrange(next, next + rest_wire.len()) == rest_wire) by {
            assert forall|k: int| 0 <= k < rest_wire.len() implies buf.subrange(
                next,
                next + rest_wire.len(),
            )[k] == rest_wire[k] by {
                assert(buf[next + k] == buf.subrange(pos, pos + total)[1 + len + k]);
                assert(wire[1 + len + k] == rest_wire[k]);
            }
        }
        assert(!has_long_label(rest)) by {
            if has_long_label(rest) {
                let j = choose|j: int| 0 <= j < rest.len() && (#[trigger] rest[j]).len() > MAX_LABEL_LEN;
                assert(labels[j + 1] == rest[j]);
            }
        }
        assert(!has_empty_label(rest)) by {
            if has_empty_label(rest) {
                let j = choose|j: int| 0 <= j < rest.len() && (#[trigger] rest[j]).len() == 0;
                assert(labels[j + 1] == rest[j]);
            }
        }
        lemma_parse_spelled_out(buf, next, rest, visited, hops, budget - 1 - len);
        assert(seq![first] + rest == labels);
        assert(buf[pos] == len);
        assert(total == 1 + len + rest_wire.len());
    }
}

/// Round trip: decoding the encoding of a valid name gives the name back,
/// and takes up the whole encoding.
pub proof fn lemma_name_round_trip(labels: Seq<Seq<u8>>)
    requires
        valid_name(labels),
    ensures
        decode_name(name_wire(labels), 0) == Ok::<_, NameError>(
            (labels, name_wire(labels).len() as int),
        ),
{
    let wire = name_wire(labels);
    assert(wire.subrange(0, wire.len() as int) == wire);
    lemma_parse_spelled_out(
        wire,
        0,
        labels,
        seq![0int],
        MAX_POINTER_HOPS as nat,
        MAX_NAME_LEN as int,
    );
}

/// An ASCII upper-case letter as its lower-case letter; any other octet as
/// it is.
pub open spec fn fold_case(b: u8) -> u8 {
    if 65 <= b <= 90 {
        (b + 32) as u8
    } else {
        b
    }
}

/// Two labels that differ at most in the case of ASCII letters.
pub open spec fn labels_match(a: Seq<u8>, b: Seq<u8>) -> bool {
    a.len() == b.len() && forall|k: int| 0 <= k < a.len() ==> fold_case(#[trigger] a[k]) == fold_case(b[k])
}

/// Two names that are the same label by label, up to the case of ASCII
/// letters.
pub open spec fn names_match(a: Seq<Seq<u8>>, b: Seq<Seq<u8>>) -> bool {
    a.len() == b.len() && forall|i: int| 0 <= i < a.len() ==> labels_match(#[trigger] a[i], b[i])
}

/// Comparing without case is an equivalence: every name matches itself,
/// matching goes both ways, and names that match a third match each other.
pub proof fn lemma_names_match_equivalence(a: Seq<Seq<u8>>, b: Seq<Seq<u8>>, c: Seq<Seq<u8>>)
    ensures
        names_match(a, a),
        names_match(a, b) ==> names_match(b, a),
        names_match(a, b) && names_match(b, c) ==> names_match(a, c),
{
    assert(names_match(a, a)) by {
        assert forall|i: int| 0 <= i < a.len() implies labels_match(#[trigger] a[i], a[i]) by {}
    }
    if names_match(a, b) {
        assert forall|i: int| 0 <= i < b.len() implies labels_match(#[trigger] b[i], a[i]) by {
            assert(labels_match(a[i], b[i]));
        }
        if names_match(b, c) {
            assert forall|i: int| 0 <= i < a.len() implies labels_match(#[trigger] a[i], c[i]) by {
                assert(labels_match(a[i], b[i]));
                assert(labels_match(b[i], c[i]));
            }
        }
    }
}

/// Names that are equal match.
pub proof fn lemma_equal_names_match(a: Seq<Seq<u8>>, b: Seq<Seq<u8>>)
    requires
        a == b,
    ensures
        names_match(a, b),
{
    lemma_names_match_equivalence(a, a, a);
}

fn lower(b: u8) -> (r: u8)
    ensures
        r == fold_case(b),
{
    if 65 <= b && b <= 90 {
        b + 32
    } else {
        b
    }
}

fn same_label(a: &Vec<u8>, b: &Vec<u8>) -> (same: bool)
    ensures
        same == labels_match(a@, b@),
{
    if a.len() != b.len() {
        return false;
    }
    let mut k: usize = 0;
    while k < a.len()
        invariant
            a.len() == b.len(),
            k <= a.len(),
            forall|j: int| 0 <= j < k ==> fold_case(#[trigger] a@[j]) == fold_case(b@[j]),
        decreases a.len() - k,
    {
        if lower(a[k]) != lower(b[k]) {
            return false;
        }
        k += 1;
    }
    true
}

impl DomainName {
    /// Whether two names are equal when the case of ASCII letters is ignored.
    pub fn eq_ignore_case(&self, other: &DomainName) -> (same: bool)
        ensures
            same == names_match(self@, other@),
    {
        if self.labels.len() != other.labels.len() {
            return false;
        }
        let mut i: usize = 0;
        while i < self.labels.len()
            invariant
                self.labels.len() == other.labels.len(),
                i <= self.labels.len(),
                forall|j: int| 0 <= j < i ==> labels_match(#[trigger] self@[j], other@[j]),
            decreases self.labels.len() - i,
        {
            if !same_label(&self.labels[i], &other.labels[i]) {
                assert(!labels_match(self@[i as int], other@[i as int]));
                return false;
            }
            i += 1;
        }
        true
    }
}

} // verus!
