//! Fuzzy scoring of candidates, and the conversion of the scorer's
//! character ranges into byte ranges of the candidate.

use vstd::prelude::*;
use vstd::utf8::{encode_utf8, encode_scalar, valid_utf8};
use vstd::std_specs::iter::IteratorSpec;

verus! {

/// What `sublime_fuzzy::best_match` yields for a query and a candidate: no
/// match, or a score (higher is better) and the matched runs of characters as
/// `(start, length)` in characters.
pub uninterp spec fn best_match_of(query: Seq<char>, target: Seq<char>) -> Option<(isize, Seq<(usize, usize)>)>;

/// Ranges of `(start, length)` that are non-empty, in order, do not overlap
/// and end within `len`.
pub open spec fn ranges_within(rs: Seq<(usize, usize)>, len: int) -> bool {
    &&& forall|k: int| 0 <= k < rs.len() ==> #[trigger] rs[k].0 + rs[k].1 <= len
    &&& forall|k: int| 0 <= k < rs.len() - 1 ==> #[trigger] rs[k].0 + rs[k].1 <= rs[k + 1].0
}

/// Relies on `sublime_fuzzy::best_match` with `Match::score` and
/// `Match::continuous_matches`: a result that depends on the two strings
/// alone; no match for an empty query or an empty candidate; the matched
/// characters are indices into the candidate, grouped into ordered runs.
#[verifier::external_body]
fn fuzzy_match(query: &str, target: &str) -> (r: Option<(isize, Vec<(usize, usize)>)>)
    ensures
        r is None <==> best_match_of(query@, target@) is None,
        r matches Some(m) ==> best_match_of(query@, target@) == Some((m.0, m.1@)),
        query@.len() == 0 ==> r is None,
        target@.len() == 0 ==> r is None,
        r matches Some(m) ==> ranges_within(m.1@, target@.len() as int),
{
    match sublime_fuzzy::best_match(query, target) {
        Some(m) => Some((m.score(), m.continuous_matches())),
        None => None,
    }
}

/// Scores `candidate` against `query`: the scorer's result, with the matched
/// character ranges given as byte ranges of the candidate.
pub fn score_candidate(query: &str, candidate: &str) -> (r: Option<(isize, Vec<(usize, usize)>)>)
    ensures
        r is None <==> best_match_of(query@, candidate@) is None,
        r matches Some(m) ==> best_match_of(query@, candidate@) matches Some(b) && {
            &&& m.0 == b.0
            &&& m.1@.len() == b.1.len()
            &&& forall|k: int| 0 <= k < b.1.len() ==> {
                &&& (#[trigger] m.1@[k]).0 == byte_range(candidate@, b.1[k]).0
                &&& m.1@[k].1 == byte_range(candidate@, b.1[k]).1
            }
        },
        r matches Some(m) ==> ranges_within(m.1@, encode_utf8(candidate@).len() as int),
{
    match fuzzy_match(query, candidate) {
        None => None,
        Some((score, chars)) => Some((score, byte_ranges(candidate, &chars))),
    }
}

/// Relies on `String::from_utf8`: it accepts exactly the valid UTF-8 byte
/// strings and keeps their characters.
#[verifier::external_body]
pub(crate) fn utf8_string(bytes: &[u8]) -> (r: Option<String>)
    ensures
        r is Some <==> valid_utf8(bytes@),
        r matches Some(s) ==> encode_utf8(s@) == bytes@,
{
    String::from_utf8(bytes.to_vec()).ok()
}

/// The byte offset of the character at index `i` of `t`.
pub open spec fn byte_offset(t: Seq<char>, i: int) -> int {
    encode_utf8(t.take(i)).len() as int
}

/// A range of characters `(start, length)` of `t` as a range of bytes.
pub open spec fn byte_range(t: Seq<char>, r: (usize, usize)) -> (int, int) {
    (byte_offset(t, r.0 as int), byte_offset(t, r.0 + r.1) - byte_offset(t, r.0 as int))
}

proof fn lemma_encode_concat(a: Seq<char>, b: Seq<char>)
    ensures
        encode_utf8(a + b) == encode_utf8(a) + encode_utf8(b),
    decreases a.len(),
{
    if a.len() == 0 {
        assert(a + b == b);
        assert(encode_utf8(a) + encode_utf8(b) == encode_utf8(b));
    } else {
        assert((a + b).drop_first() == a.drop_first() + b);
        lemma_encode_concat(a.drop_first(), b);
        assert(encode_utf8(a + b) == encode_scalar((a + b)[0] as u32) + encode_utf8(a.drop_first() + b));
    }
}

proof fn lemma_byte_offset_step(t: Seq<char>, i: int)
    requires
        0 <= i < t.len(),
    ensures
        byte_offset(t, i + 1) == byte_offset(t, i) + encode_scalar(t[i] as u32).len(),
        byte_offset(t, i + 1) <= encode_utf8(t).len(),
{
    assert(t.take(i + 1) == t.take(i) + seq![t[i]]);
    lemma_encode_concat(t.take(i), seq![t[i]]);
    assert(seq![t[i]].drop_first() == Seq::<char>::empty());
    assert(encode_utf8(seq![t[i]]) == encode_scalar(t[i] as u32) + encode_utf8(Seq::<char>::empty()));
    assert(t == t.take(i + 1) + t.skip(i + 1));
    lemma_encode_concat(t.take(i + 1), t.skip(i + 1));
}

/// The length in bytes of the UTF-8 encoding of `c`.
fn utf8_width(c: char) -> (r: usize)
    ensures
        r == encode_scalar(c as u32).len(),
        1 <= r <= 4,
{
    let v = c as u32;
    if v < 0x80 {
        1
    } else if v < 0x800 {
        2
    } else if v < 0x10000 {
        3
    } else {
        4
    }
}

/// The byte offset of every character boundary of `t`, the end included.
fn char_offsets(t: &str) -> (r: Vec<usize>)
    ensures
        r@.len() == t@.len() + 1,
        forall|i: int| 0 <= i <= t@.len() ==> #[trigger] r@[i] == byte_offset(t@, i),
        forall|a: int, b: int| 0 <= a <= b <= t@.len() ==> #[trigger] r@[a] <= #[trigger] r@[b],
{
    broadcast use vstd::string::next_postcondition, vstd::string::axiom_spec_iter;
    let total = t.as_bytes().len();
    let mut offsets: Vec<usize> = Vec::new();
    offsets.push(0);
    proof {
        assert(t@.take(0) == Seq::<char>::empty());
    }
    let mut it = t.chars();
    let mut off: usize = 0;
    let ghost mut i: int = 0;
    loop
        invariant
            0 <= i <= t@.len(),
            it.remaining() == t@.skip(i),
            total == encode_utf8(t@).len(),
            off == byte_offset(t@, i),
            offsets@.len() == i + 1,
            forall|k: int| 0 <= k <= i ==> #[trigger] offsets@[k] == byte_offset(t@, k),
            forall|a: int, b: int| 0 <= a <= b <= i ==> #[trigger] offsets@[a] <= #[trigger] offsets@[b],
        ensures
            i == t@.len(),
            offsets@.len() == i + 1,
            forall|k: int| 0 <= k <= i ==> #[trigger] offsets@[k] == byte_offset(t@, k),
            forall|a: int, b: int| 0 <= a <= b <= i ==> #[trigger] offsets@[a] <= #[trigger] offsets@[b],
        decreases t@.len() - i,
    {
        match it.next() {
            Some(c) => {
                proof {
                    assert(t@.skip(i).len() > 0);
                    assert(c == t@[i]);
                    lemma_byte_offset_step(t@, i);
                    assert(t@.skip(i).drop_first() == t@.skip(i + 1));
                }
                let ghost prev = offsets@;
                off = off + utf8_width(c);
                offsets.push(off);
                proof {
                    assert forall|a: int, b: int| 0 <= a <= b <= i + 1 implies #[trigger] offsets@[a] <= #[trigger] offsets@[b] by {
                        if b == i + 1 && a <= i {
                            assert(prev[a] <= prev[i]);
                        }
                    }
                    i = i + 1;
                }
            },
            None => {
                proof {
                    assert(t@.skip(i).len() == 0);
                    assert(i == t@.len());
                }
                break;
            },
        }
    }
    offsets
}

/// Converts ranges of characters of `t` into ranges of bytes.
pub fn byte_ranges(t: &str, ranges: &Vec<(usize, usize)>) -> (r: Vec<(usize, usize)>)
    requires
        ranges_within(ranges@, t@.len() as int),
    ensures
        r@.len() == ranges@.len(),
        forall|k: int| 0 <= k < ranges@.len() ==> (#[trigger] r@[k]).0 == byte_range(t@, ranges@[k]).0
            && r@[k].1 == byte_range(t@, ranges@[k]).1,
        ranges_within(r@, encode_utf8(t@).len() as int),
{
    let offsets = char_offsets(t);
    proof {
        assert(t@.take(t@.len() as int) == t@);
    }
    let n_offsets = offsets.len();
    let mut out: Vec<(usize, usize)> = Vec::new();
    let mut k: usize = 0;
    while k < ranges.len()
        invariant
            n_offsets == offsets@.len(),
            k <= ranges@.len(),
            ranges_within(ranges@, t@.len() as int),
            offsets@.len() == t@.len() + 1,
            forall|i: int| 0 <= i <= t@.len() ==> #[trigger] offsets@[i] == byte_offset(t@, i),
            forall|a: int, b: int| 0 <= a <= b <= t@.len() ==> #[trigger] offsets@[a] <= #[trigger] offsets@[b],
            out@.len() == k,
            forall|j: int| 0 <= j < k ==> (#[trigger] out@[j]).0 == byte_range(t@, ranges@[j]).0
                && out@[j].1 == byte_range(t@, ranges@[j]).1,
        decreases ranges@.len() - k,
    {
        let (s, l) = ranges[k];
        assert(ranges@[k as int].0 + ranges@[k as int].1 <= t@.len());
        let a = offsets[s];
        let b = offsets[s + l];
        assert(offsets@[s as int] <= offsets@[s + l]);
        out.push((a, b - a));
        k = k + 1;
    }
    proof {
        let n = t@.len() as int;
        assert forall|j: int| 0 <= j < out@.len() implies #[trigger] out@[j].0 + out@[j].1 <= encode_utf8(t@).len() by {
            assert(offsets@[ranges@[j].0 + ranges@[j].1] <= offsets@[n]);
        }
        assert forall|j: int| 0 <= j < out@.len() - 1 implies #[trigger] out@[j].0 + out@[j].1 <= out@[j + 1].0 by {
            assert(ranges@[j].0 + ranges@[j].1 <= ranges@[j + 1].0);
            assert(offsets@[ranges@[j].0 + ranges@[j].1] <= offsets@[ranges@[j + 1].0 as int]);
        }
    }
    out
}

} // verus!
