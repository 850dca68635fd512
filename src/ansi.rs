//! ANSI control sequences: their byte encoding, and detection of a leading
//! run of SGR (Select Graphic Rendition) sequences in a candidate line.

use vstd::prelude::*;

verus! {

/// The escape byte that opens every control sequence.
pub const ESC: u8 = 0x1b;

pub open spec fn is_digit(b: u8) -> bool {
    0x30 <= b <= 0x39
}

/// A byte allowed inside the parameter list of an SGR sequence.
pub open spec fn is_param(b: u8) -> bool {
    is_digit(b) || b == 0x3b
}

/// Decimal digits of `n`, most significant first, with no leading zeros.
pub open spec fn digits(n: nat) -> Seq<u8>
    decreases n,
{
    if n < 10 {
        seq![(0x30 + n) as u8]
    } else {
        digits(n / 10).push((0x30 + n % 10) as u8)
    }
}

/// `ESC [ params final`.
pub open spec fn csi(params: Seq<u8>, final_byte: u8) -> Seq<u8> {
    seq![ESC, 0x5b] + params + seq![final_byte]
}

/// `ESC [ n m`.
pub open spec fn sgr_seq(n: nat) -> Seq<u8> {
    csi(digits(n), 0x6d)
}

/// First index at or after `j` that does not hold a parameter byte, or the
/// length of `s` when there is none.
pub open spec fn param_end(s: Seq<u8>, j: int) -> int
    decreases s.len() - j,
{
    if j < 0 || j >= s.len() {
        s.len() as int
    } else if is_param(s[j]) {
        param_end(s, j + 1)
    } else {
        j
    }
}

/// The index of the final `m` of an SGR sequence that starts at `i`: `ESC [`,
/// a digit, then digits or `;`, then `m`. `None` when no such sequence
/// starts at `i`.
pub open spec fn sgr_end(s: Seq<u8>, i: int) -> Option<int> {
    if 0 <= i && i + 4 <= s.len() && s[i] == ESC && s[i + 1] == 0x5b && is_digit(s[i + 2]) {
        let j = param_end(s, i + 3);
        if j < s.len() && s[j] == 0x6d {
            Some(j)
        } else {
            None
        }
    } else {
        None
    }
}

/// Walks a run of consecutive SGR sequences that starts at `i`; the result is
/// the index of the last `m` in the run, or `last` when no sequence starts at `i`.
pub open spec fn last_sgr_from(s: Seq<u8>, i: int, last: int) -> int
    decreases s.len() - i,
{
    if i < 0 || i >= s.len() {
        last
    } else {
        match sgr_end(s, i) {
            Some(j) => if j >= i {
                last_sgr_from(s, j + 1, j)
            } else {
                last
            },
            None => last,
        }
    }
}

/// The index of the `m` that ends the leading run of SGR sequences of `s`,
/// or 0 when `s` does not begin with one.
pub open spec fn last_sgr(s: Seq<u8>) -> int {
    last_sgr_from(s, 0, 0)
}

proof fn lemma_param_end_bounds(s: Seq<u8>, j: int)
    requires
        0 <= j,
    ensures
        j <= param_end(s, j) <= s.len() || (j > s.len() && param_end(s, j) == s.len()),
        param_end(s, j) < s.len() ==> !is_param(s[param_end(s, j)]),
        forall|k: int| j <= k < param_end(s, j) ==> is_param(#[trigger] s[k]),
    decreases s.len() - j,
{
    if j < s.len() && is_param(s[j]) {
        lemma_param_end_bounds(s, j + 1);
    }
}

proof fn lemma_last_sgr_from_bounds(s: Seq<u8>, i: int, last: int)
    requires
        0 <= i,
        last == 0 || (0 <= last < s.len() && s[last] == 0x6d),
    ensures
        last_sgr_from(s, i, last) == 0 || (0 <= last_sgr_from(s, i, last) < s.len() && s[last_sgr_from(s, i, last)] == 0x6d),
    decreases s.len() - i,
{
    if 0 <= i < s.len() {
        lemma_param_end_bounds(s, i + 3);
        match sgr_end(s, i) {
            Some(j) => {
                if j >= i {
                    lemma_last_sgr_from_bounds(s, j + 1, j);
                }
            },
            None => {},
        }
    }
}

/// Finds the last byte of the leading run of SGR sequences in `bytes`: the
/// index of the `m` that ends the last sequence of the run, or 0 when `bytes`
/// does not begin with an SGR sequence. Only bytes inside `bytes` are read.
pub fn find_last_sgr_byte(bytes: &[u8]) -> (r: usize)
    ensures
        r == last_sgr(bytes@),
        sgr_end(bytes@, 0) is None ==> r == 0,
        r == 0 || (r < bytes@.len() && bytes@[r as int] == 0x6d),
{
    proof {
        lemma_last_sgr_from_bounds(bytes@, 0, 0);
    }
    let len = bytes.len();
    let mut last_sgr_idx: usize = 0;
    let mut i: usize = 0;
    loop
        invariant
            len == bytes@.len(),
            i <= len,
            last_sgr_from(bytes@, i as int, last_sgr_idx as int) == last_sgr(bytes@),
            last_sgr(bytes@) == 0 || (last_sgr(bytes@) < len && bytes@[last_sgr(bytes@)] == 0x6d),
        decreases len - i,
    {
        if i >= len || len - i < 4 {
            return last_sgr_idx;
        }
        if bytes[i] != ESC || bytes[i + 1] != 0x5b || bytes[i + 2] < 0x30 || bytes[i + 2] > 0x39 {
            return last_sgr_idx;
        }
        let mut j: usize = i + 3;
        while j < len && ((bytes[j] >= 0x30 && bytes[j] <= 0x39) || bytes[j] == 0x3b)
            invariant
                i + 3 <= j <= len,
                len == bytes@.len(),
                param_end(bytes@, j as int) == param_end(bytes@, i as int + 3),
            decreases len - j,
        {
            j = j + 1;
        }
        if j >= len || bytes[j] != 0x6d {
            return last_sgr_idx;
        }
        last_sgr_idx = j;
        i = j + 1;
    }
}

} // verus!
