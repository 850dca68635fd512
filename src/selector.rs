//! The interactive selector: the query, the ranked matches, the selection
//! and the scrolling viewport, and how each input event changes them and
//! what is drawn.

use vstd::prelude::*;
use vstd::utf8::{decode_utf8, encode_utf8, is_continuation_byte, valid_utf8};
use crate::ansi::{find_last_sgr_byte, last_sgr, sgr_seq};
use crate::config::{window_height, Config, ConfigError};
use crate::keys::{bindings_view, bound_action, build_actions, Action, ActionTable};
use crate::ranking::ranked_matches;
use crate::scorer::{best_match_of, byte_range, ranges_within};
use crate::tty::{clearline_seq, move_up_seq, newline_seq, set_col_seq, Tty, DEFAULT_FG};

verus! {

/// A candidate that matches the query: its index among the candidates, its
/// score and the matched byte ranges `(offset, length)` of the candidate.
pub struct Match {
    pub index: usize,
    pub score: isize,
    pub ranges: Vec<(usize, usize)>,
}

/// A match as plain values.
pub struct MatchView {
    pub index: int,
    pub score: int,
    pub ranges: Seq<(usize, usize)>,
}

pub open spec fn match_view(m: Match) -> MatchView {
    MatchView { index: m.index as int, score: m.score as int, ranges: m.ranges@ }
}

/// The candidates as bytes.
pub open spec fn candidate_bytes(choices: Seq<String>) -> Seq<Seq<u8>> {
    choices.map_values(|s: String| encode_utf8(s@))
}

/// `a` ranks before `b`: a higher score, or an equal score and an earlier candidate.
pub open spec fn ranks_before(a: MatchView, b: MatchView) -> bool {
    a.score > b.score || (a.score == b.score && a.index < b.index)
}

/// The matches are in ranking order.
pub open spec fn ranked(ms: Seq<MatchView>) -> bool {
    forall|a: int, b: int| 0 <= a < b < ms.len() ==> ranks_before(#[trigger] ms[a], #[trigger] ms[b])
}

/// `m` is what the scorer gives for candidate `m.index` and query `q`, with
/// the character ranges converted into byte ranges.
pub open spec fn scored_as(choices: Seq<String>, q: Seq<char>, m: MatchView) -> bool {
    &&& 0 <= m.index < choices.len()
    &&& best_match_of(q, choices[m.index]@) matches Some(r) && {
        &&& m.score == r.0
        &&& m.ranges.len() == r.1.len()
        &&& forall|k: int| 0 <= k < r.1.len() ==> {
            &&& (#[trigger] m.ranges[k]).0 == byte_range(choices[m.index]@, r.1[k]).0
            &&& m.ranges[k].1 == byte_range(choices[m.index]@, r.1[k]).1
        }
    }
}

/// `ms` is the result of ranking `choices[0..n]` against the query `q`:
/// exactly the candidates that the scorer matches, in ranking order.
pub open spec fn ranking_of(choices: Seq<String>, q: Seq<char>, n: int, ms: Seq<MatchView>) -> bool {
    &&& ranked(ms)
    &&& forall|k: int| 0 <= k < ms.len() ==> (#[trigger] ms[k]).index < n && scored_as(choices, q, ms[k])
    &&& forall|i: int| 0 <= i < n && (#[trigger] best_match_of(q, choices[i]@)) is Some
        ==> exists|k: int| 0 <= k < ms.len() && (#[trigger] ms[k]).index == i
}

/// The match list that the query `query` (UTF-8 bytes) yields over `choices`:
/// empty for an empty query.
pub open spec fn matches_for(choices: Seq<String>, query: Seq<u8>, ms: Seq<MatchView>) -> bool {
    if query.len() == 0 {
        ms.len() == 0
    } else {
        ranking_of(choices, decode_utf8(query), choices.len() as int, ms)
    }
}

pub open spec fn matches_view(ms: Seq<Match>) -> Seq<MatchView> {
    ms.map_values(|m: Match| match_view(m))
}

/// A candidate row without a query. The selected row is shown inverted: the
/// invert attribute is spliced into the candidate's own leading SGR
/// sequences when it has some, so that a reset inside them cannot clear it.
#[verifier::opaque]
pub open spec fn plain_row(c: Seq<u8>, sel: bool) -> Seq<u8> {
    if sel {
        let p = last_sgr(c);
        (if p > 0 {
            c.take(p) + seq![0x3bu8, 0x37] + c.skip(p)
        } else {
            sgr_seq(7) + c
        }) + sgr_seq(0)
    } else {
        c
    }
}

/// Rows `first .. first + n` of the candidates, each on a freshly cleared line.
pub open spec fn plain_rows(cs: Seq<Seq<u8>>, first: int, selected: int, n: int) -> Seq<u8>
    decreases n,
{
    if n <= 0 {
        seq![]
    } else {
        plain_rows(cs, first, selected, n - 1) + newline_seq() + plain_row(
            cs[first + n - 1],
            first + n - 1 == selected,
        )
    }
}

/// What opens a match row: the candidate's leading SGR run with the invert
/// attribute spliced in when selected, or a plain invert.
pub open spec fn lead(c: Seq<u8>, p: int, sel: bool) -> Seq<u8> {
    if p > 0 {
        c.take(p) + (if sel { seq![0x3bu8, 0x37] } else { seq![] })
    } else if sel {
        sgr_seq(7)
    } else {
        seq![]
    }
}

/// What restores a match row's attributes after a highlighted range.
pub open spec fn reapply(c: Seq<u8>, p: int, sel: bool) -> Seq<u8> {
    if p > 0 {
        c.take(p) + (if sel { seq![0x3bu8, 0x37, 0x6d] } else { seq![0x6du8] })
    } else if sel {
        sgr_seq(7)
    } else {
        seq![]
    }
}

/// Where the text after the `k`-th range starts (after the SGR run for `k == 0`).
pub open spec fn piece_start(rs: Seq<(usize, usize)>, p: int, k: int) -> int {
    if k <= 0 {
        p
    } else {
        rs[k - 1].0 + rs[k - 1].1
    }
}

/// The bytes `from .. to` of `c`, or nothing when the range is empty.
pub open spec fn gap(c: Seq<u8>, from: int, to: int) -> Seq<u8> {
    if from < to {
        c.subrange(from, to)
    } else {
        seq![]
    }
}

/// One highlighted range `r` of a match row, after the text from `last` up to it.
pub open spec fn piece(c: Seq<u8>, r: (usize, usize), p: int, sel: bool, last: int) -> Seq<u8> {
    gap(c, last, r.0 as int) + sgr_seq(35) + c.subrange(r.0 as int, r.0 + r.1) + sgr_seq(0) + reapply(c, p, sel)
}

/// The first `k` highlighted ranges of a match row, each preceded by the text
/// before it and shown in magenta (foreground 5).
pub open spec fn pieces(c: Seq<u8>, rs: Seq<(usize, usize)>, p: int, sel: bool, k: int) -> Seq<u8>
    decreases k,
{
    if k <= 0 {
        seq![]
    } else {
        pieces(c, rs, p, sel, k - 1) + piece(c, rs[k - 1], p, sel, piece_start(rs, p, k - 1))
    }
}

/// A candidate row while a query is typed, with its matched ranges highlighted.
#[verifier::opaque]
pub open spec fn match_row(c: Seq<u8>, rs: Seq<(usize, usize)>, sel: bool) -> Seq<u8> {
    let p = last_sgr(c);
    lead(c, p, sel) + pieces(c, rs, p, sel, rs.len() as int) + gap(c, piece_start(rs, p, rs.len() as int), c.len() as int)
        + (if sel { sgr_seq(0) } else { seq![] })
}

/// Rows `first .. first + n` of the matches, each on a freshly cleared line.
pub open spec fn match_rows(cs: Seq<Seq<u8>>, ms: Seq<MatchView>, first: int, selected: int, n: int) -> Seq<u8>
    decreases n,
{
    if n <= 0 {
        seq![]
    } else {
        match_rows(cs, ms, first, selected, n - 1) + newline_seq() + match_row(
            cs[ms[first + n - 1].index],
            ms[first + n - 1].ranges,
            first + n - 1 == selected,
        )
    }
}

/// `n` cleared lines.
pub open spec fn blank_rows(n: int) -> Seq<u8>
    decreases n,
{
    if n <= 0 {
        seq![]
    } else {
        blank_rows(n - 1) + newline_seq()
    }
}

/// Back on the prompt row: attributes reset, column 0, `> `, rest of line cleared.
pub open spec fn prompt_seq() -> Seq<u8> {
    sgr_seq(0) + set_col_seq(0) + seq![0x3eu8, 0x20] + clearline_seq()
}

/// The first visible row after moving the viewport so that `selected` is in it.
pub open spec fn scrolled(selected: int, first: int, vis: int) -> int {
    if selected >= first + vis {
        selected + 1 - vis
    } else if selected < first {
        selected
    } else {
        first
    }
}

fn draw_plain_row(t: &mut Tty, c: &[u8], sel: bool)
    ensures
        final(t).output() == old(t).output() + plain_row(c@, sel),
        final(t).fg() == (if sel { DEFAULT_FG } else { old(t).fg() }),
        final(t).height() == old(t).height(),
{
    if sel {
        let p = find_last_sgr_byte(c);
        if p != 0 {
            t.print_range(c, 0, p);
            t.write_bytes([0x3bu8, 0x37].as_slice());
            t.print_range(c, p, c.len());
        } else {
            t.set_invert();
            t.print_range(c, 0, c.len());
        }
        t.set_normal();
    } else {
        t.print_range(c, 0, c.len());
    }
    proof {
        reveal(plain_row);
        assert(c@.subrange(0, c@.len() as int) == c@);
        assert(c@.subrange(0, last_sgr(c@)) == c@.take(last_sgr(c@)));
        assert(c@.subrange(last_sgr(c@), c@.len() as int) == c@.skip(last_sgr(c@)));
        assert(final(t).output() =~= old(t).output() + plain_row(c@, sel));
    }
}

/// One highlighted range of a match row, with the text before it.
fn draw_range(t: &mut Tty, c: &[u8], s: usize, l: usize, p: usize, sel: bool, last: usize)
    requires
        old(t).fg() == DEFAULT_FG,
        s <= s + l <= c@.len() <= usize::MAX,
        p == 0 || p < c@.len(),
        last <= c@.len(),
    ensures
        final(t).output() == old(t).output() + piece(c@, (s, l), p as int, sel, last as int),
        final(t).fg() == DEFAULT_FG,
        final(t).height() == old(t).height(),
{
    let ghost before = t.output();
    if last < s {
        t.print_range(c, last, s);
    }
    assert(t.output() == before + gap(c@, last as int, s as int));
    t.set_fg(5);
    t.print_range(c, s, s + l);
    t.set_normal();
    let ghost mid = t.output();
    assert(mid == before + gap(c@, last as int, s as int) + sgr_seq(35) + c@.subrange(s as int, s + l) + sgr_seq(0));
    if p != 0 {
        t.print_range(c, 0, p);
        if sel {
            t.write_bytes([0x3bu8, 0x37, 0x6d].as_slice());
        } else {
            t.write_bytes([0x6du8].as_slice());
        }
    } else if sel {
        t.set_invert();
    }
    proof {
        assert(c@.subrange(0, p as int) == c@.take(p as int));
        assert(t.output() =~= before + piece(c@, (s, l), p as int, sel, last as int));
    }
}

fn draw_lead(t: &mut Tty, c: &[u8], p: usize, sel: bool)
    requires
        p == 0 || p < c@.len(),
    ensures
        final(t).output() == old(t).output() + lead(c@, p as int, sel),
        final(t).fg() == old(t).fg(),
        final(t).height() == old(t).height(),
{
    let ghost base = t.output();
    if p != 0 {
        t.print_range(c, 0, p);
        if sel {
            t.write_bytes([0x3bu8, 0x37].as_slice());
        }
    } else if sel {
        t.set_invert();
    }
    proof {
        assert(c@.subrange(0, p as int) == c@.take(p as int));
        assert(t.output() =~= base + lead(c@, p as int, sel));
    }
}

fn draw_tail(t: &mut Tty, c: &[u8], last: usize, sel: bool)
    requires
        old(t).fg() == DEFAULT_FG,
        last <= c@.len(),
    ensures
        final(t).output() == old(t).output() + gap(c@, last as int, c@.len() as int) + (if sel {
            sgr_seq(0)
        } else {
            seq![]
        }),
        final(t).fg() == DEFAULT_FG,
        final(t).height() == old(t).height(),
{
    let ghost base = t.output();
    if last < c.len() {
        t.print_range(c, last, c.len());
    }
    if sel {
        t.set_normal();
    }
    proof {
        assert(t.output() =~= base + gap(c@, last as int, c@.len() as int) + (if sel { sgr_seq(0) } else { seq![] }));
    }
}

#[verifier::rlimit(60)]
fn draw_match_row(t: &mut Tty, c: &[u8], ranges: &Vec<(usize, usize)>, sel: bool)
    requires
        old(t).fg() == DEFAULT_FG,
        ranges_within(ranges@, c@.len() as int),
    ensures
        final(t).output() == old(t).output() + match_row(c@, ranges@, sel),
        final(t).fg() == DEFAULT_FG,
        final(t).height() == old(t).height(),
{
    let ghost base = t.output();
    let ghost rs = ranges@;
    let p = find_last_sgr_byte(c);
    draw_lead(t, c, p, sel);
    proof {
        assert(pieces(c@, rs, p as int, sel, 0) == Seq::<u8>::empty());
        assert(t.output() =~= base + lead(c@, p as int, sel) + pieces(c@, rs, p as int, sel, 0));
    }
    let n = c.len();
    let mut last: usize = p;
    let mut k: usize = 0;
    while k < ranges.len()
        invariant
            n == c@.len(),
            k <= rs.len(),
            rs == ranges@,
            ranges_within(rs, c@.len() as int),
            p == last_sgr(c@),
            p == 0 || p < c@.len(),
            last == piece_start(rs, p as int, k as int),
            last <= c@.len(),
            t.fg() == DEFAULT_FG,
            t.height() == old(t).height(),
            t.output() == base + lead(c@, p as int, sel) + pieces(c@, rs, p as int, sel, k as int),
        decreases rs.len() - k,
    {
        let (s, l) = ranges[k];
        assert(rs[k as int].0 + rs[k as int].1 <= c@.len());
        assert(c@.len() == n);
        let ghost before = t.output();
        draw_range(t, c, s, l, p, sel, last);
        proof {
            let pre = base + lead(c@, p as int, sel);
            assert(rs[k as int] == (s, l));
            assert(pieces(c@, rs, p as int, sel, k + 1) == pieces(c@, rs, p as int, sel, k as int)
                + piece(c@, (s, l), p as int, sel, last as int));
            assert(pre + pieces(c@, rs, p as int, sel, k + 1) =~= before + piece(c@, (s, l), p as int, sel, last as int));
        }
        last = s + l;
        k = k + 1;
    }
    let ghost mid = t.output();
    draw_tail(t, c, last, sel);
    proof {
        reveal(match_row);
        assert(k == rs.len() && last == piece_start(rs, p as int, rs.len() as int));
        let tail = gap(c@, last as int, c@.len() as int) + (if sel { sgr_seq(0) } else { seq![] });
        assert(match_row(c@, rs, sel) == lead(c@, p as int, sel) + pieces(c@, rs, p as int, sel, rs.len() as int) + tail);
        assert(mid + tail =~= base + match_row(c@, rs, sel));
    }
}

fn draw_choices(t: &mut Tty, choices: &Vec<String>, first: usize, selected: usize, vis: usize)
    requires
        old(t).fg() == DEFAULT_FG,
        vis == 0 || first + vis <= choices@.len(),
    ensures
        final(t).output() == old(t).output() + plain_rows(candidate_bytes(choices@), first as int, selected as int, vis as int)
            + clearline_seq() + move_up_seq(vis as nat),
        final(t).fg() == DEFAULT_FG,
        final(t).height() == old(t).height(),
{
    let ghost base = t.output();
    let ghost cs = candidate_bytes(choices@);
    let n = choices.len();
    let mut j: usize = 0;
    while j < vis
        invariant
            j <= vis,
            n == choices@.len(),
            vis == 0 || first + vis <= choices@.len(),
            cs == candidate_bytes(choices@),
            t.fg() == DEFAULT_FG,
            t.height() == old(t).height(),
            t.output() == base + plain_rows(cs, first as int, selected as int, j as int),
        decreases vis - j,
    {
        let ghost before = t.output();
        t.newline();
        let idx = j + first;
        let c = choices[idx].as_str().as_bytes();
        assert(c@ == cs[idx as int]);
        draw_plain_row(t, c, idx == selected);
        proof {
            let row = plain_row(cs[idx as int], idx == selected);
            assert(plain_rows(cs, first as int, selected as int, j + 1)
                == plain_rows(cs, first as int, selected as int, j as int) + newline_seq() + row);
            assert(t.output() == before + newline_seq() + row);
        }
        j = j + 1;
    }
    t.clearline();
    t.move_up(vis);
}

fn draw_matches(
    t: &mut Tty,
    choices: &Vec<String>,
    matches: &Vec<Match>,
    first: usize,
    selected: usize,
    vis: usize,
    screen: usize,
)
    requires
        old(t).fg() == DEFAULT_FG,
        vis == 0 || first + vis <= matches@.len(),
        forall|k: int| 0 <= k < matches@.len() ==> (#[trigger] matches@[k]).index < choices@.len(),
        forall|k: int| 0 <= k < matches@.len() ==> ranges_within(
            (#[trigger] matches@[k]).ranges@,
            encode_utf8(choices@[matches@[k].index as int]@).len() as int,
        ),
    ensures
        final(t).output() == old(t).output() + match_rows(candidate_bytes(choices@), matches_view(matches@), first as int, selected as int, vis as int)
            + blank_rows(screen - vis) + clearline_seq() + move_up_seq(screen as nat),
        final(t).fg() == DEFAULT_FG,
        final(t).height() == old(t).height(),
{
    let ghost base = t.output();
    let ghost cs = candidate_bytes(choices@);
    let ghost ms = matches_view(matches@);
    let n = matches.len();
    let mut j: usize = 0;
    while j < vis
        invariant
            j <= vis,
            n == matches@.len(),
            vis == 0 || first + vis <= matches@.len(),
            forall|k: int| 0 <= k < matches@.len() ==> (#[trigger] matches@[k]).index < choices@.len(),
            forall|k: int| 0 <= k < matches@.len() ==> ranges_within(
                (#[trigger] matches@[k]).ranges@,
                encode_utf8(choices@[matches@[k].index as int]@).len() as int,
            ),
            cs == candidate_bytes(choices@),
            ms == matches_view(matches@),
            t.fg() == DEFAULT_FG,
            t.height() == old(t).height(),
            t.output() == base + match_rows(cs, ms, first as int, selected as int, j as int),
        decreases vis - j,
    {
        let ghost before = t.output();
        t.newline();
        let idx = j + first;
        let ci = matches[idx].index;
        assert(ms[idx as int] == match_view(matches@[idx as int]));
        let c = choices[ci].as_str().as_bytes();
        assert(c@ == cs[ms[idx as int].index]);
        draw_match_row(t, c, &matches[idx].ranges, idx == selected);
        proof {
            let row = match_row(cs[ms[idx as int].index], ms[idx as int].ranges, idx == selected);
            assert(match_rows(cs, ms, first as int, selected as int, j + 1)
                == match_rows(cs, ms, first as int, selected as int, j as int) + newline_seq() + row);
            assert(t.output() == before + newline_seq() + row);
        }
        j = j + 1;
    }
    let ghost rows = t.output();
    let mut b: usize = vis;
    while b < screen
        invariant
            t.fg() == DEFAULT_FG,
            t.height() == old(t).height(),
            vis <= b,
            vis <= screen ==> b <= screen,
            screen < vis ==> b == vis,
            t.output() == rows + blank_rows(b - vis),
        decreases screen - b,
    {
        t.newline();
        b = b + 1;
    }
    proof {
        if screen < vis {
            assert(blank_rows(screen - vis) == Seq::<u8>::empty());
        } else {
            assert(b == screen);
        }
    }
    let ghost blanks = t.output();
    t.clearline();
    t.move_up(screen);
    proof {
        assert(blank_rows(b - vis) == blank_rows(screen - vis));
        assert(t.output() =~= base + match_rows(cs, ms, first as int, selected as int, vis as int)
            + blank_rows(screen - vis) + clearline_seq() + move_up_seq(screen as nat));
    }
}

/// After the viewport moves, a non-empty viewport shows the selection:
/// `first <= selected < first + vis`.
pub proof fn lemma_selection_visible(selected: int, first: int, vis: int)
    requires
        0 <= selected,
        0 <= first,
        vis > 0,
    ensures
        0 <= scrolled(selected, first, vis) <= selected < scrolled(selected, first, vis) + vis,
{
}

/// The first visible row once the viewport has moved to show `selected`.
fn scroll_to(selected: usize, first: usize, vis: usize) -> (r: usize)
    requires
        selected < usize::MAX,
    ensures
        r == scrolled(selected as int, first as int, vis as int),
{
    if first <= usize::MAX - vis && selected >= first + vis {
        selected + 1 - vis
    } else if selected < first {
        selected
    } else {
        first
    }
}

fn draw_prompt(t: &mut Tty)
    ensures
        final(t).output() == old(t).output() + prompt_seq(),
        final(t).fg() == DEFAULT_FG,
        final(t).height() == old(t).height(),
{
    let ghost base = t.output();
    t.set_normal();
    t.set_col(0);
    t.write_bytes([0x3eu8, 0x20].as_slice());
    t.clearline();
    proof {
        assert(t.output() =~= base + prompt_seq());
    }
}

/// What one input event leads to.
#[derive(Debug)]
pub enum Step {
    /// Keep reading input.
    Continue,
    /// The user accepted this candidate.
    Accept(String),
}

/// Input that cannot be handled.
#[derive(Debug, Clone, Copy, PartialEq, Eq, Structural)]
pub enum InputError {
    /// The input bytes are not valid UTF-8.
    InvalidUtf8,
}

/// Index of the first zero byte of `d` at or after `i`, or the length of `d`.
pub open spec fn nul_index(d: Seq<u8>, i: int) -> int
    decreases d.len() - i,
{
    if i < 0 || i >= d.len() {
        d.len() as int
    } else if d[i] == 0 {
        i
    } else {
        nul_index(d, i + 1)
    }
}

/// The input bytes of a read buffer: those before the first zero byte.
pub open spec fn input_bytes(d: Seq<u8>) -> Seq<u8> {
    d.take(nul_index(d, 0))
}

/// An ASCII control character: below space, or DEL.
pub open spec fn is_control(b: u8) -> bool {
    b < 0x20 || b == 0x7f
}

/// Input that accepts the selection: a carriage return or a line feed alone.
pub open spec fn is_accept(inp: Seq<u8>) -> bool {
    inp == seq![0x0du8] || inp == seq![0x0au8]
}

/// Start of the character that holds byte `i` of `q`.
pub open spec fn char_start(q: Seq<u8>, i: int) -> int
    decreases i,
{
    if i <= 0 {
        0
    } else if is_continuation_byte(q[i]) {
        char_start(q, i - 1)
    } else {
        i
    }
}

/// `q` without its last character.
pub open spec fn without_last_char(q: Seq<u8>) -> Seq<u8> {
    if q.len() == 0 {
        q
    } else {
        q.take(char_start(q, q.len() - 1))
    }
}

/// The frame drawn for a selector state: the rows of the viewport below the
/// prompt row, then the cursor back on the prompt row after `> `.
#[verifier::opaque]
pub open spec fn frame_of(
    choices: Seq<String>,
    matches: Seq<MatchView>,
    query: Seq<u8>,
    height: int,
    selected: int,
    first: int,
) -> Seq<u8> {
    let cs = candidate_bytes(choices);
    let active = if query.len() == 0 { choices.len() as int } else { matches.len() as int };
    let vis = if height - 1 < active { height - 1 } else { active };
    if query.len() == 0 {
        plain_rows(cs, first, selected, vis) + clearline_seq() + move_up_seq(vis as nat) + prompt_seq()
    } else {
        let screen = if height - 1 < choices.len() { height - 1 } else { choices.len() as int };
        match_rows(cs, matches, first, selected, vis) + blank_rows(screen - vis) + clearline_seq()
            + move_up_seq(screen as nat) + prompt_seq()
    }
}

/// The interactive selector over a list of candidates.
pub struct Selector {
    terminal: Tty,
    choices: Vec<String>,
    matches: Vec<Match>,
    actions: ActionTable,
    height: usize,
    selected: usize,
    query: Vec<u8>,
    first_visible: usize,
}

impl Selector {
    pub closed spec fn choices(&self) -> Seq<String> {
        self.choices@
    }

    pub closed spec fn matches(&self) -> Seq<MatchView> {
        self.matches@.map_values(|m: Match| match_view(m))
    }

    pub closed spec fn query(&self) -> Seq<u8> {
        self.query@
    }

    pub closed spec fn selected(&self) -> int {
        self.selected as int
    }

    pub closed spec fn first_visible(&self) -> int {
        self.first_visible as int
    }

    pub closed spec fn height(&self) -> int {
        self.height as int
    }

    pub closed spec fn actions(&self) -> ActionTable {
        self.actions
    }

    /// What has been drawn and not yet flushed.
    pub closed spec fn output(&self) -> Seq<u8> {
        self.terminal.output()
    }

    pub closed spec fn max_height(&self) -> int {
        self.terminal.height() as int
    }

    /// Length of the active list: the matches while a query is typed, else
    /// all candidates.
    pub open spec fn active_len(&self) -> int {
        if self.query().len() == 0 {
            self.choices().len() as int
        } else {
            self.matches().len() as int
        }
    }

    /// Rows of the viewport that show entries of the active list.
    pub open spec fn visible_count(&self) -> int {
        if self.height() - 1 < self.active_len() {
            self.height() - 1
        } else {
            self.active_len()
        }
    }

    /// The frame drawn for this state (see `frame_of`).
    pub open spec fn frame(&self) -> Seq<u8> {
        frame_of(self.choices(), self.matches(), self.query(), self.height(), self.selected(), self.first_visible())
    }

    /// Everything of the invariant but the match list and the selection.
    closed spec fn base_wf(&self) -> bool {
        &&& 1 <= self.height <= self.terminal.height()
        &&& self.terminal.fg() == DEFAULT_FG
        &&& valid_utf8(self.query@)
    }

    /// The invariant, with the selection inside a non-empty viewport.
    pub closed spec fn wf(&self) -> bool {
        &&& self.wf_state()
        &&& self.visible_count() > 0 ==> self.first_visible <= self.selected < self.first_visible + self.visible_count()
    }

    /// The invariant but for the viewport, which a redraw moves to the selection.
    closed spec fn wf_state(&self) -> bool {
        &&& self.base_wf()
        &&& self.active_len() == 0 || self.first_visible + self.visible_count() <= self.active_len()
        &&& matches_for(self.choices@, self.query@, self.matches())
        &&& forall|k: int| 0 <= k < self.matches@.len() ==> ranges_within(
            (#[trigger] self.matches@[k]).ranges@,
            encode_utf8(self.choices@[self.matches@[k].index as int]@).len() as int,
        )
        &&& if self.active_len() == 0 {
            self.selected == 0
        } else {
            self.selected < self.active_len()
        }
    }

    /// A selector over `choices` drawn on `terminal`, with an empty query and
    /// the first candidate selected. The viewport height comes from
    /// `conf.window.height` and the terminal's height.
    pub fn new(terminal: Tty, choices: Vec<String>, conf: &Config) -> (r: Selector)
        requires
            terminal.height() >= 1,
            terminal.fg() == DEFAULT_FG,
        ensures
            r.wf(),
            r.choices() == choices@,
            r.query().len() == 0,
            r.matches().len() == 0,
            r.selected() == 0,
            r.first_visible() == 0,
            r.output() == terminal.output(),
            r.max_height() == terminal.height(),
            r.height() == (if conf.window.height > 0 {
                if conf.window.height < terminal.height() { conf.window.height as int } else { terminal.height() as int }
            } else {
                if terminal.height() + conf.window.height > 1 { terminal.height() + conf.window.height } else { 1 }
            }),
            r.actions()@.len() == 0,
    {
        proof {
            if conf.window.height <= 0 {
                assert(terminal.height() + conf.window.height <= terminal.height());
            }
        }
        let height = window_height(conf.window.height, terminal.max_height());
        let r = Selector {
            terminal,
            choices,
            matches: Vec::new(),
            actions: ActionTable::empty(),
            height,
            selected: 0,
            query: Vec::new(),
            first_visible: 0,
        };
        proof {
            assert(r.matches() =~= Seq::<MatchView>::empty());
            assert(valid_utf8(Seq::<u8>::empty())) by {
                reveal_with_fuel(valid_utf8, 1);
            }
        }
        r
    }

    /// Moves the viewport so that the selection is in it, then draws the frame.
    #[verifier::rlimit(100)]
    #[verifier::spinoff_prover]
    fn draw_options(&mut self)
        requires
            old(self).wf_state(),
        ensures
            final(self).wf(),
            final(self).first_visible() == scrolled(old(self).selected(), old(self).first_visible(), old(self).visible_count()),
            final(self).choices() == old(self).choices(),
            final(self).matches() == old(self).matches(),
            final(self).query() == old(self).query(),
            final(self).selected() == old(self).selected(),
            final(self).height() == old(self).height(),
            final(self).max_height() == old(self).max_height(),
            final(self).actions() == old(self).actions(),
            final(self).output() == old(self).output() + final(self).frame(),
    {
        let ghost base = self.terminal.output();
        let has_query = self.query.len() != 0;
        let option_count = if has_query { self.matches.len() } else { self.choices.len() };
        let vis: usize = if self.height - 1 < option_count { self.height - 1 } else { option_count };
        let first = scroll_to(self.selected, self.first_visible, vis);
        self.first_visible = first;
        proof {
            if vis > 0 {
                lemma_selection_visible(self.selected as int, old(self).first_visible as int, vis as int);
            }
        }
        let ghost cs = candidate_bytes(self.choices@);
        let ghost rows: Seq<u8>;
        if !has_query {
            draw_choices(&mut self.terminal, &self.choices, first, self.selected, vis);
            proof {
                rows = plain_rows(cs, first as int, self.selected as int, vis as int) + clearline_seq() + move_up_seq(vis as nat);
            }
        } else {
            let screen: usize = if self.height - 1 < self.choices.len() { self.height - 1 } else { self.choices.len() };
            proof {
                assert forall|k: int| 0 <= k < self.matches@.len() implies (#[trigger] self.matches@[k]).index < self.choices@.len() by {
                    assert(self.matches()[k] == match_view(self.matches@[k]));
                    assert(scored_as(self.choices@, decode_utf8(self.query@), self.matches()[k]));
                }
            }
            draw_matches(&mut self.terminal, &self.choices, &self.matches, first, self.selected, vis, screen);
            proof {
                rows = match_rows(cs, self.matches(), first as int, self.selected as int, vis as int) + blank_rows(screen - vis)
                    + clearline_seq() + move_up_seq(screen as nat);
            }
        }
        let ghost drawn = self.terminal.output();
        assert(drawn == base + rows);
        draw_prompt(&mut self.terminal);
        proof {
            reveal(frame_of);
            assert(self.frame() == rows + prompt_seq());
            assert(self.terminal.output() =~= base + self.frame());
        }
    }

    /// Same state, nothing drawn.
    pub open spec fn unchanged(&self, other: &Selector) -> bool {
        &&& other.choices() == self.choices()
        &&& other.matches() == self.matches()
        &&& other.query() == self.query()
        &&& other.selected() == self.selected()
        &&& other.first_visible() == self.first_visible()
        &&& other.height() == self.height()
        &&& other.max_height() == self.max_height()
        &&& other.actions() == self.actions()
        &&& other.output() == self.output()
    }

    /// `new` is this state with the selection moved to `sel`, redrawn with the
    /// query echoed after the prompt.
    pub open spec fn moved_to(&self, new: &Selector, sel: int) -> bool {
        &&& new.choices() == self.choices()
        &&& new.matches() == self.matches()
        &&& new.query() == self.query()
        &&& new.selected() == sel
        &&& new.first_visible() == scrolled(sel, self.first_visible(), self.visible_count())
        &&& new.height() == self.height()
        &&& new.max_height() == self.max_height()
        &&& new.actions() == self.actions()
        &&& new.output() == self.output() + new.frame() + new.query()
    }

    /// `new` has the query `q`, the matches ranked for it (a part of `wf`),
    /// the first entry selected, and was redrawn after `echo` was written.
    pub open spec fn rescored_to(&self, new: &Selector, q: Seq<u8>, echo: Seq<u8>) -> bool {
        &&& new.choices() == self.choices()
        &&& new.query() == q
        &&& new.selected() == 0
        &&& new.first_visible() == scrolled(0, 0, new.visible_count())
        &&& new.height() == self.height()
        &&& new.max_height() == self.max_height()
        &&& new.actions() == self.actions()
        &&& new.output() == self.output() + echo + new.frame() + new.query()
    }

    /// What a bound action (or none) does.
    pub open spec fn applied(&self, new: &Selector, a: Option<Action>) -> bool {
        match a {
            None => self.unchanged(new),
            Some(Action::SelectNext) => if self.selected() + 1 < self.active_len() {
                self.moved_to(new, self.selected() + 1)
            } else {
                self.unchanged(new)
            },
            Some(Action::SelectPrev) => if self.selected() > 0 {
                self.moved_to(new, self.selected() - 1)
            } else {
                self.unchanged(new)
            },
            Some(Action::Backspace) => if self.query().len() > 0 {
                self.rescored_to(new, without_last_char(self.query()), Seq::empty())
            } else {
                self.unchanged(new)
            },
        }
    }

    /// Draws the frame and echoes the query after the prompt.
    fn redraw(&mut self)
        requires
            old(self).wf_state(),
        ensures
            final(self).wf(),
            final(self).first_visible() == scrolled(old(self).selected(), old(self).first_visible(), old(self).visible_count()),
            final(self).choices() == old(self).choices(),
            final(self).matches() == old(self).matches(),
            final(self).query() == old(self).query(),
            final(self).selected() == old(self).selected(),
            final(self).height() == old(self).height(),
            final(self).max_height() == old(self).max_height(),
            final(self).actions() == old(self).actions(),
            final(self).output() == old(self).output() + final(self).frame() + final(self).query(),
    {
        self.draw_options();
        self.terminal.write_bytes(self.query.as_slice());
    }

    /// Ranks the candidates for the current query, selects the first entry
    /// and redraws.
    fn update_matches(&mut self)
        requires
            old(self).base_wf(),
        ensures
            final(self).wf(),
            old(self).rescored_to(final(self), old(self).query(), Seq::empty()),
    {
        self.matches = ranked_matches(&self.choices, &self.query);
        self.selected = 0;
        self.first_visible = 0;
        proof {
            assert(self.matches() == matches_view(self.matches@));
        }
        let ghost before = self.terminal.output();
        self.redraw();
        proof {
            assert(before + Seq::<u8>::empty() == before);
        }
    }

    fn select_next(&mut self)
        requires
            old(self).wf(),
        ensures
            final(self).wf(),
            old(self).applied(final(self), Some(Action::SelectNext)),
    {
        let active = if self.query.len() == 0 { self.choices.len() } else { self.matches.len() };
        if self.selected + 1 < active {
            self.selected = self.selected + 1;
            self.redraw();
        }
    }

    fn select_prev(&mut self)
        requires
            old(self).wf(),
        ensures
            final(self).wf(),
            old(self).applied(final(self), Some(Action::SelectPrev)),
    {
        if self.selected > 0 {
            self.selected = self.selected - 1;
            self.redraw();
        }
    }

    fn backspace(&mut self)
        requires
            old(self).wf(),
        ensures
            final(self).wf(),
            old(self).applied(final(self), Some(Action::Backspace)),
    {
        let len = self.query.len();
        if len == 0 {
            return;
        }
        let ghost q = self.query@;
        let mut i: usize = len - 1;
        while i > 0 && self.query[i] >= 0x80 && self.query[i] <= 0xbf
            invariant
                i < len == q.len(),
                q == self.query@,
                char_start(q, i as int) == char_start(q, len - 1),
            decreases i,
        {
            i = i - 1;
        }
        proof {
            if i > 0 {
                vstd::utf8::is_char_boundary_iff_not_is_continuation_byte(q, i as int);
            }
            vstd::utf8::valid_utf8_split(q, i as int);
            assert(q.subrange(0, i as int) == q.take(i as int));
        }
        self.query.truncate(i);
        assert(self.query@ == without_last_char(q));
        self.update_matches();
    }

    fn type_text(&mut self, text: &[u8])
        requires
            old(self).wf(),
            valid_utf8(text@),
        ensures
            final(self).wf(),
            old(self).rescored_to(final(self), old(self).query() + text@, text@),
    {
        proof {
            vstd::utf8::valid_utf8_concat(self.query@, text@);
        }
        crate::tty::push_range(&mut self.query, text, 0, text.len());
        assert(text@.subrange(0, text@.len() as int) == text@);
        self.terminal.write_bytes(text);
        self.update_matches();
    }

    /// Installs the key bindings (user bindings, keys already read as control
    /// bytes, over the built-in ones) and draws the first frame.
    pub fn start(&mut self, bindings: &Vec<(Vec<u8>, String)>) -> (r: Result<(), ConfigError>)
        requires
            old(self).wf(),
        ensures
            final(self).wf(),
            r is Ok <==> forall|i: int| 0 <= i < bindings@.len() ==> (#[trigger] crate::keys::action_named(bindings@[i].1@)) is Some,
            r is Ok ==> {
                &&& forall|key: Seq<u8>| #[trigger] final(self).actions().action_of(key) == bound_action(bindings_view(bindings@), key)
                &&& final(self).choices() == old(self).choices()
                &&& final(self).matches() == old(self).matches()
                &&& final(self).query() == old(self).query()
                &&& final(self).selected() == old(self).selected()
                &&& final(self).first_visible() == scrolled(old(self).selected(), old(self).first_visible(), old(self).visible_count())
                &&& final(self).output() == old(self).output() + final(self).frame()
            },
            r is Err ==> old(self).unchanged(final(self)),
    {
        let actions = build_actions(bindings)?;
        self.actions = actions;
        self.draw_options();
        Ok(())
    }

    /// Handles one read from the terminal: a buffer whose bytes before the
    /// first zero are the input, and whose first byte is zero when the read
    /// was interrupted by a signal.
    ///
    /// A signal redraws the frame and the query, keeping the selection and
    /// the query. Input that is not UTF-8 is an error. A carriage return or a
    /// line feed accepts the selected entry of the active list, if there is
    /// one. Input that starts with a control character runs the action bound
    /// to it, if any. Any other input is appended to the query and echoed,
    /// then the candidates are ranked again.
    pub fn handle_input(&mut self, data: [u8; 5]) -> (r: Result<Step, InputError>)
        requires
            old(self).wf(),
        ensures
            final(self).wf(),
            data@[0] == 0 ==> (r matches Ok(Step::Continue)) && old(self).moved_to(final(self), old(self).selected()),
            data@[0] != 0 && !valid_utf8(input_bytes(data@)) ==> r == Err::<Step, InputError>(InputError::InvalidUtf8)
                && old(self).unchanged(final(self)),
            data@[0] != 0 && valid_utf8(input_bytes(data@)) && is_accept(input_bytes(data@)) ==> {
                &&& old(self).unchanged(final(self))
                &&& if old(self).active_len() == 0 {
                    r matches Ok(Step::Continue)
                } else {
                    r matches Ok(Step::Accept(s)) && s@ == (if old(self).query().len() == 0 {
                        old(self).choices()[old(self).selected()]@
                    } else {
                        old(self).choices()[old(self).matches()[old(self).selected()].index]@
                    })
                }
            },
            data@[0] != 0 && valid_utf8(input_bytes(data@)) && !is_accept(input_bytes(data@))
                && is_control(data@[0]) ==> (r matches Ok(Step::Continue))
                && old(self).applied(final(self), old(self).actions().action_of(input_bytes(data@))),
            data@[0] != 0 && valid_utf8(input_bytes(data@)) && !is_accept(input_bytes(data@))
                && !is_control(data@[0]) ==> (r matches Ok(Step::Continue))
                && old(self).rescored_to(final(self), old(self).query() + input_bytes(data@), input_bytes(data@)),
    {
        if data[0] == 0 {
            self.redraw();
            return Ok(Step::Continue);
        }
        let mut n: usize = 0;
        while n < 5 && data[n] != 0
            invariant
                n <= 5,
                data@.len() == 5,
                nul_index(data@, n as int) == nul_index(data@, 0),
            decreases 5 - n,
        {
            n = n + 1;
        }
        let inp = data.as_slice().split_at(n).0;
        assert(inp@ == input_bytes(data@));
        if !crate::scorer::utf8_string(inp).is_some() {
            return Err(InputError::InvalidUtf8);
        }
        if n == 1 && (data[0] == 0x0d || data[0] == 0x0a) {
            assert(inp@ =~= seq![data@[0]]);
            let active = if self.query.len() == 0 { self.choices.len() } else { self.matches.len() };
            if active == 0 {
                return Ok(Step::Continue);
            }
            let idx = if self.query.len() == 0 {
                self.selected
            } else {
                proof {
                    assert(self.matches()[self.selected as int] == match_view(self.matches@[self.selected as int]));
                    assert(scored_as(self.choices@, decode_utf8(self.query@), self.matches()[self.selected as int]));
                }
                self.matches[self.selected].index
            };
            return Ok(Step::Accept(self.choices[idx].clone()));
        }
        proof {
            if is_accept(inp@) {
                assert(inp@.len() == 1);
            }
        }
        if data[0] < 0x20 || data[0] == 0x7f {
            match self.actions.lookup(inp) {
                Some(Action::SelectNext) => self.select_next(),
                Some(Action::SelectPrev) => self.select_prev(),
                Some(Action::Backspace) => self.backspace(),
                None => {},
            }
            return Ok(Step::Continue);
        }
        self.type_text(inp);
        Ok(Step::Continue)
    }

    /// Hands out what has been drawn since the last flush.
    pub fn flush(&mut self) -> (r: Vec<u8>)
        requires
            old(self).wf(),
        ensures
            final(self).wf(),
            r@ == old(self).output(),
            final(self).output() == Seq::<u8>::empty(),
            final(self).choices() == old(self).choices(),
            final(self).matches() == old(self).matches(),
            final(self).query() == old(self).query(),
            final(self).selected() == old(self).selected(),
            final(self).first_visible() == old(self).first_visible(),
            final(self).height() == old(self).height(),
            final(self).actions() == old(self).actions(),
    {
        self.terminal.flush()
    }

    /// Gives the terminal back, for the release sequence.
    pub fn into_terminal(self) -> (r: Tty)
        requires
            self.wf(),
        ensures
            r.output() == self.output(),
            r.fg() == DEFAULT_FG,
            r.height() == self.max_height(),
    {
        self.terminal
    }

    /// An empty active list leaves the selection on 0, and its frame draws no
    /// entry: only cleared rows (as many as the candidates once took, while a
    /// query is typed), then the prompt.
    pub proof fn lemma_empty_active(&self)
        requires
            self.wf(),
            self.active_len() == 0,
        ensures
            self.selected() == 0,
            self.frame() == ({
                let screen = if self.query().len() == 0 {
                    0
                } else if self.height() - 1 < self.choices().len() {
                    self.height() - 1
                } else {
                    self.choices().len() as int
                };
                blank_rows(screen) + clearline_seq() + move_up_seq(screen as nat) + prompt_seq()
            }),
    {
        reveal(frame_of);
        assert(plain_rows(candidate_bytes(self.choices()), self.first_visible(), self.selected(), 0) == blank_rows(0));
        assert(match_rows(candidate_bytes(self.choices()), self.matches(), self.first_visible(), self.selected(), 0)
            + blank_rows(self.height() - 1) =~= blank_rows(self.height() - 1));
        if self.query().len() != 0 {
            let screen = if self.height() - 1 < self.choices().len() { self.height() - 1 } else { self.choices().len() as int };
            assert(match_rows(candidate_bytes(self.choices()), self.matches(), self.first_visible(), self.selected(), 0)
                + blank_rows(screen) =~= blank_rows(screen));
        } else {
            assert(plain_rows(candidate_bytes(self.choices()), self.first_visible(), self.selected(), 0) + clearline_seq()
                =~= blank_rows(0) + clearline_seq());
        }
    }

    /// The match list is ordered by descending score.
    pub proof fn lemma_scores_descend(&self, a: int, b: int)
        requires
            self.wf(),
            0 <= a < b < self.matches().len(),
        ensures
            self.matches()[a].score >= self.matches()[b].score,
            self.query().len() > 0,
    {
    }

    /// In every state that the selector reaches, a viewport that shows any
    /// entry shows the selected one: `first_visible <= selected <
    /// first_visible + visible_count`.
    pub proof fn lemma_selection_in_viewport(&self)
        requires
            self.wf(),
        ensures
            self.visible_count() > 0 ==> 0 <= self.first_visible() <= self.selected() < self.first_visible() + self.visible_count(),
    {
    }
}

} // verus!
