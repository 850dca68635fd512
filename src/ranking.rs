//! Ranking of the candidates against a query: the scorer's matches, by
//! descending score, ties in candidate order.

use vstd::prelude::*;
use vstd::utf8::{decode_utf8, encode_utf8, valid_utf8};
use crate::scorer::{best_match_of, ranges_within, score_candidate, utf8_string};
use crate::selector::{match_view, matches_for, matches_view, ranked, ranking_of, ranks_before, scored_as, Match, MatchView};

verus! {

proof fn lemma_insert_ranked(old_v: Seq<MatchView>, pos: int, m: MatchView, choices: Seq<String>, q: Seq<char>, n: int)
    requires
        0 <= pos <= old_v.len(),
        ranking_of(choices, q, n, old_v),
        ranked(old_v.insert(pos, m)),
        m.index == n,
        scored_as(choices, q, m),
    ensures
        ranking_of(choices, q, n + 1, old_v.insert(pos, m)),
{
    let nv = old_v.insert(pos, m);
    assert forall|k: int| 0 <= k < nv.len() implies (#[trigger] nv[k]).index < n + 1 && scored_as(choices, q, nv[k]) by {
        if k < pos {
            assert(nv[k] == old_v[k]);
        } else if k > pos {
            assert(nv[k] == old_v[k - 1]);
        }
    }
    assert forall|i: int| 0 <= i < n + 1 && (#[trigger] best_match_of(q, choices[i]@)) is Some
        implies exists|k: int| 0 <= k < nv.len() && (#[trigger] nv[k]).index == i by {
        if i == n {
            assert(nv[pos].index == i);
        } else {
            let k = choose|k: int| 0 <= k < old_v.len() && (#[trigger] old_v[k]).index == i;
            if k < pos {
                assert(nv[k].index == i);
            } else {
                assert(nv[k + 1].index == i);
            }
        }
    }
}

/// The first index at or after `k` whose entry scores below `score`, or the
/// length of `ms`.
pub open spec fn below_position(ms: Seq<MatchView>, score: int, k: int) -> int
    decreases ms.len() - k,
{
    if k < 0 || k >= ms.len() {
        ms.len() as int
    } else if ms[k].score < score {
        k
    } else {
        below_position(ms, score, k + 1)
    }
}

proof fn lemma_below_position_bound(ms: Seq<MatchView>, score: int, k: int)
    requires
        0 <= k <= ms.len(),
    ensures
        k <= below_position(ms, score, k) <= ms.len(),
    decreases ms.len() - k,
{
    if k < ms.len() && ms[k].score >= score {
        lemma_below_position_bound(ms, score, k + 1);
    }
}

/// Inserts `m` into a ranked match list: after every entry that scores at
/// least as high, before the first that scores lower. With `m` the latest
/// candidate, the list stays ranked.
pub fn insert_ranked(ms: &mut Vec<Match>, m: Match)
    requires
        ranked(matches_view(old(ms)@)),
        forall|k: int| 0 <= k < old(ms)@.len() ==> (#[trigger] old(ms)@[k]).index < m.index,
    ensures
        final(ms)@ == old(ms)@.insert(below_position(matches_view(old(ms)@), m.score as int, 0), m),
        ranked(matches_view(final(ms)@)),
{
    let ghost v = matches_view(ms@);
    let ghost mv = match_view(m);
    let mut pos: usize = 0;
    while pos < ms.len() && ms[pos].score >= m.score
        invariant
            pos <= ms@.len(),
            v == matches_view(ms@),
            ms@ == old(ms)@,
            below_position(v, m.score as int, pos as int) == below_position(v, m.score as int, 0),
            forall|k: int| 0 <= k < pos ==> (#[trigger] ms@[k]).score >= m.score,
        decreases ms@.len() - pos,
    {
        pos = pos + 1;
    }
    proof {
        assert forall|a: int, b: int| 0 <= a < b <= v.len() implies ranks_before(
            #[trigger] v.insert(pos as int, mv)[a],
            #[trigger] v.insert(pos as int, mv)[b],
        ) by {
            let nv = v.insert(pos as int, mv);
            if b < pos {
                assert(nv[a] == v[a] && nv[b] == v[b]);
            } else if b == pos {
                assert(nv[a] == v[a]);
                assert(v[a] == match_view(ms@[a]));
            } else if a < pos {
                assert(nv[a] == v[a] && nv[b] == v[b - 1]);
            } else if a == pos {
                assert(nv[b] == v[b - 1]);
                assert(v[pos as int] == match_view(ms@[pos as int]));
                assert(v[b - 1] == match_view(ms@[b - 1]));
                if b - 1 > pos {
                    assert(ranks_before(v[pos as int], v[b - 1]));
                }
            } else {
                assert(nv[a] == v[a - 1] && nv[b] == v[b - 1]);
            }
        }
    }
    ms.insert(pos, m);
    proof {
        assert(matches_view(ms@) =~= v.insert(pos as int, mv));
    }
}

/// Ranks `choices` against `query` (UTF-8 bytes): the candidates that the
/// scorer matches, by descending score, ties in candidate order. An empty
/// query matches nothing.
#[verifier::rlimit(40)]
pub fn ranked_matches(choices: &Vec<String>, query: &Vec<u8>) -> (r: Vec<Match>)
    requires
        valid_utf8(query@),
    ensures
        matches_for(choices@, query@, matches_view(r@)),
        forall|k: int| 0 <= k < r@.len() ==> ranges_within(
            (#[trigger] r@[k]).ranges@,
            encode_utf8(choices@[r@[k].index as int]@).len() as int,
        ),
{
    let mut ms: Vec<Match> = Vec::new();
    if query.len() == 0 {
        proof {
            assert(matches_view(ms@) =~= Seq::<MatchView>::empty());
        }
        return ms;
    }
    let q = match utf8_string(query.as_slice()) {
        Some(q) => q,
        None => {
            return ms;
        },
    };
    let ghost qc = decode_utf8(query@);
    proof {
        vstd::utf8::encode_utf8_decode_utf8(q@);
    }
    assert(q@ == qc);
    proof {
        assert(matches_view(ms@) =~= Seq::<MatchView>::empty());
    }
    let mut i: usize = 0;
    while i < choices.len()
        invariant
            i <= choices@.len(),
            q@ == qc,
            ranking_of(choices@, qc, i as int, matches_view(ms@)),
            forall|k: int| 0 <= k < ms@.len() ==> ranges_within(
                (#[trigger] ms@[k]).ranges@,
                encode_utf8(choices@[ms@[k].index as int]@).len() as int,
            ),
        decreases choices@.len() - i,
    {
        match score_candidate(q.as_str(), choices[i].as_str()) {
            Some((score, ranges)) => {
                let ghost old_ms = ms@;
                let m = Match { index: i, score, ranges };
                let ghost mv = match_view(m);
                proof {
                    assert forall|k: int| 0 <= k < old_ms.len() implies (#[trigger] old_ms[k]).index < m.index by {
                        assert(matches_view(old_ms)[k] == match_view(old_ms[k]));
                    }
                }
                insert_ranked(&mut ms, m);
                let ghost pos = below_position(matches_view(old_ms), mv.score, 0);
                proof {
                    lemma_below_position_bound(matches_view(old_ms), mv.score, 0);
                    assert(matches_view(ms@) =~= matches_view(old_ms).insert(pos, mv));
                    assert(scored_as(choices@, qc, mv));
                    lemma_insert_ranked(matches_view(old_ms), pos, mv, choices@, qc, i as int);
                    assert(matches_view(ms@) =~= matches_view(old_ms).insert(pos, mv));
                    assert forall|k: int| 0 <= k < ms@.len() implies ranges_within(
                        (#[trigger] ms@[k]).ranges@,
                        encode_utf8(choices@[ms@[k].index as int]@).len() as int,
                    ) by {
                        if k < pos {
                            assert(ms@[k] == old_ms[k]);
                        } else if k > pos {
                            assert(ms@[k] == old_ms[k - 1]);
                        } else {
                            assert(ms@[k] == m);
                        }
                    }
                }
            },
            None => {
                proof {
                    let v = matches_view(ms@);
                    assert forall|j: int| 0 <= j < i + 1 && (#[trigger] best_match_of(qc, choices@[j]@)) is Some
                        implies exists|k: int| 0 <= k < v.len() && (#[trigger] v[k]).index == j by {
                    }
                }
            },
        }
        i = i + 1;
    }
    ms
}

} // verus!
