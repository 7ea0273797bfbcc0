//! Scored candidates and the bounded best-first list.
//!
//! Search keeps its frontier and its result set as short vectors sorted
//! best-first; ties are broken by the lower point id so that every
//! ordering decision is deterministic.

use vstd::prelude::*;

verus! {

/// A point id paired with its score against the current query.
#[derive(Debug, Clone, Copy, PartialEq, Eq, Structural)]
pub struct ScoredPoint {
    pub idx: usize,
    pub score: i64,
}

/// Strict priority order: higher score first, lower id on equal score.
pub open spec fn wins(a: ScoredPoint, b: ScoredPoint) -> bool {
    a.score > b.score || (a.score == b.score && a.idx < b.idx)
}

/// The same priority order over mathematical scores, for contracts that
/// compare points that never became a [`ScoredPoint`].
pub open spec fn beats(s1: int, i1: int, s2: int, i2: int) -> bool {
    s1 > s2 || (s1 == s2 && i1 < i2)
}

/// The list is strictly sorted best-first.
pub open spec fn sorted_by_score(s: Seq<ScoredPoint>) -> bool {
    forall|i: int, j: int| 0 <= i < j < s.len() ==> wins(#[trigger] s[i], #[trigger] s[j])
}

/// No point id occurs twice.
pub open spec fn distinct_ids(s: Seq<ScoredPoint>) -> bool {
    forall|i: int, j: int| 0 <= i < j < s.len() ==> (#[trigger] s[i]).idx != (#[trigger] s[j]).idx
}

/// The list mentions the id.
pub open spec fn contains_id(s: Seq<ScoredPoint>, id: int) -> bool {
    exists|i: int| 0 <= i < s.len() && (#[trigger] s[i]).idx == id
}

/// Sorted insertion: place `c` behind every entry that wins over it.
pub open spec fn spec_ins(s: Seq<ScoredPoint>, c: ScoredPoint) -> Seq<ScoredPoint>
    decreases s.len(),
{
    if s.len() == 0 {
        seq![c]
    } else if wins(s[0], c) {
        seq![s[0]] + spec_ins(s.drop_first(), c)
    } else {
        seq![c] + s
    }
}

/// What a bounded insertion leaves behind: the sorted insertion of `c`,
/// cut back to the capacity.
pub open spec fn spec_insert_bounded(s: Seq<ScoredPoint>, c: ScoredPoint, cap: int) -> Seq<
    ScoredPoint,
> {
    if s.len() + 1 <= cap {
        spec_ins(s, c)
    } else {
        spec_ins(s, c).take(cap)
    }
}

/// Sorted insertion at the position the leading winners dictate.
proof fn lemma_spec_ins_at(s: Seq<ScoredPoint>, c: ScoredPoint, pos: int)
    requires
        0 <= pos <= s.len(),
        forall|k: int| 0 <= k < pos ==> wins(#[trigger] s[k], c),
        pos < s.len() ==> wins(c, s[pos as int]),
    ensures
        spec_ins(s, c) == s.insert(pos, c),
    decreases s.len(),
{
    if s.len() == 0 {
        assert(spec_ins(s, c) =~= s.insert(0, c));
    } else if pos == 0 {
        assert(!wins(s[0], c));
        assert(spec_ins(s, c) =~= s.insert(0, c));
    } else {
        assert(wins(s[0], c));
        let tail = s.drop_first();
        assert forall|k: int| 0 <= k < pos - 1 implies wins(#[trigger] tail[k], c) by {
            assert(tail[k] == s[k + 1]);
        }
        if pos - 1 < tail.len() {
            assert(tail[pos - 1] == s[pos as int]);
        }
        lemma_spec_ins_at(tail, c, pos - 1);
        assert(spec_ins(s, c) =~= s.insert(pos, c));
    }
}

/// Whether `a` precedes `b` in the priority order, decided in code.
pub fn wins_exec(a: &ScoredPoint, b: &ScoredPoint) -> (r: bool)
    ensures
        r == wins(*a, *b),
{
    a.score > b.score || (a.score == b.score && a.idx < b.idx)
}

/// Insert `c` into the sorted list `buf`, keeping at most `cap` entries.
/// When the list is full, exactly the worst of the old entries and `c`
/// is left out: the head becomes the better of `c` and the old head,
/// every old entry but the last survives, and the old last entry is
/// evicted precisely when `c` beats it.
pub fn insert_bounded(buf: &mut Vec<ScoredPoint>, c: ScoredPoint, cap: usize)
    requires
        cap >= 1,
        sorted_by_score(old(buf)@),
        distinct_ids(old(buf)@),
        old(buf)@.len() <= cap,
        !contains_id(old(buf)@, c.idx as int),
    ensures
        sorted_by_score(final(buf)@),
        distinct_ids(final(buf)@),
        final(buf)@.len() == if old(buf)@.len() < cap {
            old(buf)@.len() + 1
        } else {
            cap as nat
        },
        forall|i: int|
            0 <= i < final(buf)@.len() ==> old(buf)@.contains(#[trigger] final(buf)@[i])
                || final(buf)@[i] == c,
        final(buf)@[0] == if old(buf)@.len() == 0 || wins(c, old(buf)@[0]) {
            c
        } else {
            old(buf)@[0]
        },
        old(buf)@.len() < cap ==> final(buf)@.contains(c),
        forall|i: int|
            0 <= i < old(buf)@.len() && (old(buf)@.len() < cap || i < old(buf)@.len() - 1)
                ==> final(buf)@.contains(#[trigger] old(buf)@[i]),
        old(buf)@.len() == cap ==> (final(buf)@.contains(c) <==> wins(c, old(buf)@.last())),
        final(buf)@ == spec_insert_bounded(old(buf)@, c, cap as int),
{
    let ghost prev = buf@;
    let mut pos: usize = 0;
    while pos < buf.len() && wins_exec(&buf[pos as usize], &c)
        invariant
            pos <= buf@.len(),
            buf@ == prev,
            forall|k: int| 0 <= k < pos ==> wins(#[trigger] buf@[k], c),
        decreases buf@.len() - pos,
    {
        pos = pos + 1;
    }
    proof {
        // Beyond `pos`, `c` wins: the order is total on distinct ids.
        assert forall|k: int| pos <= k < prev.len() implies wins(c, #[trigger] prev[k]) by {
            if pos < prev.len() {
                assert(!wins(prev[pos as int], c));
                assert(prev[pos as int].idx != c.idx);
                assert(wins(c, prev[pos as int]));
                if k > pos {
                    assert(wins(prev[pos as int], prev[k]));
                }
            }
        }
    }
    if pos >= cap {
        // `c` loses to `cap` better entries; the list is already full.
        proof {
            assert(wins(prev[0], c));
            assert(wins(prev.last(), c));
            assert(!buf@.contains(c)) by {
                if buf@.contains(c) {
                    let j = choose|j: int| 0 <= j < buf@.len() && buf@[j] == c;
                    assert(contains_id(prev, c.idx as int));
                }
            }
            assert forall|i: int| 0 <= i < prev.len() implies buf@.contains(
                #[trigger] prev[i],
            ) by {
                assert(buf@[i] == prev[i]);
            }
            lemma_spec_ins_at(prev, c, prev.len() as int);
            assert(spec_insert_bounded(prev, c, cap as int) =~= buf@);
        }
        return ;
    }
    buf.insert(pos, c);
    proof {
        assert(buf@ =~= prev.insert(pos as int, c));
        assert forall|i: int, j: int| 0 <= i < j < buf@.len() implies wins(
            #[trigger] buf@[i],
            #[trigger] buf@[j],
        ) by {
            let pi = pos as int;
            if i < pi && j < pi {
            } else if i < pi && j == pi {
            } else if i < pi && j > pi {
                assert(buf@[j] == prev[j - 1]);
            } else if i == pi {
                assert(buf@[j] == prev[j - 1]);
            } else {
                assert(buf@[i] == prev[i - 1]);
                assert(buf@[j] == prev[j - 1]);
            }
        }
        assert forall|i: int, j: int| 0 <= i < j < buf@.len() implies (#[trigger] buf@[i]).idx
            != (#[trigger] buf@[j]).idx by {
            if buf@[i].idx == buf@[j].idx {
                assert(wins(buf@[i], buf@[j]));
            }
        }
        assert forall|i: int| 0 <= i < buf@.len() implies prev.contains(#[trigger] buf@[i])
            || buf@[i] == c by {
            let pi = pos as int;
            if i < pi {
                assert(buf@[i] == prev[i]);
            } else if i > pi {
                assert(buf@[i] == prev[i - 1]);
            }
        }
    }
    if buf.len() > cap {
        let ghost mid = buf@;
        buf.truncate(cap);
        proof {
            assert(buf@ =~= mid.subrange(0, cap as int));
        }
    }
    proof {
        let fin = buf@;
        let pi = pos as int;
        assert(fin[0] == if prev.len() == 0 || wins(c, prev[0]) {
            c
        } else {
            prev[0]
        }) by {
            if pi == 0 {
                assert(fin[0] == c);
                if prev.len() > 0 {
                    assert(wins(c, prev[0]));
                }
            } else {
                assert(wins(prev[0], c));
                assert(fin[0] == prev[0]);
            }
        }
        assert(fin.contains(c)) by {
            assert(fin[pi] == c);
        }
        assert forall|i: int|
            0 <= i < prev.len() && (prev.len() < cap || i < prev.len() - 1) implies fin.contains(
            #[trigger] prev[i],
        ) by {
            if i < pi {
                assert(fin[i] == prev[i]);
            } else {
                assert(fin[i + 1] == prev[i]);
            }
        }
        if prev.len() == cap {
            assert(wins(c, prev.last()));
        }
        lemma_spec_ins_at(prev, c, pi);
        assert(fin =~= spec_insert_bounded(prev, c, cap as int));
    }
}

} // verus!
