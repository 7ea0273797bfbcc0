//! Entry-point bookkeeping: the anchor that seeds greedy search.
//!
//! One current-best entry per build is enough for correctness: any point
//! present at the top layer gives connectivity, a poor choice only costs
//! extra hops. The entry is never removed once set, only superseded by a
//! point reaching a strictly higher layer.

use vstd::prelude::*;

verus! {

/// A known point at a known layer, used to seed greedy search.
#[derive(Debug, Clone, Copy, PartialEq, Eq, Structural)]
pub struct EntryPoint {
    pub point_id: usize,
    pub level: usize,
}

/// The entry after registering point `id` at layer `level` on top of
/// `prev`: the first point to reach each new record height stays.
pub open spec fn spec_new_entry(
    prev: Option<EntryPoint>,
    id: usize,
    level: usize,
) -> Option<EntryPoint> {
    match prev {
        None => Some(EntryPoint { point_id: id, level }),
        Some(e) => if level > e.level {
            Some(EntryPoint { point_id: id, level })
        } else {
            Some(e)
        },
    }
}

/// The entry left behind after registering points `0 .. levels.len()`
/// in order, point `k` at layer `levels[k]`.
pub open spec fn spec_entry_after(levels: Seq<usize>) -> Option<EntryPoint>
    decreases levels.len(),
{
    if levels.len() == 0 {
        None
    } else {
        spec_new_entry(
            spec_entry_after(levels.drop_last()),
            (levels.len() - 1) as usize,
            levels.last(),
        )
    }
}

/// Registering one more point extends the entry fold by one step.
pub proof fn lemma_entry_after_push(levels: Seq<usize>, lvl: usize)
    ensures
        spec_entry_after(levels.push(lvl)) == spec_new_entry(
            spec_entry_after(levels),
            levels.len() as usize,
            lvl,
        ),
{
    assert(levels.push(lvl).drop_last() =~= levels);
    assert(levels.push(lvl).last() == lvl);
}

/// Tracks the current best entry point of a build.
pub struct EntryPoints {
    pub best: Option<EntryPoint>,
}

impl EntryPoints {
    /// An empty registry: no point exists yet.
    pub fn new() -> (r: Self)
        ensures
            r.best is None,
    {
        EntryPoints { best: None }
    }

    /// Register a new point and return the entry it should descend from:
    /// the best entry existing before it. The point becomes the entry
    /// itself when it reaches a strictly higher layer than any before.
    pub fn new_point(&mut self, point_id: usize, level: usize) -> (r: Option<EntryPoint>)
        ensures
            r == old(self).best,
            final(self).best == spec_new_entry(old(self).best, point_id, level),
    {
        let prev = self.best;
        match prev {
            None => {
                self.best = Some(EntryPoint { point_id, level });
            },
            Some(e) => {
                if level > e.level {
                    self.best = Some(EntryPoint { point_id, level });
                }
            },
        }
        prev
    }
}

} // verus!
