//! The accelerator offload path: the same insertion algorithm, run
//! level by level over explicit staging buffers instead of point by
//! point.
//!
//! [`GpuBuilderContext`] models the host-visible buffers of the offload
//! protocol: a per-point current-entry table, a work list uploaded per
//! pass together with its length, and the per-pass result that is
//! applied back into the authoritative link table before the next level
//! begins (the level barrier). Layers are drawn for all points up
//! front, so the per-point start entries are known before any linking
//! work starts, and within a level points are applied in ascending id
//! order — the serialization that makes the result identical to the
//! sequential builder's.

use vstd::prelude::*;

use crate::builder::{check_vectors, GraphLayersBuilder, HnswParams};
use crate::entry_points::{lemma_entry_after_push, spec_entry_after};
use crate::errors::HnswError;
use crate::graph_links::GraphLinks;
use crate::rng::{spec_level_of, spec_state_after};
use crate::scoring::coord_ok;
use crate::search::{is_linked_at, list_at};

verus! {

/// Host-side staging buffers of the offload protocol.
pub struct GpuBuilderContext {
    /// Per-point current entry: the anchor each point descends from,
    /// updated as passes complete (the requests buffer).
    pub requests: Vec<Option<usize>>,
    /// Ids to process in the current pass (the process-points buffer).
    pub process_points: Vec<usize>,
    /// Length of the work list, uploaded alongside it.
    pub processed_count: usize,
    /// Worst-case width of one point's link result: its selected
    /// neighbors plus the point and a length slot.
    pub response_stride: usize,
}

impl GpuBuilderContext {
    /// Allocate the buffers for a build of `points_count` points with
    /// up to `threads_count` work items per pass. The degree parameter
    /// `m` bounds the width of one pass's link result.
    pub fn new(m: usize, points_count: usize, threads_count: usize) -> (r: Self)
        requires
            m <= 1000000,
        ensures
            r.requests@.len() == points_count,
            forall|i: int| 0 <= i < points_count ==> (#[trigger] r.requests@[i]) is None,
            r.process_points@.len() == 0,
            r.processed_count == 0,
            r.response_stride == m + 2,
    {
        let mut requests: Vec<Option<usize>> = Vec::new();
        let mut i: usize = 0;
        while i < points_count
            invariant
                i <= points_count,
                requests@.len() == i,
                forall|k: int| 0 <= k < i ==> (#[trigger] requests@[k]) is None,
            decreases points_count - i,
        {
            requests.push(None);
            i = i + 1;
        }
        GpuBuilderContext {
            requests,
            process_points: Vec::with_capacity(threads_count),
            processed_count: 0,
            response_stride: m + 2,
        }
    }

    /// Upload the per-point entry table into the requests buffer.
    pub fn upload_entries(&mut self, entries: &Vec<Option<usize>>)
        ensures
            final(self).requests@ == entries@,
            final(self).process_points@ == old(self).process_points@,
            final(self).processed_count == old(self).processed_count,
            final(self).response_stride == old(self).response_stride,
    {
        let mut fresh: Vec<Option<usize>> = Vec::new();
        let mut i: usize = 0;
        while i < entries.len()
            invariant
                i <= entries@.len(),
                fresh@ =~= entries@.take(i as int),
            decreases entries@.len() - i,
        {
            fresh.push(entries[i]);
            proof {
                assert(fresh@ =~= entries@.take(i + 1));
            }
            i = i + 1;
        }
        proof {
            assert(fresh@ =~= entries@);
        }
        self.requests = fresh;
    }

    /// Upload a work list and its length for the next pass.
    pub fn upload_process_points(&mut self, points: &Vec<usize>)
        ensures
            final(self).process_points@ == points@,
            final(self).processed_count == points@.len(),
            final(self).requests@ == old(self).requests@,
            final(self).response_stride == old(self).response_stride,
    {
        let mut fresh: Vec<usize> = Vec::new();
        let mut i: usize = 0;
        while i < points.len()
            invariant
                i <= points@.len(),
                fresh@ =~= points@.take(i as int),
            decreases points@.len() - i,
        {
            fresh.push(points[i]);
            proof {
                assert(fresh@ =~= points@.take(i + 1));
            }
            i = i + 1;
        }
        proof {
            assert(fresh@ =~= points@);
        }
        self.process_points = fresh;
        self.processed_count = self.process_points.len();
    }
}

/// Two graphs whose layers are both pinned to the layer-assignment
/// function of the same seed and degree parameter — a sequential build
/// and an offload build of the same input, or any two builds of the
/// same input — have identical layers and identical entry points.
pub proof fn lemma_layer_assignment_agrees(g1: GraphLinks, g2: GraphLinks, seed: u64, m: u64)
    requires
        g1.levels@.len() == g2.levels@.len(),
        forall|k: int|
            0 <= k < g1.levels@.len() ==> (#[trigger] g1.levels@[k]) == spec_level_of(
                seed,
                m,
                k as nat,
            ),
        forall|k: int|
            0 <= k < g2.levels@.len() ==> (#[trigger] g2.levels@[k]) == spec_level_of(
                seed,
                m,
                k as nat,
            ),
    ensures
        g1.levels@ == g2.levels@,
        spec_entry_after(g1.levels@) == spec_entry_after(g2.levels@),
{
    assert(g1.levels@ =~= g2.levels@);
}

/// Build the graph through the offload protocol: draw every layer up
/// front, upload the start entries, then process the layers from the
/// top down with a barrier between levels. Within a level, each point
/// either refines its entry (still descending) or links, and results
/// are applied in ascending id order.
///
/// The layer of point `k` and the final entry point are pinned to the
/// same functions of the seed and input as in
/// [`crate::builder::build_sequential`]: the two paths cannot disagree
/// on layer assignment or on the entry point. After the build, every
/// point but the first has a bottom-layer neighbor.
#[verifier::loop_isolation(false)]
pub fn build_on_device(params: HnswParams, vectors: Vec<Vec<i64>>) -> (r: Result<
    GraphLinks,
    HnswError,
>)
    ensures
        r == Result::<GraphLinks, HnswError>::Err(HnswError::InvalidParams) <==> !params.valid(),
        r == Result::<GraphLinks, HnswError>::Err(HnswError::DimensionMismatch) <==> (
        params.valid() && exists|i: int|
            0 <= i < vectors@.len() && (#[trigger] vectors@[i])@.len() != params.dim),
        r == Result::<GraphLinks, HnswError>::Err(HnswError::VectorOutOfRange) <==> (params.valid()
            && (forall|i: int|
            0 <= i < vectors@.len() ==> (#[trigger] vectors@[i])@.len() == params.dim) && exists|
            i: int,
            j: int,
        |
            0 <= i < vectors@.len() && 0 <= j < vectors@[i]@.len() && !coord_ok(
                #[trigger] vectors@[i]@[j],
            )),
        r is Ok <==> (params.valid() && forall|i: int|
            0 <= i < vectors@.len() ==> crate::scoring::vector_ok(
                (#[trigger] vectors@[i])@,
                params.dim as nat,
            )),
        r matches Ok(g) ==> {
            &&& g.wf()
            &&& g.m == params.m
            &&& g.dim == params.dim
            &&& g.point_count() == vectors@.len()
            &&& g.vectors@ == vectors@
            &&& g.levels@.len() == vectors@.len()
            &&& forall|k: int|
                0 <= k < vectors@.len() ==> (#[trigger] g.levels@[k]) == spec_level_of(
                    params.seed,
                    params.m as u64,
                    k as nat,
                )
            &&& g.entry == spec_entry_after(g.levels@)
            &&& forall|k: int| 1 <= k < vectors@.len() ==> list_at(g.links@, k, 0).len() >= 1
            &&& vectors@.len() >= 2 ==> list_at(g.links@, 0, 0).len() >= 1
        },
{
    let mut b = match GraphLayersBuilder::new(params) {
        Ok(b) => b,
        Err(e) => {
            return Err(e);
        },
    };
    match check_vectors(&vectors, b.dim) {
        Some(e) => {
            return Err(e);
        },
        None => {},
    }
    let n = vectors.len();
    let ghost all = vectors@;

    // Layer assignment happens up front, single-threaded, so that the
    // level-dependent schedule is known before any linking work starts.
    let mut start_ids: Vec<Option<usize>> = Vec::new();
    let mut rest = vectors;
    let mut k: usize = 0;
    while k < n
        invariant
            k <= n,
            n == all.len(),
            rest@ =~= all.skip(k as int),
            b.wf(),
            b.m == params.m,
            b.ef_construct == params.ef_construct,
            b.dim == params.dim,
            b.point_count() == k,
            b.levels@.len() == k,
            b.vectors@ =~= all.take(k as int),
            forall|j: int|
                0 <= j < k ==> (#[trigger] b.levels@[j]) == spec_level_of(
                    params.seed,
                    params.m as u64,
                    j as nat,
                ),
            b.rng.state == spec_state_after(params.seed, params.m as u64, k as nat),
            b.entries.best == spec_entry_after(b.levels@),
            forall|p: int, l: int|
                0 <= p < k && 0 <= l < b.links@[p]@.len() ==> list_at(b.links@, p, l).len() == 0,
            start_ids@.len() == k,
            forall|j: int|
                0 <= j < k ==> match #[trigger] start_ids@[j] {
                    None => j == 0,
                    Some(e) => (e as int) < j,
                },
        decreases n - k,
    {
        let v = rest.remove(0);
        proof {
            assert(v == all[k as int]);
            assert(crate::scoring::vector_ok(v@, params.dim as nat));
        }
        let ghost levels0 = b.levels@;
        let ghost links0 = b.links@;
        let (id, lvl, prev) = b.alloc_point(v);
        match prev {
            None => {
                proof {
                    assert(k == 0);
                }
                start_ids.push(None);
            },
            Some(ep) => {
                proof {
                    assert(k > 0);
                    assert((ep.point_id as int) < k);
                }
                start_ids.push(Some(ep.point_id));
            },
        }
        proof {
            lemma_entry_after_push(levels0, lvl);
            assert(rest@ =~= all.skip(k + 1));
            assert(b.vectors@ =~= all.take(k + 1));
            assert forall|p: int, l: int|
                0 <= p < k + 1 && 0 <= l < b.links@[p]@.len() implies list_at(
                b.links@,
                p,
                l,
            ).len() == 0 by {
                if p < k {
                    assert(b.links@[p] == links0[p]);
                    assert(list_at(links0, p, l).len() == 0);
                }
            }
        }
        k = k + 1;
    }
    proof {
        assert(b.vectors@ =~= all);
    }

    let mut ctx = GpuBuilderContext::new(params.m, n, 1);
    ctx.upload_entries(&start_ids);

    let top = match b.entry_point() {
        None => {
            // No points at all: nothing to link.
            return Ok(b.finalize());
        },
        Some(e) => e,
    };

    // Process the levels from the top down; each level is a barrier.
    let mut level: usize = top.level + 1;
    while level > 0
        invariant
            level <= top.level + 1,
            b.wf(),
            b.m == params.m,
            b.ef_construct == params.ef_construct,
            b.dim == params.dim,
            b.point_count() == n,
            b.levels@.len() == n,
            b.vectors@ =~= all,
            forall|j: int|
                0 <= j < n ==> (#[trigger] b.levels@[j]) == spec_level_of(
                    params.seed,
                    params.m as u64,
                    j as nat,
                ),
            b.rng.state == spec_state_after(params.seed, params.m as u64, n as nat),
            b.entries.best == spec_entry_after(b.levels@),
            ctx.requests@.len() == n,
            forall|j: int|
                0 <= j < n ==> match #[trigger] ctx.requests@[j] {
                    None => j == 0,
                    Some(e) => (e as int) < j,
                },
            forall|y: int, l: int|
                0 <= y < n && 0 <= l < level ==> !is_linked_at(b.links@, y, l),
            level == 0 ==> forall|j: int| 1 <= j < n ==> list_at(b.links@, j, 0).len() >= 1,
            level == 0 && n >= 2 ==> list_at(b.links@, 0, 0).len() >= 1,
        decreases level,
    {
        level = level - 1;
        let mut idx: usize = 0;
        while idx < n
            invariant
                idx <= n,
                level <= top.level,
                b.wf(),
                b.m == params.m,
                b.ef_construct == params.ef_construct,
                b.dim == params.dim,
                b.point_count() == n,
                b.levels@.len() == n,
                b.vectors@ =~= all,
                forall|j: int|
                    0 <= j < n ==> (#[trigger] b.levels@[j]) == spec_level_of(
                        params.seed,
                        params.m as u64,
                        j as nat,
                    ),
                b.rng.state == spec_state_after(params.seed, params.m as u64, n as nat),
                b.entries.best == spec_entry_after(b.levels@),
                ctx.requests@.len() == n,
                forall|j: int|
                    0 <= j < n ==> match #[trigger] ctx.requests@[j] {
                        None => j == 0,
                        Some(e) => (e as int) < j,
                    },
                forall|y: int, l: int|
                    0 <= y < n && 0 <= l < level ==> !is_linked_at(b.links@, y, l),
                forall|y: int| idx <= y < n ==> !is_linked_at(b.links@, y, level as int),
                level == 0 ==> forall|j: int| 1 <= j < idx ==> list_at(b.links@, j, 0).len() >= 1,
                level == 0 && n >= 2 && idx >= 2 ==> list_at(b.links@, 0, 0).len() >= 1,
            decreases n - idx,
        {
            let req = ctx.requests[idx];
            match req {
                None => {},
                Some(e) => {
                    proof {
                        assert((e as int) < idx);
                    }
                    let e_lvl = b.point_level(e);
                    let p_lvl = b.point_level(idx);
                    let req_lvl = if e_lvl < p_lvl {
                        e_lvl
                    } else {
                        p_lvl
                    };
                    if level > req_lvl && e_lvl >= p_lvl && level <= e_lvl {
                        // Still descending: refine the entry, no link
                        // mutation in this pass.
                        let mut wl: Vec<usize> = Vec::new();
                        wl.push(idx);
                        ctx.upload_process_points(&wl);
                        let ne = b.update_entry(idx, level, e);
                        proof {
                            assert(ne == e || is_linked_at(b.links@, ne as int, level as int));
                            assert((ne as int) < idx);
                        }
                        ctx.requests[idx] = Some(ne);
                    } else if level <= req_lvl {
                        // Link pass: run the search and selection for
                        // this point and apply the result into the
                        // shared link table.
                        let mut wl: Vec<usize> = Vec::new();
                        wl.push(idx);
                        ctx.upload_process_points(&wl);
                        let ghost links_b = b.links@;
                        let ne = b.link_point(idx, level, e);
                        proof {
                            assert(ne == e || is_linked_at(links_b, ne as int, level as int));
                            assert((ne as int) < idx);
                            assert forall|y: int, l: int|
                                0 <= y < n && 0 <= l < level implies !is_linked_at(
                                b.links@,
                                y,
                                l,
                            ) by {
                                crate::builder::lemma_linked_frame(links_b, b.links@, y, l);
                            }
                            if level == 0 && idx == 1 {
                                // The second point can only have found the
                                // first, which now lists it back or holds
                                // a full re-selected list.
                                let own = list_at(b.links@, 1, 0);
                                assert(own.len() >= 1);
                                assert(own[0] == e || is_linked_at(links_b, own[0] as int, 0));
                                assert(own[0] == 0);
                                assert(list_at(b.links@, 0, 0).contains(1usize) || list_at(
                                    b.links@,
                                    0,
                                    0,
                                ).len() == crate::search::cap_at(params.m as nat, 0));
                                if list_at(b.links@, 0, 0).contains(1usize) {
                                    let j = choose|j: int|
                                        0 <= j < list_at(b.links@, 0, 0).len() && list_at(
                                            b.links@,
                                            0,
                                            0,
                                        )[j] == 1usize;
                                }
                            }
                        }
                        ctx.requests[idx] = Some(ne);
                    }
                },
            }
            idx = idx + 1;
        }
    }
    Ok(b.finalize())
}

} // verus!
