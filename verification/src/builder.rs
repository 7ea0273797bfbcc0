//! The mutable graph under construction.
//!
//! Points are inserted one at a time: a layer is drawn for the point,
//! greedy descent finds a good entry, beam search proposes link
//! candidates, a diversity heuristic selects up to the layer capacity of
//! them, and mutual links are added with capacity re-pruning. The
//! capacity and layer invariants ([`crate::search::caps_ok`],
//! [`crate::search::adj_ok`]) hold after every insertion.

use vstd::prelude::*;

use crate::candidates::{
    contains_id, distinct_ids, insert_bounded, sorted_by_score, spec_insert_bounded, ScoredPoint,
};
use crate::entry_points::{
    lemma_entry_after_push, spec_entry_after, spec_new_entry, EntryPoint, EntryPoints,
};
use crate::errors::HnswError;
use crate::rng::{spec_level_of, spec_sample_level, spec_state_after, LayerRng, MAX_LEVEL};
use crate::scoring::{coord_ok, score_points, spec_score, vector_ok, COORD_LIMIT, MAX_DIM};
use crate::search::{
    adj_ok, cand_ok, cap_at, caps_ok, is_linked_at, list_at, locally_best, neighbor_ok,
    search_layer, spec_search_layer, vectors_ok,
};

verus! {

/// Build-time parameters of the graph.
#[derive(Debug, Clone, Copy, PartialEq, Eq, Structural)]
pub struct HnswParams {
    /// Target degree per layer; the bottom layer allows `2 * m`.
    pub m: usize,
    /// Beam width used when collecting link candidates.
    pub ef_construct: usize,
    /// Dimensionality of every indexed vector.
    pub dim: usize,
    /// Seed of the layer-assignment random source.
    pub seed: u64,
}

impl HnswParams {
    /// Parameters the builder accepts.
    pub open spec fn valid(self) -> bool {
        &&& 1 <= self.m <= 1000000
        &&& 1 <= self.ef_construct <= 1000000
        &&& 1 <= self.dim <= MAX_DIM
    }

    /// Decide validity in code.
    pub fn check(&self) -> (r: bool)
        ensures
            r == self.valid(),
    {
        1 <= self.m && self.m <= 1000000 && 1 <= self.ef_construct && self.ef_construct <= 1000000
            && 1 <= self.dim && self.dim <= MAX_DIM
    }
}

/// The mutable HNSW graph under construction.
pub struct GraphLayersBuilder {
    pub m: usize,
    pub ef_construct: usize,
    pub dim: usize,
    pub rng: LayerRng,
    /// Top layer of each point.
    pub levels: Vec<usize>,
    /// Neighbor lists: one list per point per layer `0 ..= levels[p]`.
    pub links: Vec<Vec<Vec<usize>>>,
    /// The indexed vectors, by point id.
    pub vectors: Vec<Vec<i64>>,
    /// Current best entry point.
    pub entries: EntryPoints,
}

impl GraphLayersBuilder {
    /// Number of points inserted so far.
    pub open spec fn point_count(self) -> nat {
        self.links@.len()
    }

    /// Well-formedness: parameters in range, the adjacency and capacity
    /// invariants, consistent vector storage, and a top entry point that
    /// dominates every point's layer.
    pub open spec fn wf(self) -> bool {
        &&& 1 <= self.m <= 1000000
        &&& 1 <= self.ef_construct <= 1000000
        &&& 1 <= self.dim <= MAX_DIM
        &&& adj_ok(self.links@, self.levels@)
        &&& caps_ok(self.links@, self.m as nat)
        &&& self.vectors@.len() == self.links@.len()
        &&& vectors_ok(self.vectors@, self.dim as nat)
        &&& forall|p: int| 0 <= p < self.levels@.len() ==> (#[trigger] self.levels@[p]) <= MAX_LEVEL
        &&& match self.entries.best {
            None => self.links@.len() == 0,
            Some(e) => {
                &&& (e.point_id as int) < self.links@.len()
                &&& self.levels@[e.point_id as int] == e.level
                &&& forall|p: int|
                    0 <= p < self.levels@.len() ==> (#[trigger] self.levels@[p]) <= e.level
            },
        }
    }

    /// An empty builder for the given parameters; rejects unusable ones
    /// before anything is allocated.
    pub fn new(params: HnswParams) -> (r: Result<GraphLayersBuilder, HnswError>)
        ensures
            r is Ok <==> params.valid(),
            r matches Err(e) ==> e == HnswError::InvalidParams,
            r matches Ok(b) ==> {
                &&& b.wf()
                &&& b.point_count() == 0
                &&& b.m == params.m
                &&& b.ef_construct == params.ef_construct
                &&& b.dim == params.dim
                &&& b.rng.state == params.seed
                &&& b.entries.best is None
                &&& b.levels@.len() == 0
                &&& b.vectors@.len() == 0
            },
    {
        if !params.check() {
            return Err(HnswError::InvalidParams);
        }
        Ok(
            GraphLayersBuilder {
                m: params.m,
                ef_construct: params.ef_construct,
                dim: params.dim,
                rng: LayerRng::new(params.seed),
                levels: Vec::new(),
                links: Vec::new(),
                vectors: Vec::new(),
                entries: EntryPoints::new(),
            },
        )
    }

    /// How many points are indexed.
    pub fn num_points(&self) -> (r: usize)
        ensures
            r == self.point_count(),
    {
        self.links.len()
    }

    /// Top layer of a point.
    pub fn point_level(&self, p: usize) -> (r: usize)
        requires
            p < self.point_count(),
            adj_ok(self.links@, self.levels@),
        ensures
            r == self.levels@[p as int],
    {
        self.levels[p]
    }

    /// The neighbor list of `p` at layer `l`.
    pub fn neighbors(&self, p: usize, l: usize) -> (r: &Vec<usize>)
        requires
            p < self.point_count(),
            adj_ok(self.links@, self.levels@),
            l < self.links@[p as int]@.len(),
        ensures
            r@ == list_at(self.links@, p as int, l as int),
    {
        &self.links[p][l]
    }

    /// The current best entry point, if any point exists.
    pub fn entry_point(&self) -> (r: Option<EntryPoint>)
        ensures
            r == self.entries.best,
    {
        self.entries.best
    }
}

/// Sort a full neighbor's members from position `j` on into `acc` by
/// their score against the neighbor itself, continuing the re-scoring
/// that capacity pruning runs before it re-selects.
pub open spec fn spec_rescore(
    members: Seq<usize>,
    vectors: Seq<Vec<i64>>,
    center: int,
    j: int,
    acc: Seq<ScoredPoint>,
) -> Seq<ScoredPoint>
    decreases members.len() - j,
        when 0 <= j
{
    if j >= members.len() {
        acc
    } else {
        let sp = ScoredPoint {
            idx: members[j],
            score: spec_score(vectors[members[j] as int]@, vectors[center]@) as i64,
        };
        spec_rescore(
            members,
            vectors,
            center,
            j + 1,
            spec_insert_bounded(acc, sp, members.len() as int + 1),
        )
    }
}

/// The candidate list capacity pruning re-selects from: the neighbor's
/// current members plus the newly linked point, sorted by their score
/// against the neighbor.
pub open spec fn spec_rescored(
    members: Seq<usize>,
    extra: usize,
    vectors: Seq<Vec<i64>>,
    center: int,
) -> Seq<ScoredPoint> {
    let sp = ScoredPoint {
        idx: extra,
        score: spec_score(vectors[extra as int]@, vectors[center]@) as i64,
    };
    spec_rescore(
        members,
        vectors,
        center,
        0,
        spec_insert_bounded(Seq::<ScoredPoint>::empty(), sp, members.len() as int + 1),
    )
}

/// What capacity pruning leaves a full neighbor with after a new point
/// links to it, and what a neighbor with room simply appends.
pub open spec fn spec_pruned_list(
    old_list: Seq<usize>,
    extra: usize,
    vectors: Seq<Vec<i64>>,
    center: int,
    cap: int,
) -> Seq<usize> {
    if old_list.len() < cap {
        old_list.push(extra)
    } else {
        spec_select_neighbors(spec_rescored(old_list, extra, vectors, center), vectors, cap)
    }
}

/// The diversity test of the neighbor heuristic: a candidate is accepted
/// only if it is closer to the target point than to every neighbor
/// accepted before it. `c.score` is the candidate's score against the
/// target, so the test reads: every accepted point scores strictly worse
/// against the candidate than the target does.
pub open spec fn spec_diverse(vectors: Seq<Vec<i64>>, accepted: Seq<usize>, c: ScoredPoint) -> bool {
    forall|j: int|
        0 <= j < accepted.len() ==> spec_score(
            vectors[c.idx as int]@,
            vectors[(#[trigger] accepted[j]) as int]@,
        ) < c.score
}

/// First pass of the heuristic: scan the candidates best-first, accept
/// the diverse ones up to `cap`, and set the rest aside in order.
/// Returns the accepted ids and the leftovers.
pub open spec fn spec_scan(
    cands: Seq<ScoredPoint>,
    vectors: Seq<Vec<i64>>,
    cap: int,
    i: int,
    acc: Seq<usize>,
    left: Seq<usize>,
) -> (Seq<usize>, Seq<usize>)
    decreases cands.len() - i,
        when 0 <= i
{
    if i >= cands.len() || acc.len() >= cap {
        (acc, left)
    } else if spec_diverse(vectors, acc, cands[i]) {
        spec_scan(cands, vectors, cap, i + 1, acc.push(cands[i].idx), left)
    } else {
        spec_scan(cands, vectors, cap, i + 1, acc, left.push(cands[i].idx))
    }
}

/// Second pass of the heuristic: fill remaining capacity best-first from
/// the leftovers, without the diversity test.
pub open spec fn spec_fill(acc: Seq<usize>, left: Seq<usize>, cap: int, t: int) -> Seq<usize>
    decreases left.len() - t,
        when 0 <= t
{
    if acc.len() >= cap || t >= left.len() {
        acc
    } else {
        spec_fill(acc.push(left[t]), left, cap, t + 1)
    }
}

/// The list the heuristic selects from sorted candidates: the diverse
/// ones first, then the best leftovers up to `cap`.
pub open spec fn spec_select_neighbors(
    cands: Seq<ScoredPoint>,
    vectors: Seq<Vec<i64>>,
    cap: int,
) -> Seq<usize> {
    let scanned = spec_scan(cands, vectors, cap, 0, Seq::empty(), Seq::empty());
    spec_fill(scanned.0, scanned.1, cap, 0)
}

/// From sorted candidates, greedily keep up to `cap` ids that are closer
/// to `target` than to every neighbor kept before them; remaining slots
/// are filled best-first from the rejected ones so a list is never left
/// shorter than the candidates allow. The result is exactly
/// [`spec_select_neighbors`] of the candidates.
#[verifier::loop_isolation(false)]
pub fn select_neighbors_heuristic(
    cands: &Vec<ScoredPoint>,
    vectors: &Vec<Vec<i64>>,
    target: usize,
    cap: usize,
) -> (r: Vec<usize>)
    requires
        sorted_by_score(cands@),
        distinct_ids(cands@),
        forall|i: int|
            0 <= i < cands@.len() ==> ((#[trigger] cands@[i]).idx as int) < vectors@.len()
                && cands@[i].idx != target,
        (target as int) < vectors@.len(),
        vectors@[target as int]@.len() <= MAX_DIM,
        vectors_ok(vectors@, vectors@[target as int]@.len() as nat),
        cap >= 1,
    ensures
        r@.len() == if cands@.len() < cap {
            cands@.len()
        } else {
            cap as nat
        },
        forall|i: int, j: int| 0 <= i < j < r@.len() ==> r@[i] != r@[j],
        forall|i: int| 0 <= i < r@.len() ==> contains_id(cands@, (#[trigger] r@[i]) as int),
        cands@.len() >= 1 ==> r@[0] == cands@[0].idx,
        r@ == spec_select_neighbors(cands@, vectors@, cap as int),
{
    let mut result: Vec<usize> = Vec::new();
    let mut leftovers: Vec<usize> = Vec::new();
    proof {
        assert(result@ =~= Seq::<usize>::empty());
        assert(leftovers@ =~= Seq::<usize>::empty());
    }
    let mut i: usize = 0;
    while i < cands.len() && result.len() < cap
        invariant
            i <= cands@.len(),
            result@.len() + leftovers@.len() == i,
            result@.len() <= cap,
            spec_scan(cands@, vectors@, cap as int, i as int, result@, leftovers@)
                == spec_scan(
                cands@,
                vectors@,
                cap as int,
                0,
                Seq::<usize>::empty(),
                Seq::<usize>::empty(),
            ),
            i > 0 ==> result@.len() >= 1 && result@[0] == cands@[0].idx,
            forall|k: int|
                0 <= k < result@.len() ==> exists|j: int|
                    0 <= j < i && cands@[j].idx == #[trigger] result@[k],
            forall|k: int|
                0 <= k < leftovers@.len() ==> exists|j: int|
                    0 <= j < i && cands@[j].idx == #[trigger] leftovers@[k],
            forall|k1: int, k2: int|
                0 <= k1 < k2 < result@.len() ==> #[trigger] result@[k1] != #[trigger] result@[k2],
            forall|k1: int, k2: int|
                0 <= k1 < k2 < leftovers@.len() ==> #[trigger] leftovers@[k1]
                    != #[trigger] leftovers@[k2],
            forall|k1: int, k2: int|
                0 <= k1 < result@.len() && 0 <= k2 < leftovers@.len() ==> #[trigger] result@[k1]
                    != #[trigger] leftovers@[k2],
        decreases cands@.len() - i,
    {
        let c = cands[i];
        proof {
            assert forall|k: int| 0 <= k < result@.len() implies #[trigger] result@[k]
                != c.idx by {
                let j = choose|j: int| 0 <= j < i && cands@[j].idx == result@[k];
                assert(cands@[j].idx != cands@[i as int].idx);
            }
            assert forall|k: int| 0 <= k < leftovers@.len() implies #[trigger] leftovers@[k]
                != c.idx by {
                let j = choose|j: int| 0 <= j < i && cands@[j].idx == leftovers@[k];
                assert(cands@[j].idx != cands@[i as int].idx);
            }
        }
        let ghost r_pre = result@;
        let ghost l_pre = leftovers@;
        let mut good = true;
        let mut j: usize = 0;
        while j < result.len() && good
            invariant
                j <= result@.len(),
                result@.len() == 0 ==> good,
                good ==> forall|t: int|
                    0 <= t < j ==> spec_score(
                        vectors@[c.idx as int]@,
                        vectors@[(#[trigger] result@[t]) as int]@,
                    ) < c.score,
                !good ==> exists|t: int|
                    0 <= t < result@.len() && spec_score(
                        vectors@[c.idx as int]@,
                        vectors@[(#[trigger] result@[t]) as int]@,
                    ) >= c.score,
            decreases result@.len() - j,
        {
            let other = result[j];
            let sc = score_points(&vectors[c.idx], &vectors[other]);
            if sc >= c.score {
                good = false;
            }
            j = j + 1;
        }
        proof {
            // `good` decided exactly the diversity test of the spec.
            assert(good == spec_diverse(vectors@, r_pre, c)) by {
                if !good {
                    let t = choose|t: int|
                        0 <= t < result@.len() && spec_score(
                            vectors@[c.idx as int]@,
                            vectors@[result@[t] as int]@,
                        ) >= c.score;
                    assert(!(spec_score(vectors@[c.idx as int]@, vectors@[r_pre[t] as int]@)
                        < c.score));
                }
            }
        }
        if good {
            result.push(c.idx);
        } else {
            leftovers.push(c.idx);
        }
        proof {
            assert(spec_scan(cands@, vectors@, cap as int, i + 1, result@, leftovers@)
                == spec_scan(cands@, vectors@, cap as int, i as int, r_pre, l_pre));
        }
        i = i + 1;
    }
    proof {
        assert(spec_scan(cands@, vectors@, cap as int, i as int, result@, leftovers@) == (
        result@,
        leftovers@,
        ));
    }
    let ghost acc_scan = result@;
    let ghost left_scan = leftovers@;
    let mut t: usize = 0;
    while result.len() < cap && t < leftovers.len()
        invariant
            t <= leftovers@.len(),
            result@.len() <= cap,
            result@.len() + leftovers@.len() - t <= cands@.len(),
            result@.len() < cap ==> result@.len() + leftovers@.len() - t == cands@.len(),
            cands@.len() >= 1 ==> result@.len() >= 1 && result@[0] == cands@[0].idx,
            forall|k: int|
                0 <= k < result@.len() ==> exists|j: int|
                    0 <= j < cands@.len() && cands@[j].idx == #[trigger] result@[k],
            forall|k: int|
                0 <= k < leftovers@.len() ==> exists|j: int|
                    0 <= j < cands@.len() && cands@[j].idx == #[trigger] leftovers@[k],
            forall|k1: int, k2: int|
                0 <= k1 < k2 < result@.len() ==> #[trigger] result@[k1] != #[trigger] result@[k2],
            forall|k1: int, k2: int|
                0 <= k1 < k2 < leftovers@.len() ==> #[trigger] leftovers@[k1]
                    != #[trigger] leftovers@[k2],
            forall|k1: int, k2: int|
                0 <= k1 < result@.len() && t <= k2 < leftovers@.len() ==> #[trigger] result@[k1]
                    != #[trigger] leftovers@[k2],
            leftovers@ == left_scan,
            spec_fill(result@, left_scan, cap as int, t as int) == spec_fill(
                acc_scan,
                left_scan,
                cap as int,
                0,
            ),
        decreases leftovers@.len() - t,
    {
        let ghost r2 = result@;
        result.push(leftovers[t]);
        proof {
            assert(spec_fill(result@, left_scan, cap as int, t + 1) == spec_fill(
                r2,
                left_scan,
                cap as int,
                t as int,
            ));
        }
        t = t + 1;
    }
    proof {
        assert(spec_fill(result@, left_scan, cap as int, t as int) == result@);
        assert(result@ == spec_select_neighbors(cands@, vectors@, cap as int));
    }
    proof {
        assert forall|i2: int| 0 <= i2 < result@.len() implies contains_id(
            cands@,
            (#[trigger] result@[i2]) as int,
        ) by {
            let j = choose|j: int| 0 <= j < cands@.len() && cands@[j].idx == result@[i2];
            assert(0 <= j < cands@.len() && cands@[j].idx == result@[i2] as int);
        }
    }
    result
}

/// Replace the neighbor list of `p` at layer `l`.
fn set_list(links: &mut Vec<Vec<Vec<usize>>>, p: usize, l: usize, val: Vec<usize>)
    requires
        p < old(links)@.len(),
        l < old(links)@[p as int]@.len(),
    ensures
        final(links)@.len() == old(links)@.len(),
        forall|q: int|
            0 <= q < old(links)@.len() && q != p ==> #[trigger] final(links)@[q] == old(links)@[q],
        final(links)@[p as int]@.len() == old(links)@[p as int]@.len(),
        forall|l2: int|
            0 <= l2 < old(links)@[p as int]@.len() && l2 != l ==> #[trigger] final(links)@[p as int]@[l2] == old(links)@[p as int]@[l2],
        final(links)@[p as int]@[l as int]@ == val@,
{
    let row = &mut links[p];
    let cell = &mut row[l];
    *cell = val;
}

/// Append one id to the neighbor list of `p` at layer `l`.
fn push_to_list(links: &mut Vec<Vec<Vec<usize>>>, p: usize, l: usize, v: usize)
    requires
        p < old(links)@.len(),
        l < old(links)@[p as int]@.len(),
    ensures
        final(links)@.len() == old(links)@.len(),
        forall|q: int|
            0 <= q < old(links)@.len() && q != p ==> #[trigger] final(links)@[q] == old(links)@[q],
        final(links)@[p as int]@.len() == old(links)@[p as int]@.len(),
        forall|l2: int|
            0 <= l2 < old(links)@[p as int]@.len() && l2 != l ==> #[trigger] final(links)@[p as int]@[l2] == old(links)@[p as int]@[l2],
        final(links)@[p as int]@[l as int]@ == old(links)@[p as int]@[l as int]@.push(v),
{
    let row = &mut links[p];
    let cell = &mut row[l];
    cell.push(v);
}

/// Two link tables that agree on layer `l` link the same points there.
pub proof fn lemma_linked_frame(
    links0: Seq<Vec<Vec<usize>>>,
    links1: Seq<Vec<Vec<usize>>>,
    y: int,
    l: int,
)
    requires
        links1.len() == links0.len(),
        forall|q: int| 0 <= q < links1.len() ==> (#[trigger] links1[q]@.len()) == links0[q]@.len(),
        forall|q: int|
            0 <= q < links1.len() && 0 <= l < links1[q]@.len() ==> list_at(links1, q, l)
                == list_at(links0, q, l),
    ensures
        is_linked_at(links1, y, l) == is_linked_at(links0, y, l),
{
    if is_linked_at(links1, y, l) {
        let (p, k) = choose|p: int, k: int|
            0 <= p < links1.len() && 0 <= l < links1[p]@.len() && 0 <= k < list_at(
                links1,
                p,
                l,
            ).len() && #[trigger] list_at(links1, p, l)[k] == y;
        assert(list_at(links0, p, l)[k] == y);
        assert(is_linked_at(links0, y, l));
    }
    if is_linked_at(links0, y, l) {
        let (p, k) = choose|p: int, k: int|
            0 <= p < links0.len() && 0 <= l < links0[p]@.len() && 0 <= k < list_at(
                links0,
                p,
                l,
            ).len() && #[trigger] list_at(links0, p, l)[k] == y;
        assert(list_at(links1, p, l)[k] == y);
        assert(is_linked_at(links1, y, l));
    }
}

/// Replacing one legal neighbor list keeps the adjacency and capacity
/// invariants.
pub proof fn lemma_replace_list(
    links0: Seq<Vec<Vec<usize>>>,
    links1: Seq<Vec<Vec<usize>>>,
    levels: Seq<usize>,
    q: int,
    level: int,
    m: nat,
)
    requires
        adj_ok(links0, levels),
        caps_ok(links0, m),
        0 <= q < links0.len(),
        0 <= level < links0[q]@.len(),
        links1.len() == links0.len(),
        forall|p: int| 0 <= p < links1.len() ==> (#[trigger] links1[p]@.len()) == links0[p]@.len(),
        forall|p: int, l: int|
            0 <= p < links1.len() && 0 <= l < links1[p]@.len() && (p != q || l != level)
                ==> list_at(links1, p, l) == list_at(links0, p, l),
        list_at(links1, q, level).len() <= cap_at(m, level as nat),
        forall|k: int|
            0 <= k < list_at(links1, q, level).len() ==> neighbor_ok(
                links0,
                levels,
                q,
                level,
                #[trigger] list_at(links1, q, level)[k],
            ),
        forall|k1: int, k2: int|
            0 <= k1 < k2 < list_at(links1, q, level).len() ==> #[trigger] list_at(
                links1,
                q,
                level,
            )[k1] != #[trigger] list_at(links1, q, level)[k2],
    ensures
        adj_ok(links1, levels),
        caps_ok(links1, m),
{
    assert forall|p: int, l: int, k: int|
        0 <= p < links1.len() && 0 <= l < links1[p]@.len() && 0 <= k < list_at(
            links1,
            p,
            l,
        ).len() implies neighbor_ok(links1, levels, p, l, #[trigger] list_at(links1, p, l)[k]) by {
        if p != q || l != level {
            assert(list_at(links1, p, l) == list_at(links0, p, l));
            assert(neighbor_ok(links0, levels, p, l, list_at(links0, p, l)[k]));
        }
    }
    assert forall|p: int, l: int, k1: int, k2: int|
        0 <= p < links1.len() && 0 <= l < links1[p]@.len() && 0 <= k1 < k2 < list_at(
            links1,
            p,
            l,
        ).len() implies #[trigger] list_at(links1, p, l)[k1] != #[trigger] list_at(
        links1,
        p,
        l,
    )[k2] by {
        if p != q || l != level {
            assert(list_at(links1, p, l) == list_at(links0, p, l));
        }
    }
    assert forall|p: int, l: int|
        0 <= p < links1.len() && 0 <= l < links1[p]@.len() implies list_at(links1, p, l).len()
        <= cap_at(m, l as nat) by {
        if p != q || l != level {
            assert(list_at(links1, p, l) == list_at(links0, p, l));
        }
    }
}

impl GraphLayersBuilder {
    /// Allocate a new point: store its vector, draw its top layer, give
    /// it one empty neighbor list per layer, and register it with the
    /// entry bookkeeping. No links are made yet; the previous best entry
    /// is returned so the caller can seed the descent.
    #[verifier::loop_isolation(false)]
    pub(crate) fn alloc_point(&mut self, vector: Vec<i64>) -> (r: (usize, usize, Option<
        EntryPoint,
    >))
        requires
            old(self).wf(),
            vector_ok(vector@, old(self).dim as nat),
        ensures
            final(self).wf(),
            final(self).m == old(self).m,
            final(self).ef_construct == old(self).ef_construct,
            final(self).dim == old(self).dim,
            r.0 == old(self).point_count(),
            final(self).point_count() == old(self).point_count() + 1,
            (r.1, final(self).rng.state) == spec_sample_level(
                old(self).rng.state,
                old(self).m as u64,
            ),
            r.1 <= MAX_LEVEL,
            final(self).levels@ == old(self).levels@.push(r.1),
            final(self).vectors@ == old(self).vectors@.push(vector),
            forall|q: int|
                0 <= q < old(self).links@.len() ==> #[trigger] final(self).links@[q]
                    == old(self).links@[q],
            final(self).links@[r.0 as int]@.len() == r.1 + 1,
            forall|l: int|
                0 <= l <= r.1 ==> list_at(final(self).links@, r.0 as int, l).len() == 0,
            r.2 == old(self).entries.best,
            final(self).entries.best == spec_new_entry(old(self).entries.best, r.0, r.1),
            forall|l: int| !is_linked_at(final(self).links@, r.0 as int, l),
    {
        let id = self.links.len();
        let m = self.m;
        let lvl = self.rng.sample_level(m);
        let mut row: Vec<Vec<usize>> = Vec::new();
        let mut l: usize = 0;
        while l < lvl + 1
            invariant
                row@.len() == l,
                l <= lvl + 1,
                forall|k: int| 0 <= k < row@.len() ==> (#[trigger] row@[k])@.len() == 0,
            decreases lvl + 1 - l,
        {
            row.push(Vec::new());
            l = l + 1;
        }
        self.links.push(row);
        self.levels.push(lvl);
        self.vectors.push(vector);
        let prev = self.entries.new_point(id, lvl);
        proof {
            let links1 = self.links@;
            let links0 = old(self).links@;
            assert forall|p: int, l2: int, k: int|
                0 <= p < links1.len() && 0 <= l2 < links1[p]@.len() && 0 <= k < list_at(
                    links1,
                    p,
                    l2,
                ).len() implies neighbor_ok(
                links1,
                self.levels@,
                p,
                l2,
                #[trigger] list_at(links1, p, l2)[k],
            ) by {
                if p < links0.len() {
                    assert(links1[p] == links0[p]);
                    assert(neighbor_ok(links0, old(self).levels@, p, l2, list_at(links0, p, l2)[k]));
                } else {
                    assert(list_at(links1, p, l2).len() == 0);
                }
            }
            assert forall|p: int, l2: int|
                0 <= p < links1.len() && 0 <= l2 < links1[p]@.len() implies list_at(
                links1,
                p,
                l2,
            ).len() <= cap_at(self.m as nat, l2 as nat) by {
                if p < links0.len() {
                    assert(links1[p] == links0[p]);
                    assert(list_at(links0, p, l2).len() <= cap_at(self.m as nat, l2 as nat));
                } else {
                    assert(list_at(links1, p, l2).len() == 0);
                }
            }
            assert forall|p: int, l2: int, k1: int, k2: int|
                0 <= p < links1.len() && 0 <= l2 < links1[p]@.len() && 0 <= k1 < k2 < list_at(
                    links1,
                    p,
                    l2,
                ).len() implies #[trigger] list_at(links1, p, l2)[k1] != #[trigger] list_at(
                links1,
                p,
                l2,
            )[k2] by {
                if p < links0.len() {
                    assert(links1[p] == links0[p]);
                    assert(list_at(links1, p, l2) == list_at(links0, p, l2));
                    assert(list_at(links0, p, l2)[k1] != list_at(links0, p, l2)[k2]);
                } else {
                    assert(list_at(links1, p, l2).len() == 0);
                }
            }
            assert forall|l2: int| !is_linked_at(links1, id as int, l2) by {
                if is_linked_at(links1, id as int, l2) {
                    let (p, k) = choose|p: int, k: int|
                        0 <= p < links1.len() && 0 <= l2 < links1[p]@.len() && 0 <= k < list_at(
                            links1,
                            p,
                            l2,
                        ).len() && list_at(links1, p, l2)[k] == id as int;
                    if p < links0.len() {
                        assert(links1[p] == links0[p]);
                        assert(neighbor_ok(links0, old(self).levels@, p, l2, list_at(links0, p, l2)[k]));
                    } else {
                        assert(list_at(links1, p, l2).len() == 0);
                    }
                }
            }
        }
        (id, lvl, prev)
    }

    /// One greedy step of the entry descent: search the layer with a
    /// beam of one and return the best point found. The result never
    /// scores worse than the entry it started from and is a local
    /// optimum of the layer: none of its own neighbors scores better
    /// against the inserted point, which is the walk's termination
    /// condition.
    pub fn update_entry(&self, point_id: usize, level: usize, entry: usize) -> (r: usize)
        requires
            self.wf(),
            point_id < self.point_count(),
            entry < self.point_count(),
            entry != point_id,
            self.levels@[entry as int] >= level,
            level > self.levels@[point_id as int],
        ensures
            r < self.point_count(),
            self.levels@[r as int] >= level,
            r != point_id,
            r == entry || is_linked_at(self.links@, r as int, level as int),
            spec_score(self.vectors@[r as int]@, self.vectors@[point_id as int]@) >= spec_score(
                self.vectors@[entry as int]@,
                self.vectors@[point_id as int]@,
            ),
            locally_best(
                self.links@,
                self.vectors@,
                self.vectors@[point_id as int]@,
                level as int,
                r as int,
                spec_score(self.vectors@[r as int]@, self.vectors@[point_id as int]@),
            ),
            r == spec_search_layer(
                self.links@,
                self.vectors@,
                self.vectors@[point_id as int]@,
                level as int,
                entry as int,
                1,
                None,
            )[0].idx,
    {
        let res = search_layer(
            &self.links,
            &self.levels,
            &self.vectors,
            &self.vectors[point_id],
            level,
            entry,
            1,
            None,
        );
        let best = res[0];
        proof {
            assert(cand_ok(
                res@[0],
                self.links@,
                self.levels@,
                self.vectors@,
                self.vectors@[point_id as int]@,
                level as int,
                entry as int,
            ));
        }
        best.idx
    }

    /// Link a new point at one layer: beam-search the layer for
    /// candidates, install a diverse selection of them as the point's
    /// neighbor list, add the point to each chosen neighbor's list, and
    /// re-prune any neighbor pushed over the layer capacity. Returns the
    /// best candidate found, the entry to carry down one layer: it heads
    /// the installed list, scores at least as well as the entry, and is
    /// a local optimum of the layer.
    ///
    /// Mutual linking is guaranteed: every installed neighbor's own list
    /// afterwards mentions the new point, or sits exactly at the layer
    /// capacity because it was re-selected under the heuristic. Every
    /// installed neighbor was found by the search: the entry, or a point
    /// the layer already linked. Neighbor lists at other layers are
    /// untouched, and the only points that can newly appear in a layer
    /// list are the linked point and its entry.
    #[verifier::loop_isolation(false)]
    pub fn link_point(&mut self, point_id: usize, level: usize, entry: usize) -> (r: usize)
        requires
            old(self).wf(),
            point_id < old(self).point_count(),
            entry < old(self).point_count(),
            entry != point_id,
            level <= old(self).levels@[point_id as int],
            old(self).levels@[entry as int] >= level,
            !is_linked_at(old(self).links@, point_id as int, level as int),
        ensures
            final(self).wf(),
            final(self).m == old(self).m,
            final(self).ef_construct == old(self).ef_construct,
            final(self).dim == old(self).dim,
            final(self).rng == old(self).rng,
            final(self).entries == old(self).entries,
            final(self).levels@ == old(self).levels@,
            final(self).vectors@ == old(self).vectors@,
            final(self).links@.len() == old(self).links@.len(),
            forall|q: int|
                0 <= q < final(self).links@.len() ==> (#[trigger] final(self).links@[q]@.len())
                    == old(self).links@[q]@.len(),
            forall|q: int, l: int|
                0 <= q < final(self).links@.len() && 0 <= l < final(self).links@[q]@.len() && l
                    != level ==> list_at(final(self).links@, q, l) == list_at(
                    old(self).links@,
                    q,
                    l,
                ),
            list_at(final(self).links@, point_id as int, level as int).len() >= 1,
            forall|q: int|
                0 <= q < final(self).links@.len() && list_at(
                    old(self).links@,
                    q,
                    level as int,
                ).len() >= 1 ==> list_at(final(self).links@, q, level as int).len() >= 1,
            forall|y: int|
                0 <= y < final(self).links@.len() && y != point_id && y != entry
                    && !is_linked_at(old(self).links@, y, level as int) ==> !is_linked_at(
                    final(self).links@,
                    y,
                    level as int,
                ),
            r < final(self).point_count(),
            r != point_id,
            final(self).levels@[r as int] >= level,
            r == entry || is_linked_at(old(self).links@, r as int, level as int),
            list_at(final(self).links@, point_id as int, level as int)[0] == r,
            // Steps 3 and 4 pinned: the installed list is the heuristic
            // selection of the layer search's candidates, and the carried
            // entry is the head candidate.
            list_at(final(self).links@, point_id as int, level as int) == spec_select_neighbors(
                spec_search_layer(
                    old(self).links@,
                    old(self).vectors@,
                    old(self).vectors@[point_id as int]@,
                    level as int,
                    entry as int,
                    old(self).ef_construct as int,
                    None,
                ),
                old(self).vectors@,
                cap_at(old(self).m as nat, level as nat) as int,
            ),
            r == spec_search_layer(
                old(self).links@,
                old(self).vectors@,
                old(self).vectors@[point_id as int]@,
                level as int,
                entry as int,
                old(self).ef_construct as int,
                None,
            )[0].idx,
            spec_score(old(self).vectors@[r as int]@, old(self).vectors@[point_id as int]@)
                >= spec_score(
                old(self).vectors@[entry as int]@,
                old(self).vectors@[point_id as int]@,
            ),
            locally_best(
                old(self).links@,
                old(self).vectors@,
                old(self).vectors@[point_id as int]@,
                level as int,
                r as int,
                spec_score(old(self).vectors@[r as int]@, old(self).vectors@[point_id as int]@),
            ),
            forall|t: int|
                0 <= t < list_at(final(self).links@, point_id as int, level as int).len()
                    ==> (#[trigger] list_at(final(self).links@, point_id as int, level as int)[t]
                    == entry || is_linked_at(
                    old(self).links@,
                    list_at(final(self).links@, point_id as int, level as int)[t] as int,
                    level as int,
                )),
            forall|t: int|
                0 <= t < list_at(final(self).links@, point_id as int, level as int).len()
                    ==> (list_at(
                    final(self).links@,
                    (#[trigger] list_at(final(self).links@, point_id as int, level as int)[t]) as int,
                    level as int,
                ).contains(point_id) || list_at(
                    final(self).links@,
                    list_at(final(self).links@, point_id as int, level as int)[t] as int,
                    level as int,
                ).len() == cap_at(old(self).m as nat, level as nat)),
            // Step 5 pinned: each installed neighbor's list afterwards is
            // exactly the appended or heuristically re-selected one.
            forall|t: int|
                0 <= t < list_at(final(self).links@, point_id as int, level as int).len()
                    ==> list_at(
                    final(self).links@,
                    (#[trigger] list_at(final(self).links@, point_id as int, level as int)[t]) as int,
                    level as int,
                ) == spec_pruned_list(
                    list_at(
                        old(self).links@,
                        list_at(final(self).links@, point_id as int, level as int)[t] as int,
                        level as int,
                    ),
                    point_id,
                    old(self).vectors@,
                    list_at(final(self).links@, point_id as int, level as int)[t] as int,
                    cap_at(old(self).m as nat, level as nat) as int,
                ),
    {
        let n = self.links.len();
        let cands = search_layer(
            &self.links,
            &self.levels,
            &self.vectors,
            &self.vectors[point_id],
            level,
            entry,
            self.ef_construct,
            None,
        );
        proof {
            assert forall|i: int| 0 <= i < cands@.len() implies {
                &&& ((#[trigger] cands@[i]).idx as int) < n
                &&& cands@[i].idx != point_id
                &&& old(self).levels@[cands@[i].idx as int] >= level
                &&& (cands@[i].idx == entry || is_linked_at(
                    old(self).links@,
                    cands@[i].idx as int,
                    level as int,
                ))
            } by {
                assert(cand_ok(
                    cands@[i],
                    old(self).links@,
                    old(self).levels@,
                    old(self).vectors@,
                    old(self).vectors@[point_id as int]@,
                    level as int,
                    entry as int,
                ));
            }
        }
        let cap = if level == 0 {
            2 * self.m
        } else {
            self.m
        };
        proof {
            assert(cap as nat == cap_at(self.m as nat, level as nat));
        }
        let selected = select_neighbors_heuristic(&cands, &self.vectors, point_id, cap);
        proof {
            assert forall|t: int| 0 <= t < selected@.len() implies {
                &&& ((#[trigger] selected@[t]) as int) < n
                &&& selected@[t] != point_id
                &&& old(self).levels@[selected@[t] as int] >= level
                &&& (selected@[t] == entry || is_linked_at(
                    old(self).links@,
                    selected@[t] as int,
                    level as int,
                ))
            } by {
                assert(contains_id(cands@, selected@[t] as int));
                let j = choose|j: int| 0 <= j < cands@.len() && cands@[j].idx == selected@[t];
                assert(cands@[j].idx == selected@[t]);
            }
        }
        let mut t: usize = 0;
        while t < selected.len()
            invariant
                t <= selected@.len(),
                self.m == old(self).m,
                self.ef_construct == old(self).ef_construct,
                self.dim == old(self).dim,
                self.rng == old(self).rng,
                self.entries == old(self).entries,
                self.levels@ == old(self).levels@,
                self.vectors@ == old(self).vectors@,
                self.links@.len() == n,
                adj_ok(self.links@, self.levels@),
                caps_ok(self.links@, self.m as nat),
                forall|q: int|
                    0 <= q < n ==> (#[trigger] self.links@[q]@.len())
                        == old(self).links@[q]@.len(),
                forall|q: int, l: int|
                    0 <= q < n && 0 <= l < self.links@[q]@.len() && l != level ==> list_at(
                        self.links@,
                        q,
                        l,
                    ) == list_at(old(self).links@, q, l),
                list_at(self.links@, point_id as int, level as int) == list_at(
                    old(self).links@,
                    point_id as int,
                    level as int,
                ),
                forall|u: int|
                    t <= u < selected@.len() ==> !list_at(
                        self.links@,
                        (#[trigger] selected@[u]) as int,
                        level as int,
                    ).contains(point_id),
                forall|q: int|
                    0 <= q < n && list_at(old(self).links@, q, level as int).len() >= 1
                        ==> list_at(self.links@, q, level as int).len() >= 1,
                forall|u: int|
                    0 <= u < t ==> (list_at(
                        self.links@,
                        (#[trigger] selected@[u]) as int,
                        level as int,
                    ).contains(point_id) || list_at(
                        self.links@,
                        selected@[u] as int,
                        level as int,
                    ).len() == cap_at(self.m as nat, level as nat)),
                forall|u: int|
                    t <= u < selected@.len() ==> list_at(
                        self.links@,
                        (#[trigger] selected@[u]) as int,
                        level as int,
                    ) == list_at(old(self).links@, selected@[u] as int, level as int),
                forall|u: int|
                    0 <= u < t ==> list_at(
                        self.links@,
                        (#[trigger] selected@[u]) as int,
                        level as int,
                    ) == spec_pruned_list(
                        list_at(old(self).links@, selected@[u] as int, level as int),
                        point_id,
                        old(self).vectors@,
                        selected@[u] as int,
                        cap_at(old(self).m as nat, level as nat) as int,
                    ),
                forall|y: int|
                    0 <= y < n && y != point_id && y != entry && !is_linked_at(
                        old(self).links@,
                        y,
                        level as int,
                    ) ==> !is_linked_at(self.links@, y, level as int),
            decreases selected@.len() - t,
        {
            let nb = selected[t];
            let ghost links_pre = self.links@;
            proof {
                assert(list_at(links_pre, nb as int, level as int) == list_at(
                    old(self).links@,
                    nb as int,
                    level as int,
                ));
            }
            let cur_len = self.links[nb][level].len();
            if cur_len < cap {
                push_to_list(&mut self.links, nb, level, point_id);
                proof {
                    let links1 = self.links@;
                    let newlist = list_at(links1, nb as int, level as int);
                    assert(newlist == list_at(links_pre, nb as int, level as int).push(point_id));
                    assert(newlist.contains(point_id)) by {
                        assert(newlist[newlist.len() - 1] == point_id);
                    }
                    assert forall|k: int| 0 <= k < newlist.len() implies neighbor_ok(
                        links_pre,
                        self.levels@,
                        nb as int,
                        level as int,
                        #[trigger] newlist[k],
                    ) by {
                        if k < newlist.len() - 1 {
                            assert(newlist[k] == list_at(links_pre, nb as int, level as int)[k]);
                        }
                    }
                    assert forall|k1: int, k2: int|
                        0 <= k1 < k2 < newlist.len() implies #[trigger] newlist[k1]
                        != #[trigger] newlist[k2] by {
                        if k2 < newlist.len() - 1 {
                            assert(newlist[k1] == list_at(links_pre, nb as int, level as int)[k1]);
                            assert(newlist[k2] == list_at(links_pre, nb as int, level as int)[k2]);
                        } else {
                            assert(!list_at(links_pre, nb as int, level as int).contains(point_id));
                            assert(newlist[k1] == list_at(links_pre, nb as int, level as int)[k1]);
                        }
                    }
                    lemma_replace_list(
                        links_pre,
                        links1,
                        self.levels@,
                        nb as int,
                        level as int,
                        self.m as nat,
                    );
                    assert(list_at(self.links@, nb as int, level as int) == spec_pruned_list(
                        list_at(old(self).links@, nb as int, level as int),
                        point_id,
                        old(self).vectors@,
                        nb as int,
                        cap as int,
                    ));
                }
            } else {
                // The neighbor is full: rebuild its list from its current
                // members plus the new point, under the same heuristic.
                let mut cands2: Vec<ScoredPoint> = Vec::new();
                let ghost members_g = list_at(links_pre, nb as int, level as int);
                let capc = cur_len + 1;
                let sc0 = score_points(&self.vectors[point_id], &self.vectors[nb]);
                proof {
                    assert(cands2@ =~= Seq::<ScoredPoint>::empty());
                }
                insert_bounded(&mut cands2, ScoredPoint { idx: point_id, score: sc0 }, capc);
                proof {
                    assert(spec_rescore(members_g, self.vectors@, nb as int, 0, cands2@)
                        == spec_rescored(members_g, point_id, self.vectors@, nb as int));
                }
                let mut u2: usize = 0;
                while u2 < cur_len
                    invariant
                        u2 <= cur_len,
                        cur_len == list_at(self.links@, nb as int, level as int).len(),
                        self.links@ == links_pre,
                        self.levels@ == old(self).levels@,
                        self.vectors@ == old(self).vectors@,
                        sorted_by_score(cands2@),
                        distinct_ids(cands2@),
                        cands2@.len() == u2 + 1,
                        forall|i: int|
                            0 <= i < cands2@.len() ==> (#[trigger] cands2@[i]).idx == point_id
                                || exists|j: int|
                                0 <= j < u2 && list_at(self.links@, nb as int, level as int)[j]
                                    == cands2@[i].idx,
                        members_g == list_at(links_pre, nb as int, level as int),
                        spec_rescore(members_g, self.vectors@, nb as int, u2 as int, cands2@)
                            == spec_rescored(members_g, point_id, self.vectors@, nb as int),
                    decreases cur_len - u2,
                {
                    let x = self.links[nb][level][u2];
                    proof {
                        assert(neighbor_ok(
                            self.links@,
                            self.levels@,
                            nb as int,
                            level as int,
                            list_at(self.links@, nb as int, level as int)[u2 as int],
                        ));
                        assert(!list_at(self.links@, nb as int, level as int).contains(point_id));
                        assert(x != point_id);
                        assert(!contains_id(cands2@, x as int)) by {
                            if contains_id(cands2@, x as int) {
                                let i = choose|i: int|
                                    0 <= i < cands2@.len() && cands2@[i].idx == x as int;
                                let j = choose|j: int|
                                    0 <= j < u2 && list_at(self.links@, nb as int, level as int)[j]
                                        == cands2@[i].idx;
                                assert(list_at(self.links@, nb as int, level as int)[j] == list_at(
                                    self.links@,
                                    nb as int,
                                    level as int,
                                )[u2 as int]);
                            }
                        }
                    }
                    let scx = score_points(&self.vectors[x], &self.vectors[nb]);
                    let ghost c20 = cands2@;
                    insert_bounded(&mut cands2, ScoredPoint { idx: x, score: scx }, capc);
                    proof {
                        assert forall|i: int| 0 <= i < cands2@.len() implies (
                        #[trigger] cands2@[i]).idx == point_id || exists|j: int|
                            0 <= j < u2 + 1 && list_at(self.links@, nb as int, level as int)[j]
                                == cands2@[i].idx by {
                            if cands2@[i].idx != x {
                                assert(c20.contains(cands2@[i]));
                                let k = choose|k: int| 0 <= k < c20.len() && c20[k] == cands2@[i];
                                if c20[k].idx != point_id {
                                    let j = choose|j: int|
                                        0 <= j < u2 && list_at(
                                            self.links@,
                                            nb as int,
                                            level as int,
                                        )[j] == c20[k].idx;
                                    assert(list_at(self.links@, nb as int, level as int)[j]
                                        == cands2@[i].idx);
                                }
                            } else {
                                assert(list_at(self.links@, nb as int, level as int)[u2 as int]
                                    == cands2@[i].idx);
                            }
                        }
                        assert(ScoredPoint { idx: x, score: scx } == ScoredPoint {
                            idx: members_g[u2 as int],
                            score: spec_score(
                                self.vectors@[members_g[u2 as int] as int]@,
                                self.vectors@[nb as int]@,
                            ) as i64,
                        });
                        assert(spec_rescore(members_g, self.vectors@, nb as int, u2 as int, c20)
                            == spec_rescore(
                            members_g,
                            self.vectors@,
                            nb as int,
                            u2 as int + 1,
                            cands2@,
                        ));
                    }
                    u2 = u2 + 1;
                }
                proof {
                    assert(cands2@ == spec_rescored(
                        members_g,
                        point_id,
                        self.vectors@,
                        nb as int,
                    ));
                }
                proof {
                    assert forall|i: int| 0 <= i < cands2@.len() implies ((
                    #[trigger] cands2@[i]).idx as int) < self.vectors@.len() && cands2@[i].idx
                        != nb by {
                        if cands2@[i].idx != point_id {
                            let j = choose|j: int|
                                0 <= j < cur_len && list_at(self.links@, nb as int, level as int)[j]
                                    == cands2@[i].idx;
                            assert(neighbor_ok(
                                self.links@,
                                self.levels@,
                                nb as int,
                                level as int,
                                list_at(self.links@, nb as int, level as int)[j],
                            ));
                        }
                    }
                }
                let pruned = select_neighbors_heuristic(&cands2, &self.vectors, nb, cap);
                proof {
                    assert forall|k: int| 0 <= k < pruned@.len() implies neighbor_ok(
                        links_pre,
                        self.levels@,
                        nb as int,
                        level as int,
                        #[trigger] pruned@[k],
                    ) && (pruned@[k] == point_id || list_at(
                        links_pre,
                        nb as int,
                        level as int,
                    ).contains(pruned@[k])) by {
                        assert(contains_id(cands2@, pruned@[k] as int));
                        let i = choose|i: int|
                            0 <= i < cands2@.len() && cands2@[i].idx == pruned@[k];
                        if cands2@[i].idx == point_id {
                            assert(neighbor_ok(
                                links_pre,
                                self.levels@,
                                nb as int,
                                level as int,
                                point_id,
                            ));
                        } else {
                            let j = choose|j: int|
                                0 <= j < cur_len && list_at(self.links@, nb as int, level as int)[j]
                                    == cands2@[i].idx;
                            assert(neighbor_ok(
                                links_pre,
                                self.levels@,
                                nb as int,
                                level as int,
                                list_at(links_pre, nb as int, level as int)[j],
                            ));
                            assert(list_at(links_pre, nb as int, level as int).contains(
                                pruned@[k],
                            ));
                        }
                    }
                }
                set_list(&mut self.links, nb, level, pruned);
                proof {
                    let links1 = self.links@;
                    lemma_replace_list(
                        links_pre,
                        links1,
                        self.levels@,
                        nb as int,
                        level as int,
                        self.m as nat,
                    );
                    assert(list_at(links1, nb as int, level as int).len() == cap_at(
                        self.m as nat,
                        level as nat,
                    ));
                    assert(list_at(self.links@, nb as int, level as int) == spec_pruned_list(
                        list_at(old(self).links@, nb as int, level as int),
                        point_id,
                        old(self).vectors@,
                        nb as int,
                        cap as int,
                    ));
                }
            }
            proof {
                let links1 = self.links@;
                // Remaining selected neighbors are untouched and still
                // free of the new point.
                assert forall|u: int| t + 1 <= u < selected@.len() implies !list_at(
                    links1,
                    (#[trigger] selected@[u]) as int,
                    level as int,
                ).contains(point_id) by {
                    if selected@[u] != nb {
                        assert(links1[selected@[u] as int] == links_pre[selected@[u] as int]);
                    } else {
                        assert(forall|u1: int, u3: int|
                            0 <= u1 < u3 < selected@.len() ==> #[trigger] selected@[u1]
                                != #[trigger] selected@[u3]);
                        assert(false);
                    }
                }
                // Already-processed neighbors keep their mutual link or
                // their full, re-selected list.
                assert forall|u: int| 0 <= u < t + 1 implies (list_at(
                    links1,
                    (#[trigger] selected@[u]) as int,
                    level as int,
                ).contains(point_id) || list_at(links1, selected@[u] as int, level as int).len()
                    == cap_at(self.m as nat, level as nat)) by {
                    if u < t {
                        if selected@[u] != nb {
                            assert(links1[selected@[u] as int] == links_pre[selected@[u] as int]);
                            assert(list_at(links1, selected@[u] as int, level as int) == list_at(
                                links_pre,
                                selected@[u] as int,
                                level as int,
                            ));
                        } else {
                            assert(false);
                        }
                    }
                }
                assert forall|u: int| 0 <= u < t + 1 implies list_at(
                    links1,
                    (#[trigger] selected@[u]) as int,
                    level as int,
                ) == spec_pruned_list(
                    list_at(old(self).links@, selected@[u] as int, level as int),
                    point_id,
                    old(self).vectors@,
                    selected@[u] as int,
                    cap_at(old(self).m as nat, level as nat) as int,
                ) by {
                    if u < t {
                        if selected@[u] != nb {
                            assert(links1[selected@[u] as int] == links_pre[selected@[u] as int]);
                            assert(list_at(links1, selected@[u] as int, level as int) == list_at(
                                links_pre,
                                selected@[u] as int,
                                level as int,
                            ));
                        } else {
                            assert(false);
                        }
                    }
                }
                assert forall|u: int| t + 1 <= u < selected@.len() implies list_at(
                    links1,
                    (#[trigger] selected@[u]) as int,
                    level as int,
                ) == list_at(old(self).links@, selected@[u] as int, level as int) by {
                    if selected@[u] != nb {
                        assert(links1[selected@[u] as int] == links_pre[selected@[u] as int]);
                        assert(list_at(links1, selected@[u] as int, level as int) == list_at(
                            links_pre,
                            selected@[u] as int,
                            level as int,
                        ));
                    } else {
                        assert(false);
                    }
                }
                // Nobody new is linked at this layer except the new point.
                assert forall|y: int|
                    0 <= y < n && y != point_id && y != entry && !is_linked_at(
                        old(self).links@,
                        y,
                        level as int,
                    ) implies !is_linked_at(links1, y, level as int) by {
                    assert(!is_linked_at(links_pre, y, level as int));
                    if is_linked_at(links1, y, level as int) {
                        let (p2, k2) = choose|p2: int, k2: int|
                            0 <= p2 < links1.len() && 0 <= level < links1[p2]@.len() && 0 <= k2
                                < list_at(links1, p2, level as int).len() && #[trigger] list_at(
                                links1,
                                p2,
                                level as int,
                            )[k2] == y;
                        if p2 != nb {
                            assert(links1[p2] == links_pre[p2]);
                            assert(0 <= level < links_pre[p2]@.len() && 0 <= k2 < list_at(
                                links_pre,
                                p2,
                                level as int,
                            ).len() && list_at(links_pre, p2, level as int)[k2] == y);
                            assert(is_linked_at(links_pre, y, level as int));
                        } else {
                            let lnew = list_at(links1, nb as int, level as int);
                            let lold = list_at(links_pre, nb as int, level as int);
                            assert(lnew[k2] == y);
                            if lold.contains(y as usize) {
                                let j = choose|j: int| 0 <= j < lold.len() && lold[j] == y;
                                assert(0 <= level < links_pre[nb as int]@.len() && 0 <= j
                                    < list_at(links_pre, nb as int, level as int).len() && list_at(
                                    links_pre,
                                    nb as int,
                                    level as int,
                                )[j] == y);
                                assert(is_linked_at(links_pre, y, level as int));
                            }
                        }
                    }
                }
                // The new point's own list is untouched.
                assert(list_at(links1, point_id as int, level as int) == list_at(
                    links_pre,
                    point_id as int,
                    level as int,
                )) by {
                    assert(links1[point_id as int] == links_pre[point_id as int]);
                }
            }
            t = t + 1;
        }
        // Install the new point's own neighbor list.
        let ghost links_pre2 = self.links@;
        proof {
            assert(level < self.links@[point_id as int]@.len());
        }
        set_list(&mut self.links, point_id, level, selected);
        proof {
            let links1 = self.links@;
            assert(list_at(links1, point_id as int, level as int) == selected@);
            assert forall|k1: int, k2: int|
                0 <= k1 < k2 < selected@.len() implies #[trigger] selected@[k1]
                != #[trigger] selected@[k2] by {}
            assert forall|k: int| 0 <= k < selected@.len() implies neighbor_ok(
                links_pre2,
                self.levels@,
                point_id as int,
                level as int,
                #[trigger] selected@[k],
            ) by {}
            lemma_replace_list(
                links_pre2,
                links1,
                self.levels@,
                point_id as int,
                level as int,
                self.m as nat,
            );
            // Frame for the layer-membership clause, one last time.
            assert forall|y: int|
                0 <= y < n && y != point_id && y != entry && !is_linked_at(
                    old(self).links@,
                    y,
                    level as int,
                ) implies !is_linked_at(links1, y, level as int) by {
                assert(!is_linked_at(links_pre2, y, level as int));
                if is_linked_at(links1, y, level as int) {
                    let (p2, k2) = choose|p2: int, k2: int|
                        0 <= p2 < links1.len() && 0 <= level < links1[p2]@.len() && 0 <= k2
                            < list_at(links1, p2, level as int).len() && #[trigger] list_at(
                            links1,
                            p2,
                            level as int,
                        )[k2] == y;
                    if p2 != point_id {
                        assert(links1[p2] == links_pre2[p2]);
                        assert(0 <= level < links_pre2[p2]@.len() && 0 <= k2 < list_at(
                            links_pre2,
                            p2,
                            level as int,
                        ).len() && list_at(links_pre2, p2, level as int)[k2] == y);
                        assert(is_linked_at(links_pre2, y, level as int));
                    } else {
                        assert(selected@[k2] == y);
                        assert(selected@[k2] == entry || is_linked_at(
                            old(self).links@,
                            selected@[k2] as int,
                            level as int,
                        ));
                    }
                }
            }
            // The installed list heads with the best candidate found.
            assert(list_at(links1, point_id as int, level as int)[0] == cands@[0].idx);
            // Mutual links survive installing the new point's own list,
            // which touches no other point's list.
            assert forall|u: int| 0 <= u < selected@.len() implies (list_at(
                links1,
                (#[trigger] selected@[u]) as int,
                level as int,
            ).contains(point_id) || list_at(links1, selected@[u] as int, level as int).len()
                == cap_at(old(self).m as nat, level as nat)) by {
                assert(selected@[u] != point_id);
                assert(links1[selected@[u] as int] == links_pre2[selected@[u] as int]);
                assert(list_at(links1, selected@[u] as int, level as int) == list_at(
                    links_pre2,
                    selected@[u] as int,
                    level as int,
                ));
            }
            assert forall|u: int| 0 <= u < selected@.len() implies list_at(
                links1,
                (#[trigger] selected@[u]) as int,
                level as int,
            ) == spec_pruned_list(
                list_at(old(self).links@, selected@[u] as int, level as int),
                point_id,
                old(self).vectors@,
                selected@[u] as int,
                cap_at(old(self).m as nat, level as nat) as int,
            ) by {
                assert(selected@[u] != point_id);
                assert(links1[selected@[u] as int] == links_pre2[selected@[u] as int]);
                assert(list_at(links1, selected@[u] as int, level as int) == list_at(
                    links_pre2,
                    selected@[u] as int,
                    level as int,
                ));
            }
            // The returned entry inherits the search head's guarantees.
            assert(cand_ok(
                cands@[0],
                old(self).links@,
                old(self).levels@,
                old(self).vectors@,
                old(self).vectors@[point_id as int]@,
                level as int,
                entry as int,
            ));
        }
        let best = cands[0];
        best.idx
    }

    /// Insert one point: validate its vector, draw its layer, descend
    /// greedily through the layers above it, and link it at every layer
    /// from there down to the bottom. Rejected vectors leave the builder
    /// exactly as it was.
    ///
    /// After a successful insertion of any point but the first, the new
    /// point has at least one bottom-layer neighbor.
    #[verifier::loop_isolation(false)]
    pub fn insert_point(&mut self, vector: Vec<i64>) -> (r: Result<usize, HnswError>)
        requires
            old(self).wf(),
        ensures
            final(self).wf(),
            final(self).m == old(self).m,
            final(self).ef_construct == old(self).ef_construct,
            final(self).dim == old(self).dim,
            r is Ok <==> vector_ok(vector@, old(self).dim as nat),
            r == Result::<usize, HnswError>::Err(HnswError::DimensionMismatch) <==> vector@.len()
                != old(self).dim,
            r == Result::<usize, HnswError>::Err(HnswError::VectorOutOfRange) <==> (vector@.len()
                == old(self).dim && exists|i: int|
                0 <= i < vector@.len() && !coord_ok(#[trigger] vector@[i])),
            r is Err ==> *final(self) == *old(self),
            r matches Ok(id) ==> {
                let lvl = spec_sample_level(old(self).rng.state, old(self).m as u64).0;
                &&& id == old(self).point_count()
                &&& final(self).point_count() == old(self).point_count() + 1
                &&& final(self).levels@ == old(self).levels@.push(lvl)
                &&& final(self).rng.state == spec_sample_level(
                    old(self).rng.state,
                    old(self).m as u64,
                ).1
                &&& final(self).vectors@ == old(self).vectors@.push(vector)
                &&& final(self).entries.best == spec_new_entry(
                    old(self).entries.best,
                    id,
                    lvl,
                )
                &&& old(self).point_count() >= 1 ==> list_at(
                    final(self).links@,
                    id as int,
                    0,
                ).len() >= 1
                &&& forall|q: int|
                    0 <= q < old(self).point_count() && list_at(old(self).links@, q, 0).len() >= 1
                        ==> list_at(final(self).links@, q, 0).len() >= 1
                &&& old(self).point_count() == 1 ==> list_at(final(self).links@, 0, 0).len() >= 1
            },
    {
        if vector.len() != self.dim {
            return Err(HnswError::DimensionMismatch);
        }
        let mut i: usize = 0;
        while i < vector.len()
            invariant
                i <= vector@.len(),
                forall|k: int| 0 <= k < i ==> coord_ok(#[trigger] vector@[k]),
            decreases vector@.len() - i,
        {
            if vector[i] > COORD_LIMIT || vector[i] < -COORD_LIMIT {
                return Err(HnswError::VectorOutOfRange);
            }
            i = i + 1;
        }
        let (id, lvl, prev) = self.alloc_point(vector);
        let ghost snap = *self;
        match prev {
            None => {
                proof {
                    assert(old(self).entries.best is None);
                    assert(old(self).point_count() == 0);
                }
                Ok(id)
            },
            Some(ep) => {
                let mut cur: usize = ep.point_id;
                let mut l: usize = ep.level;
                while l > lvl
                    invariant
                        *self == snap,
                        self.wf(),
                        l <= ep.level,
                        l >= lvl || l == ep.level,
                        cur < self.point_count(),
                        cur != id,
                        self.levels@[cur as int] >= l,
                    decreases l,
                {
                    cur = self.update_entry(id, l, cur);
                    l = l - 1;
                }
                let mut l2: usize = if ep.level < lvl {
                    ep.level
                } else {
                    lvl
                };
                proof {
                    assert(self.levels@[cur as int] >= l2);
                }
                l2 = l2 + 1;
                while l2 > 0
                    invariant
                        0 <= l2 <= lvl + 1,
                        self.wf(),
                        self.m == snap.m,
                        self.ef_construct == snap.ef_construct,
                        self.dim == snap.dim,
                        self.rng == snap.rng,
                        self.entries == snap.entries,
                        self.levels@ == snap.levels@,
                        self.vectors@ == snap.vectors@,
                        self.links@.len() == snap.links@.len(),
                        cur < self.point_count(),
                        cur != id,
                        self.levels@[cur as int] >= l2 - 1,
                        forall|ll: int| 0 <= ll < l2 ==> !is_linked_at(self.links@, id as int, ll),
                        l2 == 0 ==> list_at(self.links@, id as int, 0).len() >= 1,
                        forall|q: int|
                            0 <= q < self.point_count() && list_at(snap.links@, q, 0).len() >= 1
                                ==> list_at(self.links@, q, 0).len() >= 1,
                        old(self).point_count() == 1 && l2 == 0 ==> list_at(
                            self.links@,
                            0,
                            0,
                        ).len() >= 1,
                    decreases l2,
                {
                    l2 = l2 - 1;
                    let ghost links_b = self.links@;
                    cur = self.link_point(id, l2, cur);
                    proof {
                        assert forall|ll: int| 0 <= ll < l2 implies !is_linked_at(
                            self.links@,
                            id as int,
                            ll,
                        ) by {
                            lemma_linked_frame(links_b, self.links@, id as int, ll);
                        }
                        if old(self).point_count() == 1 && l2 == 0 {
                            // The second point of a graph can only have
                            // linked to the first, which now lists it or
                            // holds a full list either way.
                            let own = list_at(self.links@, id as int, 0);
                            assert(own.len() >= 1);
                            assert(neighbor_ok(
                                self.links@,
                                self.levels@,
                                id as int,
                                0,
                                own[0],
                            ));
                            assert(own[0] == 0);
                            assert(list_at(self.links@, 0, 0).contains(id) || list_at(
                                self.links@,
                                0,
                                0,
                            ).len() == cap_at(old(self).m as nat, 0));
                            if list_at(self.links@, 0, 0).contains(id) {
                                let j = choose|j: int|
                                    0 <= j < list_at(self.links@, 0, 0).len() && list_at(
                                        self.links@,
                                        0,
                                        0,
                                    )[j] == id;
                            }
                        }
                    }
                }
                proof {
                    assert forall|q: int|
                        0 <= q < old(self).point_count() && list_at(
                            old(self).links@,
                            q,
                            0,
                        ).len() >= 1 implies list_at(self.links@, q, 0).len() >= 1 by {
                        assert(snap.links@[q] == old(self).links@[q]);
                        assert(list_at(snap.links@, q, 0) == list_at(old(self).links@, q, 0));
                    }
                }
                Ok(id)
            },
        }
    }
}

/// Capacity law: in a well-formed builder — so after any sequence of
/// insertions — the neighbor list of any point at any layer holds at
/// most the layer capacity: `2m` at the bottom layer, `m` above.
pub proof fn lemma_capacity_invariant(b: GraphLayersBuilder, p: int, l: int)
    requires
        b.wf(),
        0 <= p < b.point_count(),
        0 <= l < b.links@[p]@.len(),
    ensures
        list_at(b.links@, p, l).len() <= cap_at(b.m as nat, l as nat),
{
}

/// Layer law: in a well-formed builder, every point has exactly one
/// neighbor list per layer from the bottom up to its own top layer and
/// none above it, so a list at layer `l` can exist, let alone be
/// non-empty, only when the point's top layer is at least `l`.
pub proof fn lemma_layer_monotonicity(b: GraphLayersBuilder, p: int)
    requires
        b.wf(),
        0 <= p < b.point_count(),
    ensures
        b.links@[p]@.len() == b.levels@[p] + 1,
{
}

/// Validate a batch of vectors against the configured dimensionality:
/// dimension mismatches are reported before out-of-range coordinates,
/// and nothing is reported when every vector is usable.
#[verifier::loop_isolation(false)]
pub(crate) fn check_vectors(vectors: &Vec<Vec<i64>>, dim: usize) -> (r: Option<HnswError>)
    ensures
        r == Some(HnswError::DimensionMismatch) <==> exists|i: int|
            0 <= i < vectors@.len() && (#[trigger] vectors@[i])@.len() != dim,
        r == Some(HnswError::VectorOutOfRange) <==> ((forall|i: int|
            0 <= i < vectors@.len() ==> (#[trigger] vectors@[i])@.len() == dim) && exists|i: int,
        j: int|
            0 <= i < vectors@.len() && 0 <= j < vectors@[i]@.len() && !coord_ok(
                #[trigger] vectors@[i]@[j],
            )),
        r is None <==> forall|i: int|
            0 <= i < vectors@.len() ==> vector_ok((#[trigger] vectors@[i])@, dim as nat),
{
    let n = vectors.len();
    let mut i: usize = 0;
    while i < n
        invariant
            i <= n,
            forall|k: int| 0 <= k < i ==> (#[trigger] vectors@[k])@.len() == dim,
        decreases n - i,
    {
        if vectors[i].len() != dim {
            return Some(HnswError::DimensionMismatch);
        }
        i = i + 1;
    }
    i = 0;
    while i < n
        invariant
            i <= n,
            forall|k: int| 0 <= k < n ==> (#[trigger] vectors@[k])@.len() == dim,
            forall|k: int| 0 <= k < i ==> vector_ok((#[trigger] vectors@[k])@, dim as nat),
        decreases n - i,
    {
        let v = &vectors[i];
        let mut j: usize = 0;
        while j < v.len()
            invariant
                j <= v@.len(),
                forall|k: int| 0 <= k < j ==> coord_ok(#[trigger] v@[k]),
            decreases v@.len() - j,
        {
            if v[j] > COORD_LIMIT || v[j] < -COORD_LIMIT {
                return Some(HnswError::VectorOutOfRange);
            }
            j = j + 1;
        }
        i = i + 1;
    }
    None
}

/// Build the graph sequentially: one full insertion per point, in input
/// order. The layer of point `k` and the final entry point are pure
/// functions of the seed and the input, which is what makes two builds
/// with the same seed and input identical.
///
/// After the build, every point but the first has a bottom-layer
/// neighbor.
#[verifier::loop_isolation(false)]
pub fn build_sequential(params: HnswParams, vectors: Vec<Vec<i64>>) -> (r: Result<
    GraphLayersBuilder,
    HnswError,
>)
    ensures
        r == Result::<GraphLayersBuilder, HnswError>::Err(HnswError::InvalidParams)
            <==> !params.valid(),
        r == Result::<GraphLayersBuilder, HnswError>::Err(HnswError::DimensionMismatch) <==> (
        params.valid() && exists|i: int|
            0 <= i < vectors@.len() && (#[trigger] vectors@[i])@.len() != params.dim),
        r == Result::<GraphLayersBuilder, HnswError>::Err(HnswError::VectorOutOfRange) <==> (
        params.valid() && (forall|i: int|
            0 <= i < vectors@.len() ==> (#[trigger] vectors@[i])@.len() == params.dim) && exists|
            i: int,
            j: int,
        |
            0 <= i < vectors@.len() && 0 <= j < vectors@[i]@.len() && !coord_ok(
                #[trigger] vectors@[i]@[j],
            )),
        r is Ok <==> (params.valid() && forall|i: int|
            0 <= i < vectors@.len() ==> vector_ok((#[trigger] vectors@[i])@, params.dim as nat)),
        r matches Ok(b) ==> {
            &&& b.wf()
            &&& b.m == params.m
            &&& b.ef_construct == params.ef_construct
            &&& b.dim == params.dim
            &&& b.point_count() == vectors@.len()
            &&& b.vectors@ == vectors@
            &&& b.levels@.len() == vectors@.len()
            &&& forall|k: int|
                0 <= k < vectors@.len() ==> (#[trigger] b.levels@[k]) == spec_level_of(
                    params.seed,
                    params.m as u64,
                    k as nat,
                )
            &&& b.rng.state == spec_state_after(
                params.seed,
                params.m as u64,
                vectors@.len() as nat,
            )
            &&& b.entries.best == spec_entry_after(b.levels@)
            &&& forall|k: int| 1 <= k < vectors@.len() ==> list_at(b.links@, k, 0).len() >= 1
            &&& vectors@.len() >= 2 ==> list_at(b.links@, 0, 0).len() >= 1
        },
{
    let mut b = match GraphLayersBuilder::new(params) {
        Ok(b) => b,
        Err(e) => {
            return Err(e);
        },
    };
    match check_vectors(&vectors, b.dim) {
        Some(e) => {
            return Err(e);
        },
        None => {},
    }
    let n = vectors.len();
    let ghost all = vectors@;
    let mut rest = vectors;
    let mut k: usize = 0;
    while k < n
        invariant
            k <= n,
            n == all.len(),
            rest@ =~= all.skip(k as int),
            b.wf(),
            b.m == params.m,
            b.ef_construct == params.ef_construct,
            b.dim == params.dim,
            b.point_count() == k,
            b.levels@.len() == k,
            b.vectors@ =~= all.take(k as int),
            forall|j: int|
                0 <= j < k ==> (#[trigger] b.levels@[j]) == spec_level_of(
                    params.seed,
                    params.m as u64,
                    j as nat,
                ),
            b.rng.state == spec_state_after(params.seed, params.m as u64, k as nat),
            b.entries.best == spec_entry_after(b.levels@),
            forall|j: int| 1 <= j < k ==> list_at(b.links@, j, 0).len() >= 1,
            k >= 2 ==> list_at(b.links@, 0, 0).len() >= 1,
        decreases n - k,
    {
        let v = rest.remove(0);
        proof {
            assert(v == all[k as int]);
            assert(vector_ok(v@, params.dim as nat));
        }
        let ghost levels0 = b.levels@;
        let res = b.insert_point(v);
        match res {
            Ok(_) => {},
            Err(_) => {
                proof {
                    assert(false);
                }
                return Err(HnswError::InvalidParams);
            },
        }
        proof {
            lemma_entry_after_push(levels0, b.levels@.last());
            assert(rest@ =~= all.skip(k + 1));
            assert(b.vectors@ =~= all.take(k + 1));
        }
        k = k + 1;
    }
    proof {
        assert(b.vectors@ =~= all);
    }
    Ok(b)
}

} // verus!
