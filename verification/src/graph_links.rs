//! The immutable, compacted link representation used at query time.
//!
//! [`GraphLinks`] is produced once, by [`GraphLayersBuilder::finalize`],
//! holds exactly the builder's final neighbor lists, and offers no
//! mutation. Queries reuse the same beam-search primitive the builder
//! used during construction.

use vstd::prelude::*;

use crate::builder::GraphLayersBuilder;
use crate::candidates::{distinct_ids, sorted_by_score, ScoredPoint};
use crate::entry_points::EntryPoint;
use crate::errors::HnswError;
use crate::rng::MAX_LEVEL;
use crate::scoring::{coord_ok, spec_score, vector_ok, COORD_LIMIT, MAX_DIM};
use crate::search::{
    adj_ok, cand_ok, caps_ok, list_at, locally_best, search_layer, spec_allowed, spec_descend,
    spec_search_layer, vectors_ok,
};

verus! {

/// A finished, read-only HNSW graph.
pub struct GraphLinks {
    pub m: usize,
    pub dim: usize,
    /// Top layer of each point.
    pub levels: Vec<usize>,
    /// Final neighbor lists, exactly as the builder left them.
    pub links: Vec<Vec<Vec<usize>>>,
    /// The indexed vectors, by point id.
    pub vectors: Vec<Vec<i64>>,
    /// The entry point recorded at the end of the build.
    pub entry: Option<EntryPoint>,
}

impl GraphLinks {
    /// Number of points in the graph.
    pub open spec fn point_count(self) -> nat {
        self.links@.len()
    }

    /// Same structural invariants as the builder, frozen.
    pub open spec fn wf(self) -> bool {
        &&& 1 <= self.m <= 1000000
        &&& 1 <= self.dim <= MAX_DIM
        &&& adj_ok(self.links@, self.levels@)
        &&& caps_ok(self.links@, self.m as nat)
        &&& self.vectors@.len() == self.links@.len()
        &&& vectors_ok(self.vectors@, self.dim as nat)
        &&& forall|p: int| 0 <= p < self.levels@.len() ==> (#[trigger] self.levels@[p]) <= MAX_LEVEL
        &&& match self.entry {
            None => self.links@.len() == 0,
            Some(e) => {
                &&& (e.point_id as int) < self.links@.len()
                &&& self.levels@[e.point_id as int] == e.level
                &&& forall|p: int|
                    0 <= p < self.levels@.len() ==> (#[trigger] self.levels@[p]) <= e.level
            },
        }
    }

    /// What a query returns: the greedy descent from the entry down to
    /// layer one, then the bottom-layer beam search, cut back to `top`.
    /// A query is a pure function of the graph and its arguments.
    pub open spec fn spec_query(
        self,
        query: Seq<i64>,
        top: int,
        ef: int,
        filter: Option<&Vec<bool>>,
    ) -> Seq<ScoredPoint> {
        if top == 0 {
            Seq::<ScoredPoint>::empty()
        } else {
            match self.entry {
                None => Seq::<ScoredPoint>::empty(),
                Some(ep) => {
                    let width = if ef > top {
                        ef
                    } else {
                        top
                    };
                    let c = spec_descend(
                        self.links@,
                        self.vectors@,
                        query,
                        ep.level as int,
                        ep.point_id as int,
                    );
                    let full = spec_search_layer(
                        self.links@,
                        self.vectors@,
                        query,
                        0,
                        c,
                        width,
                        filter,
                    );
                    if full.len() > top {
                        full.take(top)
                    } else {
                        full
                    }
                },
            }
        }
    }

    /// Two graphs with identical layers and identical neighbor lists at
    /// every point and layer.
    pub open spec fn same_graph_spec(self, other: GraphLinks) -> bool {
        &&& self.levels@ == other.levels@
        &&& self.links@.len() == other.links@.len()
        &&& forall|p: int, l: int|
            0 <= p < self.links@.len() && 0 <= l < self.links@[p]@.len() ==> list_at(
                self.links@,
                p,
                l,
            ) == list_at(other.links@, p, l)
        &&& self.entry == other.entry
    }

    /// How many points are indexed.
    pub fn num_points(&self) -> (r: usize)
        ensures
            r == self.point_count(),
    {
        self.links.len()
    }

    /// Top layer of a point.
    pub fn point_level(&self, p: usize) -> (r: usize)
        requires
            p < self.point_count(),
            adj_ok(self.links@, self.levels@),
        ensures
            r == self.levels@[p as int],
    {
        self.levels[p]
    }

    /// The neighbor list of `p` at layer `l`.
    pub fn neighbors(&self, p: usize, l: usize) -> (r: &Vec<usize>)
        requires
            p < self.point_count(),
            l < self.links@[p as int]@.len(),
        ensures
            r@ == list_at(self.links@, p as int, l as int),
    {
        &self.links[p][l]
    }

    /// Number of layers a point participates in.
    pub fn layer_count(&self, p: usize) -> (r: usize)
        requires
            p < self.point_count(),
        ensures
            r == self.links@[p as int]@.len(),
    {
        self.links[p].len()
    }

    /// The recorded entry point.
    pub fn entry_point(&self) -> (r: Option<EntryPoint>)
        ensures
            r == self.entry,
    {
        self.entry
    }

    /// Compare two graphs layer by layer, point by point: the
    /// equivalence check of the offload path against the sequential one.
    #[verifier::loop_isolation(false)]
    pub fn same_graph(&self, other: &GraphLinks) -> (r: bool)
        requires
            self.wf(),
            other.wf(),
        ensures
            r == self.same_graph_spec(*other),
    {
        let n = self.links.len();
        if n != other.links.len() || self.levels.len() != other.levels.len() {
            return false;
        }
        match (self.entry, other.entry) {
            (None, None) => {},
            (Some(a), Some(b)) => {
                if a.point_id != b.point_id || a.level != b.level {
                    return false;
                }
            },
            _ => {
                return false;
            },
        }
        let mut p: usize = 0;
        while p < n
            invariant
                p <= n,
                forall|q: int| 0 <= q < p ==> self.levels@[q] == other.levels@[q],
                forall|q: int, l: int|
                    0 <= q < p && 0 <= l < self.links@[q]@.len() ==> list_at(self.links@, q, l)
                        == list_at(other.links@, q, l),
            decreases n - p,
        {
            if self.levels[p] != other.levels[p] {
                return false;
            }
            let rows = self.links[p].len();
            let mut l: usize = 0;
            while l < rows
                invariant
                    l <= rows,
                    p < n,
                    rows == self.links@[p as int]@.len(),
                    rows == other.links@[p as int]@.len(),
                    forall|l2: int|
                        0 <= l2 < l ==> list_at(self.links@, p as int, l2) == list_at(
                            other.links@,
                            p as int,
                            l2,
                        ),
                decreases rows - l,
            {
                let la = self.neighbors(p, l);
                let lb = other.neighbors(p, l);
                if la.len() != lb.len() {
                    return false;
                }
                let len = la.len();
                let mut k: usize = 0;
                while k < len
                    invariant
                        k <= len,
                        p < n,
                        l < rows,
                        rows == self.links@[p as int]@.len(),
                        len == list_at(self.links@, p as int, l as int).len(),
                        len == list_at(other.links@, p as int, l as int).len(),
                        forall|k2: int|
                            0 <= k2 < k ==> list_at(self.links@, p as int, l as int)[k2]
                                == list_at(other.links@, p as int, l as int)[k2],
                    decreases len - k,
                {
                    if la[k] != lb[k] {
                        return false;
                    }
                    k = k + 1;
                }
                proof {
                    assert(list_at(self.links@, p as int, l as int) =~= list_at(
                        other.links@,
                        p as int,
                        l as int,
                    ));
                }
                l = l + 1;
            }
            p = p + 1;
        }
        proof {
            assert(self.levels@ =~= other.levels@);
        }
        true
    }

    /// Answer a query: `top` best points under the metric, traversing
    /// the graph greedily from the entry down to the bottom layer, then
    /// with a beam of width at least `max(ef, top)`.
    ///
    /// The result is strictly sorted best-first (ties by lower id),
    /// holds distinct correctly scored points that the filter admits,
    /// and is non-empty whenever the graph is non-empty, `top >= 1`, and
    /// no filter is given.
    #[verifier::loop_isolation(false)]
    pub fn search(
        &self,
        query: &Vec<i64>,
        top: usize,
        ef: usize,
        filter: Option<&Vec<bool>>,
    ) -> (r: Result<Vec<ScoredPoint>, HnswError>)
        requires
            self.wf(),
        ensures
            r == Result::<Vec<ScoredPoint>, HnswError>::Err(HnswError::DimensionMismatch)
                <==> query@.len() != self.dim,
            r == Result::<Vec<ScoredPoint>, HnswError>::Err(HnswError::VectorOutOfRange) <==> (
            query@.len() == self.dim && exists|i: int|
                0 <= i < query@.len() && !coord_ok(#[trigger] query@[i])),
            r == Result::<Vec<ScoredPoint>, HnswError>::Err(HnswError::InvalidParams) <==> (
            vector_ok(query@, self.dim as nat) && (filter matches Some(f) && f@.len()
                != self.point_count())),
            r is Ok <==> (vector_ok(query@, self.dim as nat) && (filter matches Some(f) ==> f@.len()
                == self.point_count())),
            r matches Ok(res) ==> {
                &&& sorted_by_score(res@)
                &&& distinct_ids(res@)
                &&& res@.len() <= top
                &&& forall|i: int|
                    0 <= i < res@.len() ==> ((#[trigger] res@[i]).idx as int)
                        < self.point_count() && res@[i].score as int == spec_score(
                        self.vectors@[res@[i].idx as int]@,
                        query@,
                    )
                &&& forall|i: int|
                    0 <= i < res@.len() ==> spec_allowed(filter, (#[trigger] res@[i]).idx as int)
                &&& (self.point_count() >= 1 && top >= 1 && filter is None) ==> res@.len() >= 1
                &&& (top >= 1 && filter is None) ==> (self.entry matches Some(e)
                    ==> res@[0].score as int >= spec_score(
                    self.vectors@[e.point_id as int]@,
                    query@,
                ))
                &&& (top >= 1 && filter is None && self.entry is Some) ==> locally_best(
                    self.links@,
                    self.vectors@,
                    query@,
                    0,
                    res@[0].idx as int,
                    res@[0].score as int,
                )
                &&& res@ == self.spec_query(query@, top as int, ef as int, filter)
            },
    {
        if query.len() != self.dim {
            return Err(HnswError::DimensionMismatch);
        }
        let mut i: usize = 0;
        while i < query.len()
            invariant
                i <= query@.len(),
                forall|k: int| 0 <= k < i ==> coord_ok(#[trigger] query@[k]),
            decreases query@.len() - i,
        {
            if query[i] > COORD_LIMIT || query[i] < -COORD_LIMIT {
                return Err(HnswError::VectorOutOfRange);
            }
            i = i + 1;
        }
        match filter {
            Some(f) => {
                if f.len() != self.links.len() {
                    return Err(HnswError::InvalidParams);
                }
            },
            None => {},
        }
        if top == 0 {
            let empty_res: Vec<ScoredPoint> = Vec::new();
            proof {
                assert(empty_res@ =~= self.spec_query(query@, top as int, ef as int, filter));
            }
            return Ok(empty_res);
        }
        match self.entry {
            None => {
                let empty_res: Vec<ScoredPoint> = Vec::new();
                proof {
                    assert(empty_res@ =~= self.spec_query(query@, top as int, ef as int, filter));
                }
                Ok(empty_res)
            },
            Some(ep) => {
                let mut cur: usize = ep.point_id;
                let mut l: usize = ep.level;
                while l > 0
                    invariant
                        cur < self.point_count(),
                        self.levels@[cur as int] >= l,
                        spec_score(self.vectors@[cur as int]@, query@) >= spec_score(
                            self.vectors@[ep.point_id as int]@,
                            query@,
                        ),
                        spec_descend(self.links@, self.vectors@, query@, l as int, cur as int)
                            == spec_descend(
                            self.links@,
                            self.vectors@,
                            query@,
                            ep.level as int,
                            ep.point_id as int,
                        ),
                    decreases l,
                {
                    let step = search_layer(
                        &self.links,
                        &self.levels,
                        &self.vectors,
                        query,
                        l,
                        cur,
                        1,
                        None,
                    );
                    proof {
                        assert(cand_ok(
                            step@[0],
                            self.links@,
                            self.levels@,
                            self.vectors@,
                            query@,
                            l as int,
                            cur as int,
                        ));
                        assert(spec_descend(
                            self.links@,
                            self.vectors@,
                            query@,
                            l as int,
                            cur as int,
                        ) == spec_descend(
                            self.links@,
                            self.vectors@,
                            query@,
                            l as int - 1,
                            step@[0].idx as int,
                        ));
                    }
                    cur = step[0].idx;
                    l = l - 1;
                }
                let width = if ef > top {
                    ef
                } else {
                    top
                };
                let mut res = search_layer(
                    &self.links,
                    &self.levels,
                    &self.vectors,
                    query,
                    0,
                    cur,
                    width,
                    filter,
                );
                if res.len() > top {
                    let ghost pre = res@;
                    res.truncate(top);
                    proof {
                        assert(res@ =~= pre.subrange(0, top as int));
                        assert(res@ =~= pre.take(top as int));
                    }
                }
                proof {
                    assert(res@ == self.spec_query(query@, top as int, ef as int, filter));
                }
                Ok(res)
            },
        }
    }
}

/// Capacity law, carried over to the compacted graph: no neighbor list
/// of a well-formed [`GraphLinks`] exceeds its layer's capacity.
pub proof fn lemma_links_capacity(g: GraphLinks, p: int, l: int)
    requires
        g.wf(),
        0 <= p < g.point_count(),
        0 <= l < g.links@[p]@.len(),
    ensures
        list_at(g.links@, p, l).len() <= crate::search::cap_at(g.m as nat, l as nat),
{
}

/// Layer law, carried over to the compacted graph: a point has neighbor
/// lists exactly for the layers up to its own top layer.
pub proof fn lemma_links_layer_monotonicity(g: GraphLinks, p: int)
    requires
        g.wf(),
        0 <= p < g.point_count(),
    ensures
        g.links@[p]@.len() == g.levels@[p] + 1,
{
}

impl GraphLayersBuilder {
    /// Freeze the builder into the immutable query-time representation.
    /// The compacted neighbor lists are exactly the builder's final
    /// ones, point for point and layer for layer.
    pub fn finalize(self) -> (g: GraphLinks)
        requires
            self.wf(),
        ensures
            g.wf(),
            g.m == self.m,
            g.dim == self.dim,
            g.levels@ == self.levels@,
            g.links@ == self.links@,
            g.vectors@ == self.vectors@,
            g.entry == self.entries.best,
    {
        GraphLinks {
            m: self.m,
            dim: self.dim,
            levels: self.levels,
            links: self.links,
            vectors: self.vectors,
            entry: self.entries.best,
        }
    }
}

} // verus!
