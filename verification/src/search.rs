//! Bounded best-first (beam) search over one layer of the graph.
//!
//! The same routine serves three callers: the greedy entry descent
//! (`ef = 1`), link-candidate generation during construction, and
//! query answering on the compacted graph.

use vstd::prelude::*;

use crate::candidates::{
    beats, contains_id, distinct_ids, insert_bounded, sorted_by_score, spec_insert_bounded, wins,
    wins_exec, ScoredPoint,
};
use crate::scoring::{coord_ok, score_points, spec_score, vector_ok, MAX_DIM};

verus! {

/// Neighbor-list capacity at a layer: `2m` on the bottom layer, `m` above.
pub open spec fn cap_at(m: nat, level: nat) -> nat {
    if level == 0 {
        2 * m
    } else {
        m
    }
}

/// The neighbor list of point `p` at layer `l`.
pub open spec fn list_at(links: Seq<Vec<Vec<usize>>>, p: int, l: int) -> Seq<usize> {
    links[p]@[l]@
}

/// A legal neighbor entry: a distinct, existing point present at the layer.
pub open spec fn neighbor_ok(
    links: Seq<Vec<Vec<usize>>>,
    levels: Seq<usize>,
    p: int,
    l: int,
    q: usize,
) -> bool {
    &&& (q as int) < links.len()
    &&& q as int != p
    &&& levels[q as int] >= l
}

/// Structural adjacency invariant: one list per layer up to the point's
/// top layer, and every list holds distinct, legal neighbors.
pub open spec fn adj_ok(links: Seq<Vec<Vec<usize>>>, levels: Seq<usize>) -> bool {
    &&& links.len() == levels.len()
    &&& forall|p: int| 0 <= p < links.len() ==> (#[trigger] links[p]@.len()) == levels[p] + 1
    &&& forall|p: int, l: int, k: int|
        0 <= p < links.len() && 0 <= l < links[p]@.len() && 0 <= k < list_at(links, p, l).len()
            ==> neighbor_ok(links, levels, p, l, #[trigger] list_at(links, p, l)[k])
    &&& forall|p: int, l: int, k1: int, k2: int|
        0 <= p < links.len() && 0 <= l < links[p]@.len() && 0 <= k1 < k2 < list_at(
            links,
            p,
            l,
        ).len() ==> #[trigger] list_at(links, p, l)[k1] != #[trigger] list_at(links, p, l)[k2]
}

/// Capacity invariant: no list ever exceeds its layer's capacity.
pub open spec fn caps_ok(links: Seq<Vec<Vec<usize>>>, m: nat) -> bool {
    forall|p: int, l: int|
        0 <= p < links.len() && 0 <= l < links[p]@.len() ==> list_at(links, p, l).len() <= cap_at(
            m,
            l as nat,
        )
}

/// Some list at layer `l` mentions `id`.
pub open spec fn is_linked_at(links: Seq<Vec<Vec<usize>>>, id: int, l: int) -> bool {
    exists|p: int, k: int|
        0 <= p < links.len() && 0 <= l < links[p]@.len() && 0 <= k < list_at(links, p, l).len()
            && #[trigger] list_at(links, p, l)[k] == id
}

/// Every stored vector has the same dimensionality and bounded coordinates.
pub open spec fn vectors_ok(vectors: Seq<Vec<i64>>, dim: nat) -> bool {
    forall|p: int| 0 <= p < vectors.len() ==> vector_ok((#[trigger] vectors[p])@, dim)
}

/// What the filter says about a point; no filter admits everything.
pub open spec fn spec_allowed(filter: Option<&Vec<bool>>, idx: int) -> bool {
    match filter {
        Some(f) => f@[idx],
        None => true,
    }
}

/// A candidate that search may legally return: an existing point at the
/// layer, correctly scored, and known to the graph (the entry point or a
/// point some list at this layer mentions).
pub open spec fn cand_ok(
    sp: ScoredPoint,
    links: Seq<Vec<Vec<usize>>>,
    levels: Seq<usize>,
    vectors: Seq<Vec<i64>>,
    query: Seq<i64>,
    level: int,
    entry: int,
) -> bool {
    &&& (sp.idx as int) < links.len()
    &&& levels[sp.idx as int] >= level
    &&& sp.score as int == spec_score(vectors[sp.idx as int]@, query)
    &&& (sp.idx as int == entry || is_linked_at(links, sp.idx as int, level))
}

/// The point `p`, at priority `(s, p)`, is a local optimum of the layer:
/// none of its own neighbors has a strictly better priority against the
/// query. This is the termination condition of the greedy walk of the
/// entry descent.
pub open spec fn locally_best(
    links: Seq<Vec<Vec<usize>>>,
    vectors: Seq<Vec<i64>>,
    query: Seq<i64>,
    level: int,
    p: int,
    s: int,
) -> bool {
    forall|k: int|
        0 <= k < list_at(links, p, level).len() ==> !beats(
            spec_score(vectors[#[trigger] list_at(links, p, level)[k] as int]@, query),
            list_at(links, p, level)[k] as int,
            s,
            p,
        )
}

/// One expansion pass of the beam loop: walk the neighbor list from
/// position `k`, score each point not yet visited, and insert it into
/// the frontier and — when the filter admits it — into the result set.
pub open spec fn spec_expand(
    vectors: Seq<Vec<i64>>,
    query: Seq<i64>,
    ef: int,
    filter: Option<&Vec<bool>>,
    nbrs: Seq<usize>,
    k: int,
    vset: Set<int>,
    frontier: Seq<ScoredPoint>,
    results: Seq<ScoredPoint>,
) -> (Set<int>, Seq<ScoredPoint>, Seq<ScoredPoint>)
    decreases nbrs.len() - k,
        when 0 <= k
{
    if k >= nbrs.len() {
        (vset, frontier, results)
    } else {
        let nb = nbrs[k];
        if vset.contains(nb as int) {
            spec_expand(vectors, query, ef, filter, nbrs, k + 1, vset, frontier, results)
        } else {
            let sp = ScoredPoint { idx: nb, score: spec_score(vectors[nb as int]@, query) as i64 };
            let f2 = spec_insert_bounded(frontier, sp, ef);
            let r2 = if spec_allowed(filter, nb as int) {
                spec_insert_bounded(results, sp, ef)
            } else {
                results
            };
            spec_expand(vectors, query, ef, filter, nbrs, k + 1, vset.insert(nb as int), f2, r2)
        }
    }
}

/// Whether the beam loop keeps going: an unexpanded candidate remains
/// that could still improve the kept set (ties are expanded).
pub open spec fn spec_continue(
    frontier: Seq<ScoredPoint>,
    results: Seq<ScoredPoint>,
    ef: int,
) -> bool {
    frontier.len() > 0 && (results.len() < ef || !wins(
        results[results.len() - 1],
        frontier[0],
    ))
}

/// The beam loop: pop the best unexpanded candidate and expand it, until
/// no remaining candidate could improve the kept set. The fuel only
/// caps the recursion; the loop stops on its own before a fuel of one
/// more than the point count can run out.
pub open spec fn spec_search_loop(
    links: Seq<Vec<Vec<usize>>>,
    vectors: Seq<Vec<i64>>,
    query: Seq<i64>,
    level: int,
    ef: int,
    filter: Option<&Vec<bool>>,
    vset: Set<int>,
    frontier: Seq<ScoredPoint>,
    results: Seq<ScoredPoint>,
    fuel: nat,
) -> (Set<int>, Seq<ScoredPoint>, Seq<ScoredPoint>)
    decreases fuel,
{
    if fuel == 0 || !spec_continue(frontier, results, ef) {
        (vset, frontier, results)
    } else {
        let best = frontier[0];
        let st = spec_expand(
            vectors,
            query,
            ef,
            filter,
            list_at(links, best.idx as int, level),
            0,
            vset,
            frontier.drop_first(),
            results,
        );
        spec_search_loop(
            links,
            vectors,
            query,
            level,
            ef,
            filter,
            st.0,
            st.1,
            st.2,
            (fuel - 1) as nat,
        )
    }
}

/// What the layer search returns: the result component of the beam loop
/// started from the scored entry point. Search is a pure function of the
/// graph, the query and its parameters, which is what makes builds and
/// queries exactly reproducible.
pub open spec fn spec_search_layer(
    links: Seq<Vec<Vec<usize>>>,
    vectors: Seq<Vec<i64>>,
    query: Seq<i64>,
    level: int,
    entry: int,
    ef: int,
    filter: Option<&Vec<bool>>,
) -> Seq<ScoredPoint> {
    let e_sp = ScoredPoint {
        idx: entry as usize,
        score: spec_score(vectors[entry]@, query) as i64,
    };
    let r0 = if spec_allowed(filter, entry) {
        seq![e_sp]
    } else {
        Seq::<ScoredPoint>::empty()
    };
    spec_search_loop(
        links,
        vectors,
        query,
        level,
        ef,
        filter,
        Set::empty().insert(entry),
        seq![e_sp],
        r0,
        (links.len() + 1) as nat,
    ).2
}

/// The greedy entry descent: from layer `l` down to layer one, walk to
/// the best point a beam of one finds, and hand it down a layer.
pub open spec fn spec_descend(
    links: Seq<Vec<Vec<usize>>>,
    vectors: Seq<Vec<i64>>,
    query: Seq<i64>,
    l: int,
    cur: int,
) -> int
    decreases l,
        when l >= 0
{
    if l <= 0 {
        cur
    } else {
        spec_descend(
            links,
            vectors,
            query,
            l - 1,
            spec_search_layer(links, vectors, query, l, cur, 1, None)[0].idx as int,
        )
    }
}

/// Every neighbor of `p` at the layer is in the visited set.
spec fn neighbors_all_in(
    links: Seq<Vec<Vec<usize>>>,
    p: int,
    level: int,
    vset: Set<int>,
) -> bool {
    forall|k: int|
        0 <= k < list_at(links, p, level).len() ==> vset.contains(
            #[trigger] list_at(links, p, level)[k] as int,
        )
}

/// Whether the filter admits `idx`, decided in code.
fn allowed(filter: &Option<&Vec<bool>>, idx: usize) -> (r: bool)
    requires
        *filter matches Some(f) ==> idx < f@.len(),
    ensures
        r == spec_allowed(*filter, idx as int),
{
    match filter {
        Some(f) => f[idx],
        None => true,
    }
}

/// Beam search at one layer: starting from `entry`, repeatedly expand the
/// best unexpanded candidate and keep the best `ef` admitted points found.
///
/// Returns at most `ef` distinct points, strictly sorted best-first (ties
/// by lower id), each correctly scored against `query` and admitted by the
/// filter. Rejected points are still traversed, so filtering affects only
/// membership of the result. Without a filter the result is non-empty,
/// its head scores at least as well as the entry point, and the head is a
/// local optimum of the layer: with `ef = 1` this is exactly the greedy
/// walk that stops when no neighbor improves on the current point.
#[verifier::loop_isolation(false)]
pub fn search_layer(
    links: &Vec<Vec<Vec<usize>>>,
    levels: &Vec<usize>,
    vectors: &Vec<Vec<i64>>,
    query: &Vec<i64>,
    level: usize,
    entry: usize,
    ef: usize,
    filter: Option<&Vec<bool>>,
) -> (r: Vec<ScoredPoint>)
    requires
        adj_ok(links@, levels@),
        vectors@.len() == links@.len(),
        query@.len() <= MAX_DIM,
        forall|i: int| 0 <= i < query@.len() ==> coord_ok(#[trigger] query@[i]),
        vectors_ok(vectors@, query@.len() as nat),
        entry < links@.len(),
        levels@[entry as int] >= level,
        ef >= 1,
        filter matches Some(f) ==> f@.len() == links@.len(),
    ensures
        sorted_by_score(r@),
        distinct_ids(r@),
        r@.len() <= ef,
        forall|i: int|
            0 <= i < r@.len() ==> cand_ok(
                #[trigger] r@[i],
                links@,
                levels@,
                vectors@,
                query@,
                level as int,
                entry as int,
            ),
        forall|i: int| 0 <= i < r@.len() ==> spec_allowed(filter, (#[trigger] r@[i]).idx as int),
        filter is None ==> r@.len() >= 1,
        filter is None ==> r@[0].score as int >= spec_score(vectors@[entry as int]@, query@),
        filter is None ==> locally_best(
            links@,
            vectors@,
            query@,
            level as int,
            r@[0].idx as int,
            r@[0].score as int,
        ),
        r@ == spec_search_layer(
            links@,
            vectors@,
            query@,
            level as int,
            entry as int,
            ef as int,
            filter,
        ),
{
    let n = links.len();
    let entry_score = score_points(&vectors[entry], query);
    let e_sp = ScoredPoint { idx: entry, score: entry_score };

    let mut visited: Vec<bool> = vec![false; n];
    visited[entry] = true;
    let ghost mut vset: Set<int> = Set::empty().insert(entry as int);
    proof {
        vstd::set_lib::lemma_int_range(0, n as int);
        vstd::set_lib::lemma_len_subset(vset, vstd::set_lib::set_int_range(0, n as int));
    }

    let mut results: Vec<ScoredPoint> = Vec::new();
    if allowed(&filter, entry) {
        results.push(e_sp);
    }
    let mut frontier: Vec<ScoredPoint> = Vec::new();
    frontier.push(e_sp);

    let ghost target = spec_search_layer(
        links@,
        vectors@,
        query@,
        level as int,
        entry as int,
        ef as int,
        filter,
    );
    let ghost mut fuel_rem: nat = n as nat + 1;
    proof {
        vstd::set::axiom_set_insert_len(Set::<int>::empty(), entry as int);
        assert(vset.len() == 1);
        assert(frontier@ =~= seq![e_sp]);
        if spec_allowed(filter, entry as int) {
            assert(results@ =~= seq![e_sp]);
        } else {
            assert(results@ =~= Seq::<ScoredPoint>::empty());
        }
        assert(e_sp == ScoredPoint {
            idx: (entry as int) as usize,
            score: spec_score(vectors@[entry as int]@, query@) as i64,
        });
        assert(spec_search_loop(
            links@,
            vectors@,
            query@,
            level as int,
            ef as int,
            filter,
            vset,
            frontier@,
            results@,
            fuel_rem,
        ).2 == target);
    }

    while frontier.len() > 0 && (results.len() < ef || !wins_exec(
        &results[results.len() - 1],
        &frontier[0],
    ))
        invariant
            visited@.len() == n,
            forall|i: int| 0 <= i < n ==> ((#[trigger] visited@[i]) <==> vset.contains(i)),
            vset.finite(),
            vset.subset_of(vstd::set_lib::set_int_range(0, n as int)),
            vset.len() <= n,
            vset.contains(entry as int),
            sorted_by_score(frontier@),
            distinct_ids(frontier@),
            frontier@.len() <= ef,
            forall|i: int|
                0 <= i < frontier@.len() ==> cand_ok(
                    #[trigger] frontier@[i],
                    links@,
                    levels@,
                    vectors@,
                    query@,
                    level as int,
                    entry as int,
                ),
            forall|i: int|
                0 <= i < frontier@.len() ==> vset.contains((#[trigger] frontier@[i]).idx as int),
            sorted_by_score(results@),
            distinct_ids(results@),
            results@.len() <= ef,
            forall|i: int|
                0 <= i < results@.len() ==> cand_ok(
                    #[trigger] results@[i],
                    links@,
                    levels@,
                    vectors@,
                    query@,
                    level as int,
                    entry as int,
                ),
            forall|i: int|
                0 <= i < results@.len() ==> spec_allowed(filter, (#[trigger] results@[i]).idx as int),
            forall|i: int|
                0 <= i < results@.len() ==> vset.contains((#[trigger] results@[i]).idx as int),
            filter is None ==> results@.len() >= 1,
            filter is None ==> forall|v: int| #[trigger]
                vset.contains(v) ==> !beats(
                    spec_score(vectors@[v]@, query@),
                    v,
                    results@[0].score as int,
                    results@[0].idx as int,
                ),
            filter is None ==> ((frontier@.len() > 0 && frontier@[0].idx == results@[0].idx)
                || neighbors_all_in(links@, results@[0].idx as int, level as int, vset)),
            fuel_rem > n - vset.len() + frontier@.len(),
            spec_search_loop(
                links@,
                vectors@,
                query@,
                level as int,
                ef as int,
                filter,
                vset,
                frontier@,
                results@,
                fuel_rem,
            ).2 == target,
        decreases n - vset.len() + frontier@.len(),
    {
        let ghost f_pre = frontier@;
        let best = frontier.remove(0);
        let ghost m0: int = n - vset.len() + frontier@.len();
        let ghost nbrs_g = list_at(links@, best.idx as int, level as int);
        let ghost exp_target = spec_expand(
            vectors@,
            query@,
            ef as int,
            filter,
            nbrs_g,
            0,
            vset,
            frontier@,
            results@,
        );
        proof {
            // One unfolding of the loop model: popping the head and
            // expanding it costs one unit of fuel.
            assert(frontier@ =~= f_pre.drop_first());
            assert(spec_continue(f_pre, results@, ef as int));
            assert(spec_search_loop(
                links@,
                vectors@,
                query@,
                level as int,
                ef as int,
                filter,
                exp_target.0,
                exp_target.1,
                exp_target.2,
                (fuel_rem - 1) as nat,
            ).2 == target);
            fuel_rem = (fuel_rem - 1) as nat;
        }
        let deg = links[best.idx][level].len();
        let mut k: usize = 0;
        while k < deg
            invariant
                k <= deg,
                deg == list_at(links@, best.idx as int, level as int).len(),
                (best.idx as int) < links@.len(),
                levels@[best.idx as int] >= level,
                best.score as int == spec_score(vectors@[best.idx as int]@, query@),
                visited@.len() == n,
                forall|i: int| 0 <= i < n ==> ((#[trigger] visited@[i]) <==> vset.contains(i)),
                vset.finite(),
                vset.subset_of(vstd::set_lib::set_int_range(0, n as int)),
                vset.len() <= n,
                vset.contains(entry as int),
                vset.contains(best.idx as int),
                sorted_by_score(frontier@),
                distinct_ids(frontier@),
                frontier@.len() <= ef,
                forall|i: int|
                    0 <= i < frontier@.len() ==> cand_ok(
                        #[trigger] frontier@[i],
                        links@,
                        levels@,
                        vectors@,
                        query@,
                        level as int,
                        entry as int,
                    ),
                forall|i: int|
                    0 <= i < frontier@.len() ==> vset.contains((#[trigger] frontier@[i]).idx as int),
                sorted_by_score(results@),
                distinct_ids(results@),
                results@.len() <= ef,
                forall|i: int|
                    0 <= i < results@.len() ==> cand_ok(
                        #[trigger] results@[i],
                        links@,
                        levels@,
                        vectors@,
                        query@,
                        level as int,
                        entry as int,
                    ),
                forall|i: int|
                    0 <= i < results@.len() ==> spec_allowed(
                        filter,
                        (#[trigger] results@[i]).idx as int,
                    ),
                forall|i: int|
                    0 <= i < results@.len() ==> vset.contains((#[trigger] results@[i]).idx as int),
                filter is None ==> results@.len() >= 1,
                filter is None ==> forall|v: int| #[trigger]
                    vset.contains(v) ==> !beats(
                        spec_score(vectors@[v]@, query@),
                        v,
                        results@[0].score as int,
                        results@[0].idx as int,
                    ),
                filter is None ==> ((frontier@.len() > 0 && frontier@[0].idx == results@[0].idx)
                    || neighbors_all_in(links@, results@[0].idx as int, level as int, vset) || (
                best.idx == results@[0].idx && forall|k2: int|
                    0 <= k2 < k ==> vset.contains(
                        #[trigger] list_at(links@, best.idx as int, level as int)[k2] as int,
                    ))),
                n - vset.len() + frontier@.len() <= m0,
                spec_expand(
                    vectors@,
                    query@,
                    ef as int,
                    filter,
                    nbrs_g,
                    k as int,
                    vset,
                    frontier@,
                    results@,
                ) == exp_target,
            decreases deg - k,
        {
            let nb = links[best.idx][level][k];
            let ghost v_head = vset;
            let ghost f_head = frontier@;
            let ghost r_head = results@;
            proof {
                assert(neighbor_ok(
                    links@,
                    levels@,
                    best.idx as int,
                    level as int,
                    list_at(links@, best.idx as int, level as int)[k as int],
                ));
            }
            if !visited[nb] {
                visited[nb] = true;
                proof {
                    vstd::set::axiom_set_insert_len(vset, nb as int);
                }
                let ghost vset0 = vset;
                proof {
                    vset = vset.insert(nb as int);
                    vstd::set_lib::lemma_len_subset(
                        vset,
                        vstd::set_lib::set_int_range(0, n as int),
                    );
                }
                let sc = score_points(&vectors[nb], query);
                let sp = ScoredPoint { idx: nb, score: sc };
                proof {
                    assert(is_linked_at(links@, nb as int, level as int));
                    assert(!contains_id(frontier@, nb as int)) by {
                        if contains_id(frontier@, nb as int) {
                            let i = choose|i: int|
                                0 <= i < frontier@.len() && frontier@[i].idx == nb as int;
                            assert(vset0.contains(nb as int));
                        }
                    }
                }
                let ghost f0 = frontier@;
                insert_bounded(&mut frontier, sp, ef);
                proof {
                    assert forall|i: int| 0 <= i < frontier@.len() implies cand_ok(
                        #[trigger] frontier@[i],
                        links@,
                        levels@,
                        vectors@,
                        query@,
                        level as int,
                        entry as int,
                    ) && vset.contains(frontier@[i].idx as int) by {
                        if frontier@[i] == sp {
                        } else {
                            assert(f0.contains(frontier@[i]));
                            let j = choose|j: int| 0 <= j < f0.len() && f0[j] == frontier@[i];
                            assert(vset0.contains(f0[j].idx as int));
                        }
                    }
                }
                if allowed(&filter, nb) {
                    proof {
                        assert(!contains_id(results@, nb as int)) by {
                            if contains_id(results@, nb as int) {
                                let i = choose|i: int|
                                    0 <= i < results@.len() && results@[i].idx == nb as int;
                                assert(vset0.contains(nb as int));
                            }
                        }
                    }
                    let ghost r0 = results@;
                    insert_bounded(&mut results, sp, ef);
                    proof {
                        assert forall|i: int| 0 <= i < results@.len() implies cand_ok(
                            #[trigger] results@[i],
                            links@,
                            levels@,
                            vectors@,
                            query@,
                            level as int,
                            entry as int,
                        ) && vset.contains(results@[i].idx as int) && spec_allowed(
                            filter,
                            results@[i].idx as int,
                        ) by {
                            if results@[i] == sp {
                            } else {
                                assert(r0.contains(results@[i]));
                                let j = choose|j: int| 0 <= j < r0.len() && r0[j] == results@[i];
                                assert(vset0.contains(r0[j].idx as int));
                            }
                        }
                        if filter is None {
                            let oh = r0[0];
                            let nh = results@[0];
                            // The head is the better of the old head and
                            // the new candidate, so it still dominates
                            // every visited point.
                            assert(nh == if wins(sp, oh) {
                                sp
                            } else {
                                oh
                            });
                            assert forall|v: int| #[trigger]
                                vset.contains(v) implies !beats(
                                spec_score(vectors@[v]@, query@),
                                v,
                                nh.score as int,
                                nh.idx as int,
                            ) by {
                                if v != nb as int {
                                    assert(vset0.contains(v));
                                    assert(!beats(
                                        spec_score(vectors@[v]@, query@),
                                        v,
                                        oh.score as int,
                                        oh.idx as int,
                                    ));
                                }
                            }
                            // The head stays at the top of the frontier
                            // unless it has already been expanded.
                            if nh != oh {
                                assert(nh == sp);
                                assert(wins(sp, oh));
                                if f0.len() > 0 {
                                    assert(vset0.contains(f0[0].idx as int));
                                    assert(!beats(
                                        spec_score(vectors@[f0[0].idx as int]@, query@),
                                        f0[0].idx as int,
                                        oh.score as int,
                                        oh.idx as int,
                                    ));
                                    assert(wins(sp, f0[0]));
                                }
                                assert(frontier@[0] == sp);
                            } else {
                                if f0.len() > 0 && f0[0].idx == oh.idx {
                                    assert(f0[0].score as int == spec_score(
                                        vectors@[f0[0].idx as int]@,
                                        query@,
                                    ));
                                    assert(f0[0] == oh);
                                    assert(!wins(sp, f0[0]));
                                    assert(frontier@[0] == f0[0]);
                                }
                            }
                        }
                    }
                }
                proof {
                    // One unfolding of the expansion model.
                    assert(sp == ScoredPoint {
                        idx: nb,
                        score: spec_score(vectors@[nb as int]@, query@) as i64,
                    });
                    assert(frontier@ == spec_insert_bounded(f_head, sp, ef as int));
                    assert(spec_expand(
                        vectors@,
                        query@,
                        ef as int,
                        filter,
                        nbrs_g,
                        k as int,
                        v_head,
                        f_head,
                        r_head,
                    ) == spec_expand(
                        vectors@,
                        query@,
                        ef as int,
                        filter,
                        nbrs_g,
                        k as int + 1,
                        vset,
                        frontier@,
                        results@,
                    ));
                }
            } else {
                proof {
                    assert(vset.contains(nb as int));
                    assert(spec_expand(
                        vectors@,
                        query@,
                        ef as int,
                        filter,
                        nbrs_g,
                        k as int,
                        v_head,
                        f_head,
                        r_head,
                    ) == spec_expand(
                        vectors@,
                        query@,
                        ef as int,
                        filter,
                        nbrs_g,
                        k as int + 1,
                        vset,
                        frontier@,
                        results@,
                    ));
                }
            }
            k = k + 1;
        }
        proof {
            // The expansion is complete: the state equals its model.
            assert(spec_expand(
                vectors@,
                query@,
                ef as int,
                filter,
                nbrs_g,
                deg as int,
                vset,
                frontier@,
                results@,
            ) == (vset, frontier@, results@));
            assert(vset == exp_target.0 && frontier@ == exp_target.1 && results@
                == exp_target.2);
        }
        proof {
            // Close out this expansion: if the head was the point just
            // expanded, all of its neighbors are visited now.
            if filter is None {
                if best.idx == results@[0].idx && !(frontier@.len() > 0 && frontier@[0].idx
                    == results@[0].idx) {
                    assert(neighbors_all_in(links@, results@[0].idx as int, level as int, vset));
                }
            }
        }
    }
    proof {
        if filter is None {
            let rh = results@[0];
            // On exit every neighbor of the head has been visited: either
            // the frontier is exhausted, or its top is strictly beaten by
            // the worst result, which the head cannot be.
            if frontier@.len() > 0 && frontier@[0].idx == rh.idx {
                let last = results@[results@.len() - 1];
                assert(wins(last, frontier@[0]));
                assert(frontier@[0].score as int == spec_score(
                    vectors@[frontier@[0].idx as int]@,
                    query@,
                ));
                assert(frontier@[0] == rh);
                if results@.len() > 1 {
                    assert(wins(rh, last));
                }
                assert(false);
            }
            assert(neighbors_all_in(links@, rh.idx as int, level as int, vset));
            assert forall|k: int|
                0 <= k < list_at(links@, rh.idx as int, level as int).len() implies !beats(
                spec_score(
                    vectors@[#[trigger] list_at(links@, rh.idx as int, level as int)[k] as int]@,
                    query@,
                ),
                list_at(links@, rh.idx as int, level as int)[k] as int,
                rh.score as int,
                rh.idx as int,
            ) by {
                assert(vset.contains(list_at(links@, rh.idx as int, level as int)[k] as int));
            }
        }
        // The loop stopped on its own, so the model's base case applies.
        assert(!spec_continue(frontier@, results@, ef as int));
        assert(results@ == target);
    }
    results
}

} // verus!
