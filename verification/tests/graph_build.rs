use hnsw_core::builder::{build_sequential, GraphLayersBuilder, HnswParams};
use hnsw_core::errors::HnswError;
use hnsw_core::graph_links::GraphLinks;
use hnsw_core::rng::LayerRng;

fn random_vectors(n: usize, dim: usize, seed: u64) -> Vec<Vec<i64>> {
    let mut rng = LayerRng::new(seed ^ 0x9e3779b9);
    let mut out = Vec::with_capacity(n);
    for _ in 0..n {
        let mut v = Vec::with_capacity(dim);
        for _ in 0..dim {
            v.push((rng.next_u64() % 2001) as i64 - 1000);
        }
        out.push(v);
    }
    out
}

fn score(a: &[i64], b: &[i64]) -> i64 {
    let mut acc = 0i64;
    for i in 0..a.len() {
        let d = a[i] - b[i];
        acc -= d * d;
    }
    acc
}

fn brute_force_top(vectors: &[Vec<i64>], q: &[i64], k: usize) -> Vec<usize> {
    let mut scored: Vec<(i64, usize)> = vectors
        .iter()
        .enumerate()
        .map(|(i, v)| (score(v, q), i))
        .collect();
    scored.sort_by(|a, b| b.0.cmp(&a.0).then(a.1.cmp(&b.1)));
    scored.into_iter().take(k).map(|(_, i)| i).collect()
}

fn build(n: usize, dim: usize, m: usize, ef_construct: usize, seed: u64) -> GraphLinks {
    let params = HnswParams { m, ef_construct, dim, seed };
    let vectors = random_vectors(n, dim, seed);
    build_sequential(params, vectors).unwrap().finalize()
}

#[test]
fn capacity_invariant_holds_on_concrete_build() {
    let m = 4;
    let g = build(300, 8, m, 12, 11);
    for p in 0..g.num_points() {
        for l in 0..g.layer_count(p) {
            let cap = if l == 0 { 2 * m } else { m };
            assert!(g.neighbors(p, l).len() <= cap);
        }
    }
}

#[test]
fn layer_monotonicity_holds_on_concrete_build() {
    let g = build(300, 8, 4, 12, 13);
    for p in 0..g.num_points() {
        // One neighbor list per layer up to the point's top layer,
        // none above it.
        assert_eq!(g.layer_count(p), g.point_level(p) + 1);
    }
    // The entry point carries the highest layer of all.
    let top = g.entry_point().unwrap();
    for p in 0..g.num_points() {
        assert!(g.point_level(p) <= top.level);
    }
    assert_eq!(g.point_level(top.point_id), top.level);
}

#[test]
fn sequential_builds_are_deterministic() {
    let params = HnswParams { m: 6, ef_construct: 20, dim: 12, seed: 77 };
    let vectors = random_vectors(500, 12, 3);
    let g1 = build_sequential(params, vectors.clone()).unwrap().finalize();
    let g2 = build_sequential(params, vectors.clone()).unwrap().finalize();
    assert!(g1.same_graph(&g2));
    // Bitwise identity extends to query answers.
    let q = random_vectors(1, 12, 99).pop().unwrap();
    let r1 = g1.search(&q, 10, 30, None).unwrap();
    let r2 = g2.search(&q, 10, 30, None).unwrap();
    assert_eq!(r1.len(), r2.len());
    for i in 0..r1.len() {
        assert_eq!(r1[i].idx, r2[i].idx);
        assert_eq!(r1[i].score, r2[i].score);
    }
}

#[test]
fn incremental_inserts_match_batch_build() {
    let params = HnswParams { m: 5, ef_construct: 16, dim: 6, seed: 21 };
    let vectors = random_vectors(200, 6, 8);
    let mut b = GraphLayersBuilder::new(params).unwrap();
    for (i, v) in vectors.iter().enumerate() {
        assert_eq!(b.insert_point(v.clone()), Ok(i));
    }
    let g1 = b.finalize();
    let g2 = build_sequential(params, vectors).unwrap().finalize();
    assert!(g1.same_graph(&g2));
}

#[test]
fn search_returns_exact_scores_sorted() {
    let params = HnswParams { m: 4, ef_construct: 8, dim: 2, seed: 1 };
    let vectors = vec![vec![0i64, 0], vec![3, 4], vec![10, 0]];
    let g = build_sequential(params, vectors).unwrap().finalize();
    let res = g.search(&vec![0i64, 1], 2, 8, None).unwrap();
    assert_eq!(res.len(), 2);
    assert_eq!(res[0].idx, 0);
    assert_eq!(res[0].score, -1); // (0-0)^2 + (0-1)^2
    assert_eq!(res[1].idx, 1);
    assert_eq!(res[1].score, -18); // (3-0)^2 + (4-1)^2
}

#[test]
fn search_rejects_bad_queries() {
    let g = build(50, 4, 4, 8, 2);
    assert!(matches!(
        g.search(&vec![1i64, 2, 3], 5, 8, None),
        Err(HnswError::DimensionMismatch)
    ));
    assert!(matches!(
        g.search(&vec![1i64, 2, 3, 2000000], 5, 8, None),
        Err(HnswError::VectorOutOfRange)
    ));
    let short_mask = vec![true; 10];
    assert!(matches!(
        g.search(&vec![0i64, 0, 0, 0], 5, 8, Some(&short_mask)),
        Err(HnswError::InvalidParams)
    ));
}

#[test]
fn filter_restricts_result_membership() {
    let n = 120;
    let g = build(n, 4, 4, 12, 31);
    let q = vec![5i64, -3, 2, 8];
    let mask: Vec<bool> = (0..n).map(|i| i % 2 == 1).collect();
    let res = g.search(&q, 15, 40, Some(&mask)).unwrap();
    assert!(!res.is_empty());
    for sp in &res {
        assert_eq!(sp.idx % 2, 1);
    }
    let none_mask = vec![false; n];
    let empty = g.search(&q, 15, 40, Some(&none_mask)).unwrap();
    assert!(empty.is_empty());
}

#[test]
fn search_orders_and_bounds_results() {
    let g = build(400, 8, 8, 24, 5);
    let q = random_vectors(1, 8, 123).pop().unwrap();
    let k = 10;
    let res = g.search(&q, k, 40, None).unwrap();
    assert_eq!(res.len(), k);
    for w in res.windows(2) {
        assert!(
            w[0].score > w[1].score || (w[0].score == w[1].score && w[0].idx < w[1].idx)
        );
    }
    let mut ids: Vec<usize> = res.iter().map(|sp| sp.idx).collect();
    ids.sort();
    ids.dedup();
    assert_eq!(ids.len(), k);
}

#[test]
fn recall_does_not_decrease_with_wider_beam() {
    let n = 400;
    let dim = 8;
    let vectors = random_vectors(n, dim, 17);
    let params = HnswParams { m: 8, ef_construct: 32, dim, seed: 17 };
    let g = build_sequential(params, vectors.clone()).unwrap().finalize();
    let k = 10;
    let queries = random_vectors(5, dim, 555);
    let mut prev_hits = 0usize;
    for ef in [k, 4 * k, n] {
        let mut hits = 0usize;
        for q in &queries {
            let truth = brute_force_top(&vectors, q, k);
            let res = g.search(q, k, ef, None).unwrap();
            for sp in &res {
                if truth.contains(&sp.idx) {
                    hits += 1;
                }
            }
        }
        assert!(hits >= prev_hits);
        prev_hits = hits;
    }
    // With a beam as wide as the whole component, recall is perfect.
    assert_eq!(prev_hits, queries.len() * k);
}
