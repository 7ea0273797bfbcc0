use hnsw_core::builder::{build_sequential, HnswParams};
use hnsw_core::graph_links::GraphLinks;
use hnsw_core::offload::build_on_device;
use hnsw_core::rng::LayerRng;

fn random_vectors(n: usize, dim: usize, seed: u64) -> Vec<Vec<i64>> {
    let mut rng = LayerRng::new(seed ^ 0x9e3779b9);
    let mut out = Vec::with_capacity(n);
    for _ in 0..n {
        let mut v = Vec::with_capacity(dim);
        for _ in 0..dim {
            v.push((rng.next_u64() % 2001) as i64 - 1000);
        }
        out.push(v);
    }
    out
}

fn reachable_from_entry(g: &GraphLinks) -> usize {
    let n = g.num_points();
    let entry = g.entry_point().unwrap().point_id;
    let mut seen = vec![false; n];
    let mut stack = vec![entry];
    seen[entry] = true;
    let mut count = 0usize;
    while let Some(p) = stack.pop() {
        count += 1;
        for &nb in g.neighbors(p, 0).iter() {
            if !seen[nb] {
                seen[nb] = true;
                stack.push(nb);
            }
        }
    }
    count
}

#[test]
fn build_ten_thousand_points_and_match_accelerator() {
    let num_vectors = 10000;
    let dim = 32;
    let m = 8;
    let ef_construct = 16;
    let seed = 42;
    let params = HnswParams { m, ef_construct, dim, seed };
    let vectors = random_vectors(num_vectors, dim, seed);

    let cpu = build_sequential(params, vectors.clone()).unwrap().finalize();

    // Every point keeps between 1 and 2m bottom-layer neighbors.
    for p in 0..num_vectors {
        let deg = cpu.neighbors(p, 0).len();
        assert!(deg >= 1, "point {} has no bottom-layer neighbors", p);
        assert!(deg <= 2 * m, "point {} exceeds the bottom-layer capacity", p);
    }

    // Almost every point is reachable from the recorded entry through
    // bottom-layer links alone. Full single-component reachability does
    // not hold of this algorithm: capacity pruning may cut the last
    // incoming link of a point, while every point always keeps both
    // outgoing links and one incoming mutual link at insertion time.
    let reached = reachable_from_entry(&cpu);
    assert!(reached >= num_vectors * 99 / 100, "only {} reachable", reached);

    // The accelerator path reproduces the adjacency at every layer.
    let gpu = build_on_device(params, vectors).unwrap();
    assert!(gpu.same_graph(&cpu));
}
