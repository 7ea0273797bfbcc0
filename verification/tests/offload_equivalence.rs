use hnsw_core::builder::{build_sequential, HnswParams};
use hnsw_core::errors::HnswError;
use hnsw_core::offload::{build_on_device, GpuBuilderContext};
use hnsw_core::rng::LayerRng;

fn random_vectors(n: usize, dim: usize, seed: u64) -> Vec<Vec<i64>> {
    let mut rng = LayerRng::new(seed ^ 0x9e3779b9);
    let mut out = Vec::with_capacity(n);
    for _ in 0..n {
        let mut v = Vec::with_capacity(dim);
        for _ in 0..dim {
            v.push((rng.next_u64() % 2001) as i64 - 1000);
        }
        out.push(v);
    }
    out
}

#[test]
fn builder_context_buffers_hold_uploads() {
    let mut ctx = GpuBuilderContext::new(8, 5, 2);
    assert_eq!(ctx.requests.len(), 5);
    assert!(ctx.requests.iter().all(|e| e.is_none()));
    assert_eq!(ctx.processed_count, 0);
    ctx.upload_entries(&vec![None, Some(0), Some(1), Some(1), Some(0)]);
    assert_eq!(ctx.requests, vec![None, Some(0), Some(1), Some(1), Some(0)]);
    ctx.upload_process_points(&vec![3, 4]);
    assert_eq!(ctx.process_points, vec![3, 4]);
    assert_eq!(ctx.processed_count, 2);
}

#[test]
fn hnsw_build_graph_on_gpu_only() {
    // The offload schedule alone: level by level, checked against the
    // sequential reference at every layer.
    let num_vectors = 600;
    let dim = 16;
    let m = 8;
    let ef_construct = 16;
    let seed = 42;
    let params = HnswParams { m, ef_construct, dim, seed };
    let vectors = random_vectors(num_vectors, dim, seed);
    let gpu = build_on_device(params, vectors.clone()).unwrap();
    let cpu = build_sequential(params, vectors).unwrap().finalize();
    let top = cpu.entry_point().unwrap();
    for level in (0..=top.level).rev() {
        for i in 0..num_vectors {
            if cpu.point_level(i) >= level {
                assert_eq!(
                    gpu.neighbors(i, level),
                    cpu.neighbors(i, level),
                    "{}: {:?} vs {:?}",
                    i,
                    gpu.neighbors(i, level),
                    cpu.neighbors(i, level)
                );
            } else {
                assert!(gpu.layer_count(i) <= level);
            }
        }
    }
}

#[test]
fn hnsw_build_graph_on_gpu() {
    // Full equivalence of the offload path against the sequential path:
    // same layers, same entry, identical adjacency everywhere.
    let num_vectors = 900;
    let dim = 24;
    let m = 8;
    let ef_construct = 16;
    let seed = 42;
    let params = HnswParams { m, ef_construct, dim, seed };
    let vectors = random_vectors(num_vectors, dim, seed);
    let gpu = build_on_device(params, vectors.clone()).unwrap();
    let cpu = build_sequential(params, vectors).unwrap().finalize();
    assert_eq!(gpu.num_points(), cpu.num_points());
    assert_eq!(gpu.entry_point(), cpu.entry_point());
    for i in 0..num_vectors {
        assert_eq!(gpu.point_level(i), cpu.point_level(i));
    }
    assert!(gpu.same_graph(&cpu));
}

#[test]
fn device_build_rejects_bad_input() {
    let bad_params = HnswParams { m: 0, ef_construct: 16, dim: 4, seed: 1 };
    assert!(matches!(
        build_on_device(bad_params, vec![]),
        Err(HnswError::InvalidParams)
    ));
    let params = HnswParams { m: 4, ef_construct: 8, dim: 3, seed: 1 };
    assert!(matches!(
        build_on_device(params, vec![vec![1, 2, 3], vec![4, 5]]),
        Err(HnswError::DimensionMismatch)
    ));
    assert!(matches!(
        build_on_device(params, vec![vec![1, 2, 3], vec![4, 5, 2000000]]),
        Err(HnswError::VectorOutOfRange)
    ));
}

#[test]
fn device_build_of_empty_input_is_empty() {
    let params = HnswParams { m: 4, ef_construct: 8, dim: 3, seed: 1 };
    let g = build_on_device(params, vec![]).unwrap();
    assert_eq!(g.num_points(), 0);
    assert_eq!(g.entry_point(), None);
}
