use hnsw_core::builder::{select_neighbors_heuristic, GraphLayersBuilder, HnswParams};
use hnsw_core::candidates::ScoredPoint;
use hnsw_core::entry_points::{EntryPoint, EntryPoints};
use hnsw_core::errors::HnswError;
use hnsw_core::num_rayon_threads;
use hnsw_core::rng::{LayerRng, MAX_LEVEL};
use hnsw_core::scoring::score_points;
use hnsw_core::search::search_layer;
use hnsw_core::text_index::{TextIndexParams, TextIndexType, TokenizerType};

#[test]
fn text_index_defaults() {
    let p = TextIndexParams::default();
    assert_eq!(p.index_type, TextIndexType::Text);
    assert_eq!(p.tokenizer, TokenizerType::Word);
    assert_eq!(p.min_token_len, None);
    assert_eq!(p.max_token_len, None);
    assert_eq!(p.lowercase, None);
}

#[test]
fn text_index_params_compare() {
    let a = TextIndexParams {
        index_type: TextIndexType::Text,
        tokenizer: TokenizerType::Whitespace,
        min_token_len: Some(2),
        max_token_len: Some(20),
        lowercase: Some(true),
    };
    let b = a.clone();
    assert_eq!(a, b);
    let c = TextIndexParams { tokenizer: TokenizerType::Prefix, ..a.clone() };
    assert_ne!(a, c);
}

#[test]
fn thread_count_policy() {
    assert_eq!(num_rayon_threads(0, 8), 7);
    assert_eq!(num_rayon_threads(0, 1), 1);
    assert_eq!(num_rayon_threads(0, 0), 1);
    assert_eq!(num_rayon_threads(5, 64), 5);
}

#[test]
fn rng_is_deterministic() {
    let mut a = LayerRng::new(42);
    let mut b = LayerRng::new(42);
    for _ in 0..100 {
        assert_eq!(a.next_u64(), b.next_u64());
    }
    let mut c = LayerRng::new(43);
    let mut any_diff = false;
    let mut a2 = LayerRng::new(42);
    for _ in 0..10 {
        if a2.next_u64() != c.next_u64() {
            any_diff = true;
        }
    }
    assert!(any_diff);
}

#[test]
fn level_sampling_bounds() {
    let mut rng = LayerRng::new(7);
    for _ in 0..1000 {
        let l = rng.sample_level(8);
        assert!(l <= MAX_LEVEL);
    }
    // With m = 1 every draw survives, so the cap is always reached.
    let mut rng1 = LayerRng::new(9);
    assert_eq!(rng1.sample_level(1), MAX_LEVEL);
}

#[test]
fn error_descriptions() {
    assert_eq!(HnswError::InvalidParams.describe(), "invalid index parameters");
    assert_eq!(HnswError::DimensionMismatch.describe(), "vector dimension mismatch");
    assert_eq!(HnswError::VectorOutOfRange.describe(), "vector coordinate out of range");
}

#[test]
fn builder_rejects_bad_params() {
    let bad = HnswParams { m: 0, ef_construct: 16, dim: 4, seed: 1 };
    assert_eq!(GraphLayersBuilder::new(bad).err(), Some(HnswError::InvalidParams));
    let bad2 = HnswParams { m: 8, ef_construct: 0, dim: 4, seed: 1 };
    assert_eq!(GraphLayersBuilder::new(bad2).err(), Some(HnswError::InvalidParams));
    let bad3 = HnswParams { m: 8, ef_construct: 16, dim: 0, seed: 1 };
    assert_eq!(GraphLayersBuilder::new(bad3).err(), Some(HnswError::InvalidParams));
    let bad4 = HnswParams { m: 8, ef_construct: 16, dim: 5000, seed: 1 };
    assert_eq!(GraphLayersBuilder::new(bad4).err(), Some(HnswError::InvalidParams));
    let good = HnswParams { m: 8, ef_construct: 16, dim: 4, seed: 1 };
    assert!(GraphLayersBuilder::new(good).is_ok());
}

#[test]
fn insert_rejects_bad_vectors() {
    let params = HnswParams { m: 4, ef_construct: 8, dim: 3, seed: 5 };
    let mut b = GraphLayersBuilder::new(params).unwrap();
    assert_eq!(b.insert_point(vec![1, 2]).err(), Some(HnswError::DimensionMismatch));
    assert_eq!(
        b.insert_point(vec![1, 2, 3, 4]).err(),
        Some(HnswError::DimensionMismatch)
    );
    assert_eq!(
        b.insert_point(vec![1, 2, 2000000]).err(),
        Some(HnswError::VectorOutOfRange)
    );
    assert_eq!(
        b.insert_point(vec![-2000000, 0, 0]).err(),
        Some(HnswError::VectorOutOfRange)
    );
    assert_eq!(b.num_points(), 0);
    assert_eq!(b.insert_point(vec![1, 2, 3]), Ok(0));
    assert_eq!(b.insert_point(vec![4, 5, 6]), Ok(1));
    assert_eq!(b.num_points(), 2);
}

#[test]
fn scoring_is_negated_squared_distance() {
    let a = vec![0i64, 0];
    let b = vec![3i64, 4];
    assert_eq!(score_points(&a, &b), -25);
    assert_eq!(score_points(&b, &a), -25);
    assert_eq!(score_points(&a, &a), 0);
}

#[test]
fn entry_points_keep_first_record_holder() {
    let mut e = EntryPoints::new();
    assert_eq!(e.new_point(0, 2), None);
    // A lower or equal level does not supersede the entry.
    assert_eq!(e.new_point(1, 1), Some(EntryPoint { point_id: 0, level: 2 }));
    assert_eq!(e.new_point(2, 2), Some(EntryPoint { point_id: 0, level: 2 }));
    // A strictly higher level does.
    assert_eq!(e.new_point(3, 5), Some(EntryPoint { point_id: 0, level: 2 }));
    assert_eq!(e.new_point(4, 3), Some(EntryPoint { point_id: 3, level: 5 }));
}

#[test]
fn greedy_walk_moves_to_local_optimum() {
    // A chain 0 - 1 - 2 on the bottom layer with the query at point 2:
    // a beam of one must walk the chain, not stay on the entry.
    let links = vec![vec![vec![1]], vec![vec![0, 2]], vec![vec![1]]];
    let levels = vec![0usize, 0, 0];
    let vectors = vec![vec![0i64], vec![10], vec![20]];
    let q = vec![20i64];
    let r = search_layer(&links, &levels, &vectors, &q, 0, 0, 1, None);
    assert_eq!(r.len(), 1);
    assert_eq!(r[0].idx, 2);
    assert_eq!(r[0].score, 0);
}

#[test]
fn second_insert_links_the_first_point_back() {
    let params = HnswParams { m: 4, ef_construct: 8, dim: 2, seed: 3 };
    let mut b = GraphLayersBuilder::new(params).unwrap();
    assert_eq!(b.insert_point(vec![0, 0]), Ok(0));
    assert_eq!(b.insert_point(vec![1, 1]), Ok(1));
    // Mutual linking: the new point lists the first and is listed back.
    assert_eq!(b.neighbors(1, 0), &vec![0]);
    assert_eq!(b.neighbors(0, 0), &vec![1]);
}

#[test]
fn heuristic_prefers_diverse_neighbors() {
    // Target at the origin; `b` is closer to `a` than to the target, so
    // the diversity test rejects it while the farther `c` is kept.
    let vectors = vec![
        vec![0i64, 0], // target, id 0
        vec![1, 0],    // a, id 1, score -1
        vec![2, 0],    // b, id 2, score -4, but closer to a (-1)
        vec![0, 5],    // c, id 3, score -25, farther from a (-26)
    ];
    let cands = vec![
        ScoredPoint { idx: 1, score: -1 },
        ScoredPoint { idx: 2, score: -4 },
        ScoredPoint { idx: 3, score: -25 },
    ];
    let two = select_neighbors_heuristic(&cands, &vectors, 0, 2);
    assert_eq!(two, vec![1, 3]);
    // With room to spare the rejected candidate is filled back in.
    let three = select_neighbors_heuristic(&cands, &vectors, 0, 3);
    assert_eq!(three, vec![1, 3, 2]);
}
