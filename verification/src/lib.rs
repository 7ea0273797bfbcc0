//! Core of an approximate-nearest-neighbor vector index: an incrementally
//! built Hierarchical Navigable Small World (HNSW) graph.
//!
//! The graph is built one point at a time ([`builder::GraphLayersBuilder`]),
//! or level by level through an explicit offload buffer protocol
//! ([`offload`]), and is then compacted into an immutable, query-only
//! representation ([`graph_links::GraphLinks`]).
//!
//! Scores are integers, higher is better; distances come from a fixed
//! integer metric so that builds are exactly reproducible.

use vstd::prelude::*;

pub mod builder;
pub mod candidates;
pub mod entry_points;
pub mod errors;
pub mod graph_links;
pub mod offload;
pub mod rng;
pub mod scoring;
pub mod search;
pub mod text_index;

verus! {

/// Number of threads to use for parallel HNSW index building.
///
/// A `max_indexing_threads` of zero asks for the default policy: use all
/// available CPUs but one, and at least one. The caller supplies the CPU
/// count, since probing the machine is not this library's concern.
pub fn num_rayon_threads(max_indexing_threads: usize, num_cpus: usize) -> (r: usize)
    ensures
        max_indexing_threads != 0 ==> r == max_indexing_threads,
        max_indexing_threads == 0 && num_cpus <= 1 ==> r == 1,
        max_indexing_threads == 0 && num_cpus > 1 ==> r == num_cpus - 1,
{
    if max_indexing_threads == 0 {
        if num_cpus <= 1 {
            1
        } else {
            num_cpus - 1
        }
    } else {
        max_indexing_threads
    }
}

} // verus!
