//! The thread pool of the `polars` crate.
use pyo3_polars::export::polars_core::utils::rayon::prelude::{
    IntoParallelIterator, ParallelIterator,
};
use pyo3_polars::export::polars_core::POOL;
use vstd::prelude::*;

verus! {

/// `ThreadPool::current_num_threads` on the pool of `polars`: how many
/// threads there are depends on the machine and on the environment; there is
/// always one. The pool is made on its first use, in a process that lets it
/// start its threads and where `POLARS_MAX_THREADS`, if it is set, is a number.
#[verifier::external_body]
pub(crate) fn thread_count() -> (n: usize)
    ensures
        n >= 1,
{
    POOL.current_num_threads()
}

/// `ThreadPool::install` on the pool of `polars`, with a parallel iteration
/// of `rayon` inside: calls the function once on every piece, on whichever
/// thread, and gathers the results in the order of the pieces.
#[verifier::external_body]
pub(crate) fn map_pieces<R: Send, F: Fn((usize, usize)) -> R + Sync + Send>(
    pieces: Vec<(usize, usize)>,
    f: F,
) -> (results: Vec<R>)
    requires
        forall|j: int| 0 <= j < pieces.len() ==> call_requires(f, (#[trigger] pieces[j],)),
    ensures
        results.len() == pieces.len(),
        forall|j: int|
            0 <= j < results.len() ==> call_ensures(f, (pieces[j],), #[trigger] results[j]),
{
    POOL.install(|| pieces.into_par_iter().map(f).collect())
}

} // verus!
