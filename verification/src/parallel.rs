//! Work shared between the threads of a pool.

use rayon::iter::{IntoParallelRefIterator, ParallelIterator};
use vstd::prelude::*;

verus! {

/// Applies `f` to every item on the global thread pool of rayon: `par_iter`, `map` and `collect`
/// of its parallel iterators.
///
/// Not proved here: that `collect` gathers one result per item, in the order of the items, each
/// of them returned by a call of `f` on its item.
#[verifier::external_body]
pub(crate) fn par_map<T: Sync, U: Send, F: Fn(&T) -> U + Sync + Send>(items: &[T], f: F) -> (res:
    Vec<U>)
    requires
        forall|i: int| 0 <= i < items@.len() ==> call_requires(f, (&#[trigger] items@[i],)),
    ensures
        res@.len() == items@.len(),
        forall|i: int|
            0 <= i < items@.len() ==> call_ensures(f, (&items@[i],), #[trigger] res@[i]),
{
    items.par_iter().map(f).collect()
}

/// The number of threads in the current pool, from `rayon::current_num_threads`.
///
/// Not proved here: that a pool has at least one thread and at most 65 535. Which number it is
/// depends on the machine and is left open.
#[verifier::external_body]
pub(crate) fn thread_count() -> (n: usize)
    ensures
        1 <= n <= 0xffff,
{
    rayon::current_num_threads()
}

} // verus!
