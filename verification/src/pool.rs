//! The pool of empty batches: what is taken on trust of the `mpmc` crate.

use vstd::prelude::*;
use mpmc::Queue;
use crate::data::sample::Sample;

verus! {

/// The bounded queue of the `mpmc` crate. Producers and the receiver share
/// one queue through its handles, so what it holds at any moment is not a
/// value that a contract can speak of.
#[verifier::external_type_specification]
#[verifier::external_body]
#[verifier::reject_recursive_types(T)]
pub struct ExQueue<T>(Queue<T>);

/// The largest capacity for which a queue is made: far above it the queue's
/// rounding to a power of two, or the size of its buffer, would overflow.
pub const MAX_CAPACITY: usize = 16_777_216;

/// The largest number of samples for which a new batch reserves room at
/// once; a batch grows beyond it when it has to.
pub const MAX_RESERVE: usize = 1_048_576;

/// A new empty batch with room for `batch_size` samples, or for
/// `MAX_RESERVE` if that is less.
pub fn empty_batch(batch_size: usize) -> (batch: Vec<Sample>)
    ensures
        batch@.len() == 0,
{
    if batch_size <= MAX_RESERVE {
        Vec::with_capacity(batch_size)
    } else {
        Vec::with_capacity(MAX_RESERVE)
    }
}

/// `Queue::with_capacity`: an empty queue for at least `capacity` batches.
#[verifier::external_body]
pub(crate) fn pool_with_capacity(capacity: usize) -> (pool: Queue<Vec<Sample>>)
    requires
        capacity <= MAX_CAPACITY,
{
    Queue::with_capacity(capacity)
}

/// `Queue::push`: offers an empty batch to the queue. A full queue hands the
/// batch back.
#[verifier::external_body]
pub(crate) fn pool_push(pool: &Queue<Vec<Sample>>, batch: Vec<Sample>) -> (r: Result<
    (),
    Vec<Sample>,
>)
    requires
        batch@.len() == 0,
    ensures
        r matches Err(returned) ==> returned == batch,
{
    pool.push(batch)
}

/// `Queue::pop`: takes a batch from the queue, if it holds one. Nothing is
/// claimed of the batch: another handle may have put it there.
#[verifier::external_body]
pub(crate) fn pool_pop(pool: &Queue<Vec<Sample>>) -> (r: Option<Vec<Sample>>) {
    pool.pop()
}

/// `Queue::clone`: another handle to the same queue. A queue is a counted
/// reference to its state, and the copy refers to the state that `pool`
/// refers to.
#[verifier::external_body]
pub(crate) fn pool_clone(pool: &Queue<Vec<Sample>>) -> (handle: Queue<Vec<Sample>>)
    ensures
        handle == *pool,
{
    pool.clone()
}

} // verus!
