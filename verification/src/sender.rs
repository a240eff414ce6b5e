//! The producer's side of the batch queue.

use vstd::prelude::*;
use mpmc::Queue;
use crate::data::sample::Sample;
use crate::pool::empty_batch;
use crate::pool::pool_clone;
use crate::pool::pool_pop;

verus! {

/// An empty batch: one from the pool, or a new one with room for
/// `batch_size` samples when the pool has none.
pub fn acquire(pool: &Queue<Vec<Sample>>, batch_size: usize) -> (batch: Vec<Sample>)
    ensures
        batch@.len() == 0,
{
    let mut batch = match pool_pop(pool) {
        Some(batch) => batch,
        None => empty_batch(batch_size),
    };
    batch.clear();
    batch
}

/// The producer's side of the batch queue: collects samples into a batch and
/// hands the batch out once it is full.
pub struct Sender {
    pool: Queue<Vec<Sample>>,
    batch_size: usize,
    buffer: Vec<Sample>,
}

impl Sender {
    /// The samples of the batch that is being filled, in the order in which
    /// they were sent.
    pub closed spec fn pending(&self) -> Seq<Sample> {
        self.buffer@
    }

    /// The number of samples at which a batch is full.
    pub closed spec fn batch_size(&self) -> usize {
        self.batch_size
    }

    /// The pool that the sender takes its empty batches from.
    pub closed spec fn pool(&self) -> Queue<Vec<Sample>> {
        self.pool
    }

    /// A sender that takes its empty batches from `pool`, the first one at
    /// once, and fills them up to `batch_size` samples.
    pub fn new(pool: Queue<Vec<Sample>>, batch_size: usize) -> (sender: Self)
        ensures
            sender.pending() == Seq::<Sample>::empty(),
            sender.batch_size() == batch_size,
            sender.pool() == pool,
    {
        let buffer = acquire(&pool, batch_size);
        Sender { pool, batch_size, buffer }
    }

    /// Appends a sample to the current batch. When that fills the batch, the
    /// full batch is handed out to be put on the filled queue, and an empty
    /// one takes its place: one from the pool, or a new one when the pool
    /// has none.
    pub fn send(&mut self, sample: Sample) -> (full: Option<Vec<Sample>>)
        ensures
            final(self).batch_size() == old(self).batch_size(),
            final(self).pool() == old(self).pool(),
            full is Some <==> old(self).pending().len() + 1 >= old(self).batch_size(),
            full matches Some(batch) ==> batch@ == old(self).pending().push(sample),
            full is Some ==> final(self).pending().len() == 0,
            full is None ==> final(self).pending() == old(self).pending().push(sample),
    {
        self.buffer.push(sample);
        if self.buffer.len() >= self.batch_size {
            let mut batch = acquire(&self.pool, self.batch_size);
            core::mem::swap(&mut self.buffer, &mut batch);
            Some(batch)
        } else {
            None
        }
    }

    /// The number of samples at which a batch is handed out.
    pub fn get_batch_size(&self) -> (n: usize)
        ensures
            n == self.batch_size(),
    {
        self.batch_size
    }

    /// Sets the number of samples at which a batch is handed out.
    pub fn set_batch_size(&mut self, batch_size: usize)
        ensures
            final(self).batch_size() == batch_size,
            final(self).pending() == old(self).pending(),
            final(self).pool() == old(self).pool(),
    {
        self.batch_size = batch_size;
    }
}

impl Clone for Sender {
    /// A sender on the same pool with the same batch size and a batch of its
    /// own.
    fn clone(&self) -> (sender: Self)
        ensures
            sender.pending() == Seq::<Sample>::empty(),
            sender.batch_size() == self.batch_size(),
            sender.pool() == self.pool(),
    {
        Sender::new(pool_clone(&self.pool), self.batch_size)
    }
}

} // verus!
