//! Event totals by channel.

use vstd::prelude::*;
use crate::arith::saturating_sum;
use crate::table::Table;

verus! {

/// The counters after `count` events on `channel`: a channel that was never
/// initialised is ignored.
pub open spec fn counted(m: Map<Seq<char>, u64>, channel: Seq<char>, count: u64) -> Map<
    Seq<char>,
    u64,
> {
    if m.contains_key(channel) {
        m.insert(channel, saturating_sum(m[channel], count))
    } else {
        m
    }
}

/// The total of `channel`, zero for a channel that was never initialised.
pub open spec fn total(m: Map<Seq<char>, u64>, channel: Seq<char>) -> u64 {
    if m.contains_key(channel) {
        m[channel]
    } else {
        0
    }
}

/// Lifetime event totals, one for each initialised channel.
pub struct Counters {
    table: Table<u64>,
}

impl View for Counters {
    type V = Map<Seq<char>, u64>;

    closed spec fn view(&self) -> Map<Seq<char>, u64> {
        self.table.map()
    }
}

impl Counters {
    pub closed spec fn wf(&self) -> bool {
        self.table.wf()
    }

    pub fn new() -> (c: Self)
        ensures
            c.wf(),
            c@ == Map::<Seq<char>, u64>::empty(),
    {
        Counters { table: Table::new() }
    }

    /// Starts counting `channel` from zero.
    pub fn init(&mut self, channel: String)
        requires
            old(self).wf(),
        ensures
            final(self).wf(),
            final(self)@ == old(self)@.insert(channel@, 0),
    {
        self.table.insert(channel, 0);
    }

    /// Stops counting `channel` and forgets its total.
    pub fn remove(&mut self, channel: &String)
        requires
            old(self).wf(),
        ensures
            final(self).wf(),
            final(self)@ == old(self)@.remove(channel@),
    {
        self.table.remove(channel);
    }

    /// Adds `count` to the total of `channel`, if it is initialised.
    pub fn increment_by(&mut self, channel: &String, count: u64)
        requires
            old(self).wf(),
        ensures
            final(self).wf(),
            final(self)@ == counted(old(self)@, channel@, count),
    {
        match self.table.position(channel) {
            Some(i) => {
                let ghost keys = self.table.keys();
                let ghost values = self.table.values();
                let slot = self.table.value_mut(i);
                *slot = slot.saturating_add(count);
                proof {
                    crate::table::lemma_map_of_update(
                        keys,
                        values,
                        i as int,
                        saturating_sum(values[i as int], count),
                    );
                }
            },
            None => {},
        }
    }

    /// The total of `channel`, zero if it is not initialised.
    pub fn count(&self, channel: &String) -> (n: u64)
        requires
            self.wf(),
        ensures
            n == total(self@, channel@),
    {
        match self.table.position(channel) {
            Some(i) => *self.table.value_at(i),
            None => 0,
        }
    }
}

} // verus!
