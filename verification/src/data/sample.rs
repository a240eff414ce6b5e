//! Samples.

use vstd::prelude::*;

verus! {

/// One observed operation: the channel it belongs to, the counter readings at
/// its start and at its end, and the number of events it stands for.
pub struct Sample {
    pub channel: String,
    pub start: u64,
    pub stop: u64,
    pub count: u64,
}

impl Sample {
    /// A sample that stands for one event.
    pub fn new(start: u64, stop: u64, channel: String) -> (s: Self)
        ensures
            s.channel@ == channel@,
            s.start == start,
            s.stop == stop,
            s.count == 1,
    {
        Sample { channel, start, stop, count: 1 }
    }

    /// A sample that stands for `count` events.
    pub fn counted(start: u64, stop: u64, count: u64, channel: String) -> (s: Self)
        ensures
            s.channel@ == channel@,
            s.start == start,
            s.stop == stop,
            s.count == count,
    {
        Sample { channel, start, stop, count }
    }

    pub fn metric(&self) -> (channel: &String)
        ensures
            channel@ == self.channel@,
    {
        &self.channel
    }

    pub fn start(&self) -> (tick: u64)
        ensures
            tick == self.start,
    {
        self.start
    }

    pub fn stop(&self) -> (tick: u64)
        ensures
            tick == self.stop,
    {
        self.stop
    }

    pub fn count(&self) -> (n: u64)
        ensures
            n == self.count,
    {
        self.count
    }
}

} // verus!
