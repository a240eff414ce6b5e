//! The settings of a receiver.

use vstd::prelude::*;
use crate::pool::MAX_CAPACITY;
use crate::receiver::Receiver;

verus! {

/// The settings that a receiver is made from.
pub struct Config {
    /// The length of a window in seconds.
    pub duration: u64,
    /// The number of windows in a run.
    pub windows: u64,
    /// The depth of the queues and the number of batches in the pool.
    pub capacity: usize,
    /// The number of samples that a batch has room for.
    pub batch_size: usize,
    /// Whether a new run begins when one ends.
    pub service_mode: bool,
    /// The address on which meters are served, if any.
    pub http_listen: Option<String>,
    /// The longest wait for an event, in milliseconds, if any.
    pub poll_delay: Option<u64>,
}

/// The settings of a receiver that nothing was said about: sixty windows of
/// sixty seconds, room for 1024 batches of 512 samples, one run, no
/// listener and no limit on the wait for an event.
pub open spec fn default_settings() -> Config {
    Config {
        duration: 60,
        windows: 60,
        capacity: 1024,
        batch_size: 512,
        service_mode: false,
        http_listen: None,
        poll_delay: None,
    }
}

impl Config {
    /// The default settings.
    pub fn new() -> (c: Self)
        ensures
            c == default_settings(),
    {
        Config {
            duration: 60,
            windows: 60,
            capacity: 1024,
            batch_size: 512,
            service_mode: false,
            http_listen: None,
            poll_delay: None,
        }
    }

    /// Sets the length of a window in seconds.
    pub fn duration(self, duration: u64) -> (c: Self)
        ensures
            c == (Config { duration, ..self }),
    {
        Config { duration, ..self }
    }

    /// Sets the number of windows in a run.
    pub fn windows(self, windows: u64) -> (c: Self)
        ensures
            c == (Config { windows, ..self }),
    {
        Config { windows, ..self }
    }

    /// Sets the depth of the queues and the size of the pool.
    pub fn capacity(self, capacity: usize) -> (c: Self)
        ensures
            c == (Config { capacity, ..self }),
    {
        Config { capacity, ..self }
    }

    /// Sets the number of samples that a batch has room for.
    pub fn batch_size(self, batch_size: usize) -> (c: Self)
        ensures
            c == (Config { batch_size, ..self }),
    {
        Config { batch_size, ..self }
    }

    /// Sets whether a new run begins when one ends.
    pub fn service(self, service_mode: bool) -> (c: Self)
        ensures
            c == (Config { service_mode, ..self }),
    {
        Config { service_mode, ..self }
    }

    /// Sets the address on which meters are served.
    pub fn http_listen(self, address: String) -> (c: Self)
        ensures
            c == (Config { http_listen: Some(address), ..self }),
    {
        Config { http_listen: Some(address), ..self }
    }

    /// Sets the longest wait for an event, in milliseconds.
    pub fn poll_delay(self, delay: Option<u64>) -> (c: Self)
        ensures
            c == (Config { poll_delay: delay, ..self }),
    {
        Config { poll_delay: delay, ..self }
    }

    /// Makes the receiver that the settings describe.
    pub fn build(self) -> (r: Receiver)
        requires
            self.capacity <= MAX_CAPACITY,
        ensures
            r.wf(),
            r@.configured_from(self),
            r.settings() == self,
    {
        Receiver::configured(self)
    }
}

impl Default for Config {
    fn default() -> (c: Self)
        ensures
            c == default_settings(),
    {
        Config::new()
    }
}

} // verus!
