//! The receiver: dispatch of samples, the window and the run, artifacts and
//! the scrape response.

use vstd::prelude::*;
use clocksource::Clocksource;
use mpmc::Queue;
use crate::arith::saturating_mul;
use crate::clock::clock_clone;
use crate::clock::clock_convert;
use crate::clock::clock_counter;
use crate::clock::clock_frequency;
use crate::clock::clock_new;
use crate::common::ControlMessage;
use crate::common::default_percentiles;
use crate::common::default_taus;
use crate::common::Interest;
use crate::common::InterestView;
use crate::common::Percentile;
use crate::common::percentile_values;
use crate::config::Config;
use crate::config::default_settings;
use crate::consistency::lemma_initial_consistent;
use crate::consistency::lemma_recorded_consistent;
use crate::consistency::lemma_same_stores_consistent;
use crate::consistency::lemma_subscribed_consistent;
use crate::consistency::lemma_unsubscribed_consistent;
use crate::consistency::lemma_window_consistent;
use crate::data::allans::Allans;
use crate::data::counters::Counters;
use crate::data::heatmaps::Heatmaps;
use crate::data::histograms::Histograms;
use crate::data::meters::integer_pairs;
use crate::data::meters::lists;
use crate::data::meters::Meters;
use crate::data::meters::MetersView;
use crate::data::sample::Sample;
use crate::model::ArtifactView;
use crate::model::default_tau_values;
use crate::model::initial;
use crate::model::is_plot;
use crate::model::plotted;
use crate::model::ReceiverView;
use crate::model::render_lags;
use crate::model::render_percentiles;
use crate::model::RunStepView;
use crate::pool::empty_batch;
use crate::pool::MAX_CAPACITY;
use crate::pool::pool_clone;
use crate::pool::pool_push;
use crate::pool::pool_with_capacity;
use crate::scrape::response;
use crate::scrape::response_text;
use crate::scrape::stats;
use crate::sender::Sender;

verus! {

/// What is to be written to a file at the end of a run.
pub enum Artifact {
    /// The text of a trace and the path to write it to.
    Trace { path: String, text: String },
    /// The image of a waterfall and the path to write it to.
    Waterfall { path: String, image: String },
}

impl View for Artifact {
    type V = ArtifactView;

    open spec fn view(&self) -> ArtifactView {
        match self {
            Artifact::Trace { path, text } => ArtifactView::Trace { path: path@, text: text@ },
            Artifact::Waterfall { path, image } => ArtifactView::Waterfall {
                path: path@,
                image: image@,
            },
        }
    }
}

/// What the receiver does next, asked before each window.
pub enum RunStep {
    /// The run goes on with its next window.
    NextWindow,
    /// The run is over, its artifacts are to be written, and the next run
    /// begins.
    NextRun(Vec<Artifact>),
    /// The run is over, its artifacts are to be written, and the receiver
    /// stops.
    Finished(Vec<Artifact>),
}

/// The value of each artifact.
pub open spec fn artifact_views(artifacts: Seq<Artifact>) -> Seq<ArtifactView> {
    Seq::new(artifacts.len(), |i: int| artifacts[i]@)
}

impl View for RunStep {
    type V = RunStepView;

    open spec fn view(&self) -> RunStepView {
        match self {
            RunStep::NextWindow => RunStepView::NextWindow,
            RunStep::NextRun(artifacts) => RunStepView::NextRun(artifact_views(artifacts@)),
            RunStep::Finished(artifacts) => RunStepView::Finished(artifact_views(artifacts@)),
        }
    }
}

/// The value of each subscription.
pub open spec fn interest_views(interests: Seq<Interest>) -> Seq<InterestView> {
    Seq::new(interests.len(), |i: int| interests[i]@)
}

/// Aggregates the samples of many producers into counts, latency
/// percentiles, Allan series and heatmaps, window by window.
pub struct Receiver {
    window_time: u64,
    window_duration: u64,
    end_time: u64,
    run_duration: u64,
    window: u64,
    config: Config,
    empty_queue: Queue<Vec<Sample>>,
    allans: Allans,
    counters: Counters,
    histograms: Histograms,
    meters: Meters,
    interests: Vec<Interest>,
    taus: Vec<usize>,
    percentiles: Vec<Percentile>,
    heatmaps: Heatmaps,
    clocksource: Clocksource,
    frequency: u64,
}

impl View for Receiver {
    type V = ReceiverView;

    closed spec fn view(&self) -> ReceiverView {
        ReceiverView {
            clock: self.clocksource,
            frequency: self.frequency,
            interests: interest_views(self.interests@),
            percentiles: percentile_values(self.percentiles@),
            taus: self.taus@,
            counters: self.counters@,
            histograms: self.histograms@,
            allans: self.allans@,
            heatmaps: self.heatmaps@,
            heatmap_start: self.heatmaps.start(),
            heatmap_slices: self.heatmaps.slices(),
            meters: self.meters@,
            window_time: self.window_time,
            window_duration: self.window_duration,
            end_time: self.end_time,
            run_duration: self.run_duration,
            window: self.window,
            windows: self.config.windows,
            service_mode: self.config.service_mode,
        }
    }
}

impl Receiver {
    /// Every store is well formed, and the stores follow the subscriptions.
    pub closed spec fn wf(&self) -> bool {
        &&& self.allans.wf()
        &&& self.counters.wf()
        &&& self.histograms.wf()
        &&& self.heatmaps.wf()
        &&& self@.consistent()
    }

    /// The stores of a well-formed receiver follow its subscriptions.
    pub proof fn lemma_consistent(&self)
        requires
            self.wf(),
        ensures
            self@.consistent(),
    {
    }

    /// The settings that the receiver was made from.
    pub closed spec fn settings(&self) -> Config {
        self.config
    }

    /// The pool of empty batches that the receiver hands drained batches
    /// back to and that its senders take their batches from.
    pub closed spec fn pool(&self) -> Queue<Vec<Sample>> {
        self.empty_queue
    }

    /// A receiver with the default settings.
    pub fn new() -> (r: Self)
        ensures
            r.wf(),
            r@.configured_from(default_settings()),
            r.settings() == default_settings(),
    {
        Receiver::configured(Config::new())
    }

    /// A receiver with the given settings. Reads the clock once for the
    /// start of the first window and once for its frequency.
    pub fn configured(config: Config) -> (r: Self)
        requires
            config.capacity <= MAX_CAPACITY,
        ensures
            r.wf(),
            r@.configured_from(config),
            r.settings() == config,
    {
        let clocksource = clock_new();
        let start_time = clock_counter(&clocksource);
        let frequency = clock_frequency(&clocksource);
        let r = Receiver::assemble(config, clocksource, start_time, frequency);
        assert(r@ == initial(config, r@.clock, start_time, frequency));
        r
    }

    /// The settings to start from when making a receiver.
    pub fn configure() -> (c: Config)
        ensures
            c == default_settings(),
    {
        Config::new()
    }

    /// A receiver with the given settings and clock, for a clock that read
    /// `start_time` and counts `frequency` times a second. The pool is
    /// offered `capacity` empty batches, each with room for `batch_size`
    /// samples.
    pub fn assemble(config: Config, clocksource: Clocksource, start_time: u64, frequency: u64) -> (r:
        Self)
        requires
            config.capacity <= MAX_CAPACITY,
        ensures
            r.wf(),
            r@ == initial(config, clocksource, start_time, frequency),
            r.settings() == config,
    {
        let empty_queue = pool_with_capacity(config.capacity);
        let mut offered: usize = 0;
        while offered < config.capacity
            invariant
                offered <= config.capacity,
            decreases config.capacity - offered,
        {
            let _ = pool_push(&empty_queue, empty_batch(config.batch_size));
            offered += 1;
        }
        let slices = saturating_mul(config.duration, config.windows);
        let window_duration = saturating_mul(config.duration, frequency);
        let window_time = start_time.saturating_add(window_duration);
        let run_duration = saturating_mul(config.windows, window_duration);
        let end_time = start_time.saturating_add(run_duration);
        let heatmap_start = clock_convert(&clocksource, start_time);
        let taus = default_taus();
        assert(taus@ =~= default_tau_values());
        let r = Receiver {
            window_time,
            window_duration,
            end_time,
            run_duration,
            window: 0,
            config,
            empty_queue,
            allans: Allans::new(),
            counters: Counters::new(),
            histograms: Histograms::new(),
            meters: Meters::new(),
            interests: Vec::new(),
            taus,
            percentiles: default_percentiles(),
            heatmaps: Heatmaps::new(slices, heatmap_start),
            clocksource,
            frequency,
        };
        assert(interest_views(r.interests@) =~= Seq::<InterestView>::empty());
        assert(r@ =~= initial(config, clocksource, start_time, frequency));
        proof {
            lemma_initial_consistent(config, clocksource, start_time, frequency);
        }
        r
    }

    /// A copy of the clock.
    pub fn get_clocksource(&self) -> (clock: Clocksource)
        ensures
            clock == self@.clock,
    {
        clock_clone(&self.clocksource)
    }

    /// A sender for a producer: it takes its empty batches from the pool of
    /// this receiver and fills them up to the configured batch size.
    pub fn get_sender(&self) -> (sender: Sender)
        ensures
            sender.pending() == Seq::<Sample>::empty(),
            sender.batch_size() == self.settings().batch_size,
            sender.pool() == self.pool(),
    {
        Sender::new(pool_clone(&self.empty_queue), self.config.batch_size)
    }

    /// Another handle to the pool of empty batches: the queue that it refers
    /// to is the pool of this receiver.
    pub fn get_pool(&self) -> (pool: Queue<Vec<Sample>>)
        ensures
            pool == self.pool(),
    {
        pool_clone(&self.empty_queue)
    }

    /// The position of `interest` among the subscriptions.
    fn find(&self, interest: &Interest) -> (r: Option<usize>)
        ensures
            match r {
                Some(i) => i < self.interests@.len() && interest_views(self.interests@)[i as int]
                    == interest@,
                None => !interest_views(self.interests@).contains(interest@),
            },
    {
        let mut i: usize = 0;
        while i < self.interests.len()
            invariant
                i <= self.interests.len(),
                forall|j: int| 0 <= j < i ==> interest_views(self.interests@)[j] != interest@,
            decreases self.interests.len() - i,
        {
            if self.interests[i].same(interest) {
                return Some(i);
            }
            i += 1;
        }
        None
    }

    /// Whether a trace or a waterfall of `channel` is subscribed.
    fn plots(&self, channel: &String) -> (b: bool)
        ensures
            b == plotted(interest_views(self.interests@), channel@),
    {
        let mut i: usize = 0;
        while i < self.interests.len()
            invariant
                i <= self.interests.len(),
                forall|j: int|
                    0 <= j < i ==> !(is_plot(#[trigger] interest_views(self.interests@)[j])
                        && interest_views(self.interests@)[j].channel() == channel@),
            decreases self.interests.len() - i,
        {
            let found = match &self.interests[i] {
                Interest::Trace(key, _) => *key == *channel,
                Interest::Waterfall(key, _) => *key == *channel,
                _ => false,
            };
            if found {
                assert(is_plot(interest_views(self.interests@)[i as int]));
                return true;
            }
            i += 1;
        }
        false
    }

    /// Registers a statistic for export. A subscription that is already
    /// there changes nothing; a new one is remembered and its store is
    /// initialised for its channel, unless it is a plot of a channel that
    /// has a heatmap already.
    pub fn add_interest(&mut self, interest: Interest)
        requires
            old(self).wf(),
        ensures
            final(self).wf(),
            final(self)@ == old(self)@.subscribed(interest@),
            final(self).settings() == old(self).settings(),
            final(self).pool() == old(self).pool(),
    {
        let ghost before = interest_views(self.interests@);
        let ghost value = interest@;
        match self.find(&interest) {
            Some(i) => {
                assert(before[i as int] == value);
            },
            None => {
                match &interest {
                    Interest::Count(key) => {
                        self.counters.init(key.clone());
                    },
                    Interest::Percentile(key) => {
                        self.histograms.init(key.clone());
                    },
                    Interest::AllanDeviation(key) => {
                        self.allans.init(key.clone());
                    },
                    Interest::Trace(key, _) => {
                        if !self.heatmaps.contains(key) {
                            self.heatmaps.init(key.clone());
                        }
                    },
                    Interest::Waterfall(key, _) => {
                        if !self.heatmaps.contains(key) {
                            self.heatmaps.init(key.clone());
                        }
                    },
                }
                self.interests.push(interest);
                proof {
                    assert(interest_views(self.interests@) =~= before.push(value));
                    assert(self@ == old(self)@.subscribed(value));
                    lemma_subscribed_consistent(old(self)@, value);
                }
            },
        }
    }

    /// Withdraws a statistic. A subscription that is not there changes
    /// nothing; one that is there is forgotten and the store of its channel
    /// is dropped, unless it is a plot of a channel of which another plot is
    /// still subscribed.
    pub fn remove_interest(&mut self, interest: &Interest)
        requires
            old(self).wf(),
        ensures
            final(self).wf(),
            final(self)@ == old(self)@.unsubscribed(interest@),
            final(self).settings() == old(self).settings(),
            final(self).pool() == old(self).pool(),
    {
        let ghost before = interest_views(self.interests@);
        match self.find(interest) {
            Some(i) => {
                self.interests.remove(i);
                proof {
                    let after = interest_views(self.interests@);
                    assert(before.contains(interest@));
                    let k = before.index_of(interest@);
                    assert(before[k] == interest@);
                    assert(k == i);
                    assert(after =~= before.remove(i as int));
                }
                match interest {
                    Interest::Count(key) => {
                        self.counters.remove(key);
                    },
                    Interest::Percentile(key) => {
                        self.histograms.remove(key);
                    },
                    Interest::AllanDeviation(key) => {
                        self.allans.remove(key);
                    },
                    Interest::Trace(key, _) => {
                        if !self.plots(key) {
                            self.heatmaps.remove(key);
                        }
                    },
                    Interest::Waterfall(key, _) => {
                        if !self.plots(key) {
                            self.heatmaps.remove(key);
                        }
                    },
                }
                proof {
                    assert(self@ == old(self)@.unsubscribed(interest@));
                    lemma_unsubscribed_consistent(old(self)@, interest@);
                }
            },
            None => {},
        }
    }

    /// Applies a message from the control queue.
    pub fn control(&mut self, message: ControlMessage)
        requires
            old(self).wf(),
        ensures
            final(self).wf(),
            final(self).settings() == old(self).settings(),
            final(self).pool() == old(self).pool(),
            match message {
                ControlMessage::AddInterest(interest) => final(self)@ == old(self)@.subscribed(
                    interest@,
                ),
                ControlMessage::RemoveInterest(interest) => final(self)@ == old(self)@.unsubscribed(
                    interest@,
                ),
            },
    {
        match message {
            ControlMessage::AddInterest(interest) => {
                self.add_interest(interest);
            },
            ControlMessage::RemoveInterest(interest) => {
                self.remove_interest(&interest);
            },
        }
    }

    /// Empties the heatmaps.
    pub fn clear_heatmaps(&mut self)
        requires
            old(self).wf(),
        ensures
            final(self).wf(),
            final(self)@ == (ReceiverView {
                heatmaps: crate::data::heatmaps::blanked(old(self)@.heatmaps),
                ..old(self)@
            }),
            final(self).settings() == old(self).settings(),
            final(self).pool() == old(self).pool(),
    {
        self.heatmaps.clear();
        proof {
            assert(self@.heatmaps.dom() =~= old(self)@.heatmaps.dom());
            lemma_same_stores_consistent(old(self)@, self@);
        }
    }

    /// Takes in an operation on `channel` that began at `t0` and ended at
    /// `t1` nanoseconds and stands for `count` events.
    pub fn record(&mut self, channel: &String, t0: u64, t1: u64, count: u64)
        requires
            old(self).wf(),
        ensures
            final(self).wf(),
            final(self)@ == old(self)@.recorded(channel@, t0, t1, count),
            final(self).settings() == old(self).settings(),
            final(self).pool() == old(self).pool(),
    {
        let dt: i128 = t1 as i128 - t0 as i128;
        self.allans.record(channel, dt);
        self.counters.increment_by(channel, count);
        self.histograms.increment(channel, dt);
        self.heatmaps.increment(channel, t0, dt);
        proof {
            assert(self@ == old(self)@.recorded(channel@, t0, t1, count));
            lemma_recorded_consistent(old(self)@, channel@, t0, t1, count);
        }
    }

    /// Dispatches one sample into every store: converts its counter
    /// readings to nanoseconds and records the operation.
    pub fn dispatch(&mut self, sample: &Sample)
        requires
            old(self).wf(),
        ensures
            final(self).wf(),
            final(self)@ == old(self)@.dispatched(*sample),
            final(self).settings() == old(self).settings(),
            final(self).pool() == old(self).pool(),
    {
        let t0 = clock_convert(&self.clocksource, sample.start);
        let t1 = clock_convert(&self.clocksource, sample.stop);
        self.record(&sample.channel, t0, t1, sample.count);
    }

    /// Dispatches every sample of a batch in order, then empties the batch.
    pub fn drain(&mut self, batch: &mut Vec<Sample>)
        requires
            old(self).wf(),
        ensures
            final(self).wf(),
            final(self)@ == old(self)@.received(old(batch)@),
            final(self).settings() == old(self).settings(),
            final(self).pool() == old(self).pool(),
            final(batch)@.len() == 0,
    {
        let ghost samples = batch@;
        let mut i: usize = 0;
        while i < batch.len()
            invariant
                batch@ == samples,
                i <= batch.len(),
                self.wf(),
                self@ == old(self)@.received(samples.take(i as int)),
                self.settings() == old(self).settings(),
                self.pool() == old(self).pool(),
            decreases batch.len() - i,
        {
            self.dispatch(&batch[i]);
            proof {
                let t = samples.take(i + 1);
                assert(t.drop_last() =~= samples.take(i as int));
                assert(t.last() == samples[i as int]);
            }
            i += 1;
        }
        assert(samples.take(samples.len() as int) =~= samples);
        batch.clear();
    }

    /// Drains a batch and offers it, empty, to the pool; a full pool lets it
    /// go.
    pub fn receive(&mut self, batch: Vec<Sample>)
        requires
            old(self).wf(),
        ensures
            final(self).wf(),
            final(self)@ == old(self)@.received(batch@),
            final(self).settings() == old(self).settings(),
            final(self).pool() == old(self).pool(),
    {
        let mut batch = batch;
        self.drain(&mut batch);
        let _ = pool_push(&self.empty_queue, batch);
    }

    /// Writes the reading of `channel` at each configured percentile into
    /// the meters.
    fn render_channel(&mut self, channel: &String)
        requires
            old(self).wf(),
        ensures
            final(self).wf(),
            final(self)@ == (ReceiverView {
                meters: MetersView {
                    data: render_percentiles(
                        old(self)@.meters.data,
                        channel@,
                        old(self)@.histograms,
                        old(self)@.percentiles,
                        old(self)@.percentiles.len(),
                    ),
                    data_float: old(self)@.meters.data_float,
                },
                ..old(self)@
            }),
            final(self).settings() == old(self).settings(),
            final(self).pool() == old(self).pool(),
    {
        let mut j: usize = 0;
        while j < self.percentiles.len()
            invariant
                j <= self.percentiles.len(),
                self.wf(),
                self.settings() == old(self).settings(),
                self.pool() == old(self).pool(),
                self@ == (ReceiverView {
                    meters: MetersView {
                        data: render_percentiles(
                            old(self)@.meters.data,
                            channel@,
                            old(self)@.histograms,
                            old(self)@.percentiles,
                            j as nat,
                        ),
                        data_float: old(self)@.meters.data_float,
                    },
                    ..old(self)@
                }),
            decreases self.percentiles.len() - j,
        {
            let percentile = self.percentiles[j].clone();
            let value = match self.histograms.percentile(channel, percentile.parts_per_million) {
                Some(value) => value,
                None => 0,
            };
            let ghost before = self@;
            self.meters.set_percentile(channel.clone(), percentile, value);
            proof {
                lemma_same_stores_consistent(before, self@);
            }
            j += 1;
        }
    }

    /// Writes the Allan deviation of `channel` at each configured lag at
    /// which it is defined into the meters.
    fn render_deviations(&mut self, channel: &String)
        requires
            old(self).wf(),
        ensures
            final(self).wf(),
            final(self)@ == (ReceiverView {
                meters: MetersView {
                    data: old(self)@.meters.data,
                    data_float: render_lags(
                        old(self)@.meters.data_float,
                        channel@,
                        old(self)@.allans,
                        old(self)@.taus,
                        old(self)@.taus.len(),
                    ),
                },
                ..old(self)@
            }),
            final(self).settings() == old(self).settings(),
            final(self).pool() == old(self).pool(),
    {
        let mut j: usize = 0;
        while j < self.taus.len()
            invariant
                j <= self.taus.len(),
                self.wf(),
                self.settings() == old(self).settings(),
                self.pool() == old(self).pool(),
                self@ == (ReceiverView {
                    meters: MetersView {
                        data: old(self)@.meters.data,
                        data_float: render_lags(
                            old(self)@.meters.data_float,
                            channel@,
                            old(self)@.allans,
                            old(self)@.taus,
                            j as nat,
                        ),
                    },
                    ..old(self)@
                }),
            decreases self.taus.len() - j,
        {
            let tau = self.taus[j];
            match self.allans.adev(channel, tau) {
                Some(value) => {
                    let ghost before = self@;
                    self.meters.set_adev(channel.clone(), tau, value);
                    proof {
                        lemma_same_stores_consistent(before, self@);
                    }
                },
                None => {},
            }
            j += 1;
        }
    }

    /// Writes every subscription into the meters.
    fn render(&mut self)
        requires
            old(self).wf(),
        ensures
            final(self).wf(),
            final(self)@ == (ReceiverView {
                meters: old(self)@.render_interests(old(self)@.interests.len()),
                ..old(self)@
            }),
            final(self).settings() == old(self).settings(),
            final(self).pool() == old(self).pool(),
    {
        let ghost v0 = self@;
        let mut i: usize = 0;
        while i < self.interests.len()
            invariant
                i <= self.interests.len(),
                self.wf(),
                v0 == old(self)@,
                self.interests@.len() == v0.interests.len(),
                self.settings() == old(self).settings(),
                self.pool() == old(self).pool(),
                self@ == (ReceiverView { meters: v0.render_interests(i as nat), ..v0 }),
            decreases self.interests.len() - i,
        {
            let interest = self.interests[i].clone();
            assert(interest@ == v0.interests[i as int]);
            match interest {
                Interest::Count(key) => {
                    let value = self.counters.count(&key);
                    let ghost before = self@;
                    self.meters.set_count(key, value);
                    proof {
                        lemma_same_stores_consistent(before, self@);
                    }
                },
                Interest::Percentile(key) => {
                    self.render_channel(&key);
                },
                Interest::AllanDeviation(key) => {
                    self.render_deviations(&key);
                },
                _ => {},
            }
            assert(self@.interests.len() == self.interests@.len());
            i += 1;
        }
    }

    /// Holds the clock reading `now` against the end of the window `t1`.
    /// Once the reading has reached it, renders the window: writes counts
    /// and percentiles into the meters, empties the histograms and moves
    /// the end of the window on by one window.
    pub fn window_elapsed(&mut self, now: u64, t1: u64) -> (elapsed: bool)
        requires
            old(self).wf(),
        ensures
            final(self).wf(),
            elapsed == (now >= t1),
            final(self)@ == old(self)@.checked(now, t1),
            final(self).settings() == old(self).settings(),
            final(self).pool() == old(self).pool(),
    {
        if now >= t1 {
            self.render();
            self.histograms.clear();
            self.window_time = self.window_time.saturating_add(self.window_duration);
            proof {
                assert(self@ == old(self)@.rendered());
                lemma_window_consistent(old(self)@);
            }
            true
        } else {
            false
        }
    }

    /// Reads the clock and holds the reading against the end of the window
    /// `t1`; renders the window if the reading has reached it. Whatever the
    /// clock reads, the outcome is that of `window_elapsed` for some reading:
    /// a window that ends at zero has always elapsed.
    pub fn check_elapsed(&mut self, t1: u64) -> (elapsed: bool)
        requires
            old(self).wf(),
        ensures
            final(self).wf(),
            final(self).settings() == old(self).settings(),
            final(self).pool() == old(self).pool(),
            exists|now: u64|
                elapsed == (now >= t1) && final(self)@ == #[trigger] old(self)@.checked(now, t1),
            elapsed ==> final(self)@ == old(self)@.rendered(),
            !elapsed ==> final(self)@ == old(self)@,
            t1 == 0 ==> elapsed,
    {
        let now = clock_counter(&self.clocksource);
        let elapsed = self.window_elapsed(now, t1);
        assert(elapsed == (now >= t1) && self@ == old(self)@.checked(now, t1));
        elapsed
    }

    /// The artifacts of the run: one for each `Trace` and each `Waterfall`
    /// subscription, in the order of the subscriptions.
    pub fn save_files(&self) -> (artifacts: Vec<Artifact>)
        requires
            self.wf(),
        ensures
            artifact_views(artifacts@) == self@.artifacts(self@.interests.len()),
    {
        let mut artifacts: Vec<Artifact> = Vec::new();
        let mut i: usize = 0;
        assert(artifact_views(artifacts@) =~= self@.artifacts(0));
        while i < self.interests.len()
            invariant
                i <= self.interests.len(),
                self.wf(),
                artifact_views(artifacts@) == self@.artifacts(i as nat),
            decreases self.interests.len() - i,
        {
            let ghost before = artifact_views(artifacts@);
            proof {
                let interest = self@.interests[i as int];
                assert(self.interests[i as int]@ == interest);
                if is_plot(interest) {
                    assert(plotted(self@.interests, interest.channel()));
                    assert(self@.heatmaps.contains_key(interest.channel()));
                }
            }
            match &self.interests[i] {
                Interest::Trace(key, path) => {
                    match self.heatmaps.trace(key) {
                        Some(text) => {
                            let artifact = Artifact::Trace { path: path.clone(), text };
                            artifacts.push(artifact);
                            assert(artifact_views(artifacts@) =~= before.push(artifact@));
                        },
                        None => {
                            assert(false);
                        },
                    }
                },
                Interest::Waterfall(key, path) => {
                    match self.heatmaps.waterfall(key) {
                        Some(image) => {
                            let artifact = Artifact::Waterfall { path: path.clone(), image };
                            artifacts.push(artifact);
                            assert(artifact_views(artifacts@) =~= before.push(artifact@));
                        },
                        None => {
                            assert(false);
                        },
                    }
                },
                _ => {},
            }
            i += 1;
        }
        artifacts
    }

    /// Says, before a window, how the run goes on: with its next window, or,
    /// when it has none left, with its end. At the end of a run the
    /// artifacts are handed out; in service mode the heatmaps are then
    /// emptied and the next run begins.
    pub fn next_step(&mut self) -> (step: RunStep)
        requires
            old(self).wf(),
        ensures
            final(self).wf(),
            step@ == old(self)@.step(),
            final(self)@ == old(self)@.stepped(),
            final(self).settings() == old(self).settings(),
            final(self).pool() == old(self).pool(),
    {
        proof {
            lemma_window_consistent(old(self)@);
        }
        if self.window < self.config.windows {
            RunStep::NextWindow
        } else {
            let artifacts = self.save_files();
            if self.config.service_mode {
                self.heatmaps.clear();
                self.end_time = self.end_time.saturating_add(self.run_duration);
                self.window = 0;
                RunStep::NextRun(artifacts)
            } else {
                RunStep::Finished(artifacts)
            }
        }
    }

    /// Counts the window that was just rendered.
    pub fn window_completed(&mut self)
        requires
            old(self).wf(),
        ensures
            final(self).wf(),
            final(self)@ == old(self)@.completed(),
            final(self).settings() == old(self).settings(),
            final(self).pool() == old(self).pool(),
    {
        proof {
            lemma_window_consistent(old(self)@);
        }
        self.window = self.window.saturating_add(1);
    }

    /// A copy of the meters as they were last rendered.
    pub fn clone_meters(&self) -> (meters: Meters)
        ensures
            meters@ == self@.meters,
    {
        self.meters.clone()
    }

    /// The body of the response to a request for `url`: the plain form for
    /// `/vars` and `/metrics`, the JSON form for any other path. The
    /// integer meters come first, then the fractional ones, each kind in the
    /// order in which its hash map hands them out.
    pub fn handle_http(&self, url: &String) -> (body: String)
        ensures
            exists|integers: Seq<(Seq<char>, u64)>, fractions: Seq<(Seq<char>, u64)>|
                lists(integers, self@.meters.data) && lists(fractions, self@.meters.data_float)
                    && body@ == #[trigger] response_text(url@, stats(integers, fractions)),
    {
        let integers = self.meters.integers();
        let fractions = self.meters.fractions();
        let body = response(url, &integers, &fractions);
        assert(body@ == response_text(
            url@,
            stats(integer_pairs(integers@), integer_pairs(fractions@)),
        ));
        body
    }

    /// Replaces the configured percentiles.
    pub fn set_percentiles(&mut self, percentiles: Vec<Percentile>)
        requires
            old(self).wf(),
        ensures
            final(self).wf(),
            final(self)@ == (ReceiverView {
                percentiles: percentile_values(percentiles@),
                ..old(self)@
            }),
            final(self).settings() == old(self).settings(),
            final(self).pool() == old(self).pool(),
    {
        self.percentiles = percentiles;
    }

    /// Replaces the configured lags.
    pub fn set_taus(&mut self, taus: Vec<usize>)
        requires
            old(self).wf(),
        ensures
            final(self).wf(),
            final(self)@ == (ReceiverView { taus: taus@, ..old(self)@ }),
            final(self).settings() == old(self).settings(),
            final(self).pool() == old(self).pool(),
    {
        self.taus = taus;
    }

    /// The subscriptions, in the order in which they were added.
    pub fn interests(&self) -> (interests: &Vec<Interest>)
        ensures
            interest_views(interests@) == self@.interests,
    {
        &self.interests
    }

    /// The configured lags.
    pub fn taus(&self) -> (taus: &Vec<usize>)
        ensures
            taus@ == self@.taus,
    {
        &self.taus
    }

    /// The configured percentiles.
    pub fn percentiles(&self) -> (percentiles: &Vec<Percentile>)
        ensures
            percentile_values(percentiles@) == self@.percentiles,
    {
        &self.percentiles
    }

    /// The Allan series.
    pub fn allans(&self) -> (allans: &Allans)
        ensures
            allans@ == self@.allans,
            self.wf() ==> allans.wf(),
    {
        &self.allans
    }

    /// The settings that the receiver was made from.
    pub fn config(&self) -> (config: &Config)
        ensures
            *config == self.settings(),
    {
        &self.config
    }

    /// The counter reading at which the current window ends.
    pub fn window_time(&self) -> (tick: u64)
        ensures
            tick == self@.window_time,
    {
        self.window_time
    }

    /// The counter reading at which the current run ends.
    pub fn end_time(&self) -> (tick: u64)
        ensures
            tick == self@.end_time,
    {
        self.end_time
    }

    /// The frequency of the clock's counter in counts per second.
    pub fn frequency(&self) -> (hz: u64)
        ensures
            hz == self@.frequency,
    {
        self.frequency
    }
}

impl Default for Receiver {
    fn default() -> (r: Self)
        ensures
            r.wf(),
            r@.configured_from(default_settings()),
    {
        Receiver::new()
    }
}

} // verus!
