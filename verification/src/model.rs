//! The state of a receiver as a value, and each step of a receiver as a
//! function on such values.

use vstd::prelude::*;
use clocksource::Clocksource;
use crate::arith::saturating_product;
use crate::arith::saturating_sum;
use crate::clock::nanoseconds_at;
use crate::common::DEFAULT_MAX_TAU;
use crate::common::default_percentile_values;
use crate::common::InterestView;
use crate::config::Config;
use crate::data::allans::appended;
use crate::data::allans::bounded;
use crate::data::allans::channel_adev;
use crate::data::counters::counted;
use crate::data::counters::total;
use crate::data::heatmaps::blank;
use crate::data::heatmaps::blanked;
use crate::data::heatmaps::image_rows;
use crate::data::heatmaps::marked;
use crate::data::heatmaps::trace_text;
use crate::data::heatmaps::waterfall_text;
use crate::data::histograms::channel_reading;
use crate::data::histograms::emptied;
use crate::data::histograms::recorded;
use crate::data::histograms::zeros;
use crate::data::meters::adev_key;
use crate::data::meters::count_key;
use crate::data::meters::MetersView;
use crate::data::meters::percentile_key;
use crate::data::sample::Sample;

verus! {

/// What is to be written to a file at the end of a run.
pub enum ArtifactView {
    /// The text of a trace and the path to write it to.
    Trace { path: Seq<char>, text: Seq<char> },
    /// The image of a waterfall and the path to write it to.
    Waterfall { path: Seq<char>, image: Seq<char> },
}

/// What the receiver does next, asked before each window.
pub enum RunStepView {
    /// The run goes on with its next window.
    NextWindow,
    /// The run is over, its artifacts are to be written, and the next run
    /// begins.
    NextRun(Seq<ArtifactView>),
    /// The run is over, its artifacts are to be written, and the receiver
    /// stops.
    Finished(Seq<ArtifactView>),
}

/// The lags that a receiver starts with: every lag from 1 to
/// `DEFAULT_MAX_TAU`.
pub open spec fn default_tau_values() -> Seq<usize> {
    Seq::new(DEFAULT_MAX_TAU as nat, |i: int| (i + 1) as usize)
}

/// The state of a receiver that was just made from `config`, with a clock
/// that read `start_time` and counts `frequency` times a second: no
/// subscriptions, empty stores and meters, and the first window and run
/// laid out from `start_time`.
pub open spec fn initial(config: Config, clock: Clocksource, start_time: u64, frequency: u64)
    -> ReceiverView {
    let window_duration = saturating_product(config.duration, frequency);
    let run_duration = saturating_product(config.windows, window_duration);
    ReceiverView {
        clock,
        frequency,
        interests: Seq::empty(),
        percentiles: default_percentile_values(),
        taus: default_tau_values(),
        counters: Map::empty(),
        histograms: Map::empty(),
        allans: Map::empty(),
        heatmaps: Map::empty(),
        heatmap_start: nanoseconds_at(clock, start_time),
        heatmap_slices: saturating_product(config.duration, config.windows),
        meters: MetersView { data: Map::empty(), data_float: Map::empty() },
        window_time: saturating_sum(start_time, window_duration),
        window_duration,
        end_time: saturating_sum(start_time, run_duration),
        run_duration,
        window: 0,
        windows: config.windows,
        service_mode: config.service_mode,
    }
}

/// The value that a percentile meter shows: the reading, or zero where the
/// histogram has none.
pub open spec fn reading_or_zero(
    histograms: Map<Seq<char>, Seq<u64>>,
    channel: Seq<char>,
    parts_per_million: u32,
) -> u64 {
    match channel_reading(histograms, channel, parts_per_million as nat) {
        Some(value) => value,
        None => 0,
    }
}

/// The integer meters after the first `n` percentiles of `channel` have been
/// written, in order.
pub open spec fn render_percentiles(
    data: Map<Seq<char>, u64>,
    channel: Seq<char>,
    histograms: Map<Seq<char>, Seq<u64>>,
    percentiles: Seq<(Seq<char>, u32)>,
    n: nat,
) -> Map<Seq<char>, u64>
    decreases n,
{
    if n == 0 {
        data
    } else {
        render_percentiles(data, channel, histograms, percentiles, (n - 1) as nat).insert(
            percentile_key(channel, percentiles[n - 1].0),
            reading_or_zero(histograms, channel, percentiles[n - 1].1),
        )
    }
}

/// The fractional meters after the first `n` lags of `channel` have been
/// written, in order: a lag at which the deviation is not defined writes
/// nothing.
pub open spec fn render_lags(
    data_float: Map<Seq<char>, u64>,
    channel: Seq<char>,
    allans: Map<Seq<char>, Seq<i128>>,
    taus: Seq<usize>,
    n: nat,
) -> Map<Seq<char>, u64>
    decreases n,
{
    if n == 0 {
        data_float
    } else {
        let before = render_lags(data_float, channel, allans, taus, (n - 1) as nat);
        match channel_adev(allans, channel, taus[n - 1] as nat) {
            Some(value) => before.insert(adev_key(channel, taus[n - 1] as nat), value),
            None => before,
        }
    }
}

/// The state of a receiver, as far as its behaviour depends on it.
#[verifier::ext_equal]
pub struct ReceiverView {
    /// The clock that converts counter readings to nanoseconds.
    pub clock: Clocksource,
    /// The frequency of the clock's counter in counts per second.
    pub frequency: u64,
    /// The subscriptions, in the order in which they were added; none occurs
    /// twice.
    pub interests: Seq<InterestView>,
    /// The label and quantile of each configured percentile.
    pub percentiles: Seq<(Seq<char>, u32)>,
    /// The configured lags.
    pub taus: Seq<usize>,
    /// The total of each counted channel.
    pub counters: Map<Seq<char>, u64>,
    /// The bucket counts of the histogram of each channel, for the current
    /// window.
    pub histograms: Map<Seq<char>, Seq<u64>>,
    /// The Allan series of each channel.
    pub allans: Map<Seq<char>, Seq<i128>>,
    /// The cell counts of the heatmap of each channel, for the current run.
    pub heatmaps: Map<Seq<char>, Seq<Seq<u64>>>,
    /// The time, in nanoseconds, at which the first slice of a heatmap
    /// begins.
    pub heatmap_start: u64,
    /// The number of one-second slices that a run spans.
    pub heatmap_slices: u64,
    /// The meters as they were last rendered.
    pub meters: MetersView,
    /// The counter reading at which the current window ends.
    pub window_time: u64,
    /// The length of a window in counts.
    pub window_duration: u64,
    /// The counter reading at which the current run ends.
    pub end_time: u64,
    /// The length of a run in counts.
    pub run_duration: u64,
    /// The number of windows of the current run that have been rendered.
    pub window: u64,
    /// The number of windows in a run.
    pub windows: u64,
    /// Whether a new run begins when one ends.
    pub service_mode: bool,
}

/// Whether `interest` asks for a heatmap: a trace or a waterfall.
pub open spec fn is_plot(interest: InterestView) -> bool {
    interest is Trace || interest is Waterfall
}

/// Whether a trace or a waterfall of `channel` is among `interests`.
pub open spec fn plotted(interests: Seq<InterestView>, channel: Seq<char>) -> bool {
    exists|i: int|
        0 <= i < interests.len() && is_plot(#[trigger] interests[i]) && interests[i].channel()
            == channel
}

impl ReceiverView {
    /// The stores follow the subscriptions: no subscription occurs twice; a
    /// channel has a counter, a histogram or an Allan series exactly when
    /// its `Count`, `Percentile` or `AllanDeviation` is subscribed; and a
    /// channel has a heatmap exactly when a trace or a waterfall of it is
    /// subscribed.
    pub open spec fn consistent(self) -> bool {
        &&& self.interests.no_duplicates()
        &&& forall|k: Seq<char>| #[trigger]
            self.counters.contains_key(k) <==> self.interests.contains(InterestView::Count(k))
        &&& forall|k: Seq<char>| #[trigger]
            self.histograms.contains_key(k) <==> self.interests.contains(
                InterestView::Percentile(k),
            )
        &&& forall|k: Seq<char>| #[trigger]
            self.allans.contains_key(k) <==> self.interests.contains(
                InterestView::AllanDeviation(k),
            )
        &&& forall|k: Seq<char>| #[trigger]
            self.heatmaps.contains_key(k) <==> plotted(self.interests, k)
    }

    /// Whether this is the state of a receiver that was just made from
    /// `config`, whatever its clock read and however fast it counts.
    pub open spec fn configured_from(self, config: Config) -> bool {
        exists|start_time: u64, frequency: u64|
            self == initial(config, self.clock, start_time, frequency)
    }

    /// The state after `interest` is added. A subscription that is already
    /// there changes nothing. A new one joins the others, and its store is
    /// initialised for its channel; a trace and a waterfall of one channel
    /// share a heatmap, which is initialised by the first of them.
    pub open spec fn subscribed(self, interest: InterestView) -> ReceiverView {
        if self.interests.contains(interest) {
            self
        } else {
            let interests = self.interests.push(interest);
            match interest {
                InterestView::Count(k) => ReceiverView {
                    interests,
                    counters: self.counters.insert(k, 0),
                    ..self
                },
                InterestView::Percentile(k) => ReceiverView {
                    interests,
                    histograms: self.histograms.insert(k, zeros()),
                    ..self
                },
                InterestView::AllanDeviation(k) => ReceiverView {
                    interests,
                    allans: self.allans.insert(k, Seq::empty()),
                    ..self
                },
                _ => ReceiverView {
                    interests,
                    heatmaps: if self.heatmaps.contains_key(interest.channel()) {
                        self.heatmaps
                    } else {
                        self.heatmaps.insert(
                            interest.channel(),
                            blank(image_rows(self.heatmap_slices)),
                        )
                    },
                    ..self
                },
            }
        }
    }

    /// The state after `interest` is removed. A subscription that is not
    /// there changes nothing. One that is leaves the others, and its store
    /// forgets its channel; the heatmap of a channel stays for as long as a
    /// trace or a waterfall of the channel is subscribed.
    pub open spec fn unsubscribed(self, interest: InterestView) -> ReceiverView {
        if !self.interests.contains(interest) {
            self
        } else {
            let interests = self.interests.remove(self.interests.index_of(interest));
            match interest {
                InterestView::Count(k) => ReceiverView {
                    interests,
                    counters: self.counters.remove(k),
                    ..self
                },
                InterestView::Percentile(k) => ReceiverView {
                    interests,
                    histograms: self.histograms.remove(k),
                    ..self
                },
                InterestView::AllanDeviation(k) => ReceiverView {
                    interests,
                    allans: self.allans.remove(k),
                    ..self
                },
                _ => ReceiverView {
                    interests,
                    heatmaps: if plotted(interests, interest.channel()) {
                        self.heatmaps
                    } else {
                        self.heatmaps.remove(interest.channel())
                    },
                    ..self
                },
            }
        }
    }

    /// The state after an operation on `channel` that began at `t0` and
    /// ended at `t1` nanoseconds and stands for `count` events: every store
    /// that is initialised for the channel takes it in.
    pub open spec fn recorded(self, channel: Seq<char>, t0: u64, t1: u64, count: u64)
        -> ReceiverView {
        let dt = t1 - t0;
        ReceiverView {
            allans: appended(self.allans, channel, bounded(dt)),
            counters: counted(self.counters, channel, count),
            histograms: recorded(self.histograms, channel, dt),
            heatmaps: marked(self.heatmaps, channel, self.heatmap_start, t0, dt),
            ..self
        }
    }

    /// The state after one sample is dispatched: its counter readings are
    /// converted to nanoseconds by the clock.
    pub open spec fn dispatched(self, sample: Sample) -> ReceiverView {
        self.recorded(
            sample.channel@,
            nanoseconds_at(self.clock, sample.start),
            nanoseconds_at(self.clock, sample.stop),
            sample.count,
        )
    }

    /// The state after every sample of `batch` is dispatched, in order.
    pub open spec fn received(self, batch: Seq<Sample>) -> ReceiverView
        decreases batch.len(),
    {
        if batch.len() == 0 {
            self
        } else {
            self.received(batch.drop_last()).dispatched(batch.last())
        }
    }

    /// The meters after `interest` has been rendered: a count writes the
    /// total of its channel, a percentile writes the reading of each
    /// configured percentile, an Allan deviation writes the deviation at
    /// each configured lag at which it is defined.
    pub open spec fn render_interest(self, meters: MetersView, interest: InterestView)
        -> MetersView {
        match interest {
            InterestView::Count(k) => MetersView {
                data: meters.data.insert(count_key(k), total(self.counters, k)),
                data_float: meters.data_float,
            },
            InterestView::Percentile(k) => MetersView {
                data: render_percentiles(
                    meters.data,
                    k,
                    self.histograms,
                    self.percentiles,
                    self.percentiles.len(),
                ),
                data_float: meters.data_float,
            },
            InterestView::AllanDeviation(k) => MetersView {
                data: meters.data,
                data_float: render_lags(
                    meters.data_float,
                    k,
                    self.allans,
                    self.taus,
                    self.taus.len(),
                ),
            },
            _ => meters,
        }
    }

    /// The meters after the first `n` subscriptions have been rendered, in
    /// order.
    pub open spec fn render_interests(self, n: nat) -> MetersView
        decreases n,
    {
        if n == 0 {
            self.meters
        } else {
            self.render_interest(self.render_interests((n - 1) as nat), self.interests[n - 1])
        }
    }

    /// The state after a window boundary: every subscription is rendered
    /// into the meters, every histogram is emptied, and the end of the
    /// window moves on by one window.
    pub open spec fn rendered(self) -> ReceiverView {
        ReceiverView {
            meters: self.render_interests(self.interests.len()),
            histograms: emptied(self.histograms),
            window_time: saturating_sum(self.window_time, self.window_duration),
            ..self
        }
    }

    /// The state after the clock is read as `now` and held against the end
    /// of the window `t1`.
    pub open spec fn checked(self, now: u64, t1: u64) -> ReceiverView {
        if now >= t1 {
            self.rendered()
        } else {
            self
        }
    }

    /// The artifacts of the first `n` subscriptions, in order: one for each
    /// `Trace` and each `Waterfall`, made from the heatmap of its channel.
    pub open spec fn artifacts(self, n: nat) -> Seq<ArtifactView>
        decreases n,
    {
        if n == 0 {
            Seq::empty()
        } else {
            let before = self.artifacts((n - 1) as nat);
            match self.interests[n - 1] {
                InterestView::Trace(k, path) => before.push(
                    ArtifactView::Trace {
                        path,
                        text: trace_text(self.heatmap_start, self.heatmap_slices, self.heatmaps[k]),
                    },
                ),
                InterestView::Waterfall(k, path) => before.push(
                    ArtifactView::Waterfall { path, image: waterfall_text(self.heatmaps[k]) },
                ),
                _ => before,
            }
        }
    }

    /// Whether the current run has no window left.
    pub open spec fn run_over(self) -> bool {
        self.window >= self.windows
    }

    /// What the receiver does next, asked before each window: it goes on
    /// with the next window of the run, or the run is over and its artifacts
    /// are to be written.
    pub open spec fn step(self) -> RunStepView {
        if !self.run_over() {
            RunStepView::NextWindow
        } else if self.service_mode {
            RunStepView::NextRun(self.artifacts(self.interests.len()))
        } else {
            RunStepView::Finished(self.artifacts(self.interests.len()))
        }
    }

    /// The state once the receiver has said what it does next: nothing
    /// changes but at the end of a run in service mode, where the heatmaps
    /// are emptied, the end of the run moves on by one run and the count of
    /// windows starts again.
    pub open spec fn stepped(self) -> ReceiverView {
        if self.run_over() && self.service_mode {
            ReceiverView {
                heatmaps: blanked(self.heatmaps),
                end_time: saturating_sum(self.end_time, self.run_duration),
                window: 0,
                ..self
            }
        } else {
            self
        }
    }

    /// The state once a window that was rendered has been counted.
    pub open spec fn completed(self) -> ReceiverView {
        ReceiverView { window: saturating_sum(self.window, 1), ..self }
    }

    /// The state after `n` windows have each been rendered and counted.
    pub open spec fn after_windows(self, n: nat) -> ReceiverView
        decreases n,
    {
        if n == 0 {
            self
        } else {
            self.after_windows((n - 1) as nat).rendered().completed()
        }
    }
}

} // verus!
