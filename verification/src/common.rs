//! Subscriptions, control messages and percentiles.

use vstd::prelude::*;
use vstd::string::StringExecFns;
use crate::data::allans::MAX_LAG;

verus! {

/// A named quantile that is read from each subscribed histogram.
pub struct Percentile {
    /// The label that appears in the meter's key.
    pub label: String,
    /// The quantile in parts per million: `500_000` is the median.
    pub parts_per_million: u32,
}

impl Percentile {
    pub fn new(label: String, parts_per_million: u32) -> (p: Self)
        ensures
            p.label@ == label@,
            p.parts_per_million == parts_per_million,
    {
        Percentile { label, parts_per_million }
    }
}

impl Clone for Percentile {
    fn clone(&self) -> (r: Self)
        ensures
            r == *self,
    {
        Percentile { label: self.label.clone(), parts_per_million: self.parts_per_million }
    }
}

/// A standing subscription: the statistic to keep and the channel to keep it
/// for. `Trace` and `Waterfall` also carry the path of the file to write.
pub enum Interest {
    Count(String),
    Percentile(String),
    AllanDeviation(String),
    Trace(String, String),
    Waterfall(String, String),
}

/// The value of an `Interest`: two interests are the same subscription when
/// their values are equal.
pub enum InterestView {
    Count(Seq<char>),
    Percentile(Seq<char>),
    AllanDeviation(Seq<char>),
    Trace(Seq<char>, Seq<char>),
    Waterfall(Seq<char>, Seq<char>),
}

impl InterestView {
    /// The channel that the subscription is for.
    pub open spec fn channel(self) -> Seq<char> {
        match self {
            InterestView::Count(k) => k,
            InterestView::Percentile(k) => k,
            InterestView::AllanDeviation(k) => k,
            InterestView::Trace(k, _) => k,
            InterestView::Waterfall(k, _) => k,
        }
    }
}

impl View for Interest {
    type V = InterestView;

    open spec fn view(&self) -> InterestView {
        match self {
            Interest::Count(k) => InterestView::Count(k@),
            Interest::Percentile(k) => InterestView::Percentile(k@),
            Interest::AllanDeviation(k) => InterestView::AllanDeviation(k@),
            Interest::Trace(k, p) => InterestView::Trace(k@, p@),
            Interest::Waterfall(k, p) => InterestView::Waterfall(k@, p@),
        }
    }
}

impl Interest {
    /// The channel that the subscription is for.
    pub fn channel(&self) -> (k: &String)
        ensures
            k@ == self@.channel(),
    {
        match self {
            Interest::Count(k) => k,
            Interest::Percentile(k) => k,
            Interest::AllanDeviation(k) => k,
            Interest::Trace(k, _) => k,
            Interest::Waterfall(k, _) => k,
        }
    }

    /// Whether two interests are the same subscription.
    pub fn same(&self, other: &Interest) -> (b: bool)
        ensures
            b == (self@ == other@),
    {
        match (self, other) {
            (Interest::Count(a), Interest::Count(b)) => *a == *b,
            (Interest::Percentile(a), Interest::Percentile(b)) => *a == *b,
            (Interest::AllanDeviation(a), Interest::AllanDeviation(b)) => *a == *b,
            (Interest::Trace(a, p), Interest::Trace(b, q)) => *a == *b && *p == *q,
            (Interest::Waterfall(a, p), Interest::Waterfall(b, q)) => *a == *b && *p == *q,
            _ => false,
        }
    }
}

impl Clone for Interest {
    fn clone(&self) -> (r: Self)
        ensures
            r == *self,
    {
        match self {
            Interest::Count(k) => Interest::Count(k.clone()),
            Interest::Percentile(k) => Interest::Percentile(k.clone()),
            Interest::AllanDeviation(k) => Interest::AllanDeviation(k.clone()),
            Interest::Trace(k, p) => Interest::Trace(k.clone(), p.clone()),
            Interest::Waterfall(k, p) => Interest::Waterfall(k.clone(), p.clone()),
        }
    }
}

/// A change to the subscriptions, sent over the control queue.
pub enum ControlMessage {
    AddInterest(Interest),
    RemoveInterest(Interest),
}

/// The quantiles that a receiver reports unless others are configured.
pub open spec fn default_percentile_values() -> Seq<(Seq<char>, u32)> {
    seq![
        ("min"@, 0u32),
        ("p50"@, 500_000u32),
        ("p75"@, 750_000u32),
        ("p90"@, 900_000u32),
        ("p95"@, 950_000u32),
        ("p99"@, 990_000u32),
        ("p999"@, 999_000u32),
        ("p9999"@, 999_900u32),
        ("max"@, 1_000_000u32),
    ]
}

/// The label and quantile of each percentile, in order.
pub open spec fn percentile_values(ps: Seq<Percentile>) -> Seq<(Seq<char>, u32)> {
    Seq::new(ps.len(), |i: int| (ps[i].label@, ps[i].parts_per_million))
}

/// The quantiles that a receiver reports unless others are configured.
pub fn default_percentiles() -> (ps: Vec<Percentile>)
    ensures
        percentile_values(ps@) == default_percentile_values(),
{
    let mut ps: Vec<Percentile> = Vec::new();
    ps.push(Percentile::new(String::from_str("min"), 0));
    ps.push(Percentile::new(String::from_str("p50"), 500_000));
    ps.push(Percentile::new(String::from_str("p75"), 750_000));
    ps.push(Percentile::new(String::from_str("p90"), 900_000));
    ps.push(Percentile::new(String::from_str("p95"), 950_000));
    ps.push(Percentile::new(String::from_str("p99"), 990_000));
    ps.push(Percentile::new(String::from_str("p999"), 999_000));
    ps.push(Percentile::new(String::from_str("p9999"), 999_900));
    ps.push(Percentile::new(String::from_str("max"), 1_000_000));
    assert(percentile_values(ps@) =~= default_percentile_values());
    ps
}

/// The largest lag that a receiver reports by default.
pub const DEFAULT_MAX_TAU: usize = MAX_LAG;

/// The lags for which the Allan deviation is reported unless others are
/// configured: every lag from 1 to `DEFAULT_MAX_TAU`.
pub fn default_taus() -> (taus: Vec<usize>)
    ensures
        taus@.len() == DEFAULT_MAX_TAU,
        forall|i: int| 0 <= i < taus@.len() ==> taus@[i] == i + 1,
{
    let mut taus: Vec<usize> = Vec::new();
    let mut tau: usize = 1;
    while tau <= DEFAULT_MAX_TAU
        invariant
            1 <= tau <= DEFAULT_MAX_TAU + 1,
            taus@.len() == tau - 1,
            forall|i: int| 0 <= i < taus@.len() ==> taus@[i] == i + 1,
        decreases DEFAULT_MAX_TAU + 1 - tau,
    {
        taus.push(tau);
        tau += 1;
    }
    taus
}

} // verus!
