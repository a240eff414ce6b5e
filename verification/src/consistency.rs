//! The stores of a receiver follow its subscriptions: what that means and
//! why every step of a receiver keeps it so.

use vstd::prelude::*;
use clocksource::Clocksource;
use crate::common::InterestView;
use crate::config::Config;
use crate::data::sample::Sample;
use crate::model::initial;
use crate::model::is_plot;
use crate::model::plotted;
use crate::model::ReceiverView;

verus! {

/// What is among the subscriptions stays among them when another joins.
proof fn lemma_push_keeps(interests: Seq<InterestView>, new: InterestView, other: InterestView)
    ensures
        interests.push(new).contains(other) <==> interests.contains(other) || other == new,
{
    let after = interests.push(new);
    if interests.contains(other) {
        let i = interests.index_of(other);
        assert(after[i] == other);
    }
    if other == new {
        assert(after[interests.len() as int] == other);
    }
    if after.contains(other) {
        let i = after.index_of(other);
        if i < interests.len() {
            assert(interests[i] == other);
        }
    }
}

/// Once a subscription has left, the others are still there, and it is not.
proof fn lemma_remove_keeps(interests: Seq<InterestView>, at: int, other: InterestView)
    requires
        interests.no_duplicates(),
        0 <= at < interests.len(),
    ensures
        interests.remove(at).no_duplicates(),
        interests.remove(at).contains(other) <==> interests.contains(other) && other
            != interests[at],
{
    let after = interests.remove(at);
    assert forall|a: int, b: int| 0 <= a < after.len() && 0 <= b < after.len() && a != b implies after[a]
        != after[b] by {
        let a1 = if a < at { a } else { a + 1 };
        let b1 = if b < at { b } else { b + 1 };
        assert(after[a] == interests[a1] && after[b] == interests[b1]);
    }
    if interests.contains(other) && other != interests[at] {
        let i = interests.index_of(other);
        let i2 = if i < at { i } else { i - 1 };
        assert(after[i2] == other);
    }
    if after.contains(other) {
        let i = after.index_of(other);
        let i1 = if i < at { i } else { i + 1 };
        assert(interests[i1] == other);
        assert(i1 != at);
    }
}

/// A channel is plotted once a subscription has joined exactly if it was
/// plotted before or the subscription is a plot of it.
proof fn lemma_push_plotted(interests: Seq<InterestView>, new: InterestView, k: Seq<char>)
    ensures
        plotted(interests.push(new), k) <==> plotted(interests, k) || (is_plot(new)
            && new.channel() == k),
{
    let after = interests.push(new);
    if plotted(interests, k) {
        let i = choose|i: int|
            0 <= i < interests.len() && is_plot(#[trigger] interests[i]) && interests[i].channel()
                == k;
        assert(is_plot(after[i]) && after[i].channel() == k);
    }
    if is_plot(new) && new.channel() == k {
        let i = interests.len() as int;
        assert(is_plot(after[i]) && after[i].channel() == k);
    }
    if plotted(after, k) {
        let i = choose|i: int|
            0 <= i < after.len() && is_plot(#[trigger] after[i]) && after[i].channel() == k;
        if i < interests.len() {
            assert(is_plot(interests[i]) && interests[i].channel() == k);
        }
    }
}

/// A channel that is plotted once a subscription has left was plotted
/// before; and a channel that was plotted stays plotted when a subscription
/// for another statistic or another channel leaves.
proof fn lemma_remove_plotted(interests: Seq<InterestView>, at: int, k: Seq<char>)
    requires
        0 <= at < interests.len(),
    ensures
        plotted(interests.remove(at), k) ==> plotted(interests, k),
        plotted(interests, k) && (!is_plot(interests[at]) || interests[at].channel() != k)
            ==> plotted(interests.remove(at), k),
{
    let after = interests.remove(at);
    if plotted(after, k) {
        let i = choose|i: int|
            0 <= i < after.len() && is_plot(#[trigger] after[i]) && after[i].channel() == k;
        let i1 = if i < at { i } else { i + 1 };
        assert(interests[i1] == after[i]);
        assert(is_plot(interests[i1]) && interests[i1].channel() == k);
    }
    if plotted(interests, k) && (!is_plot(interests[at]) || interests[at].channel() != k) {
        let i = choose|i: int|
            0 <= i < interests.len() && is_plot(#[trigger] interests[i]) && interests[i].channel()
                == k;
        let i2 = if i < at { i } else { i - 1 };
        assert(after[i2] == interests[i]);
        assert(is_plot(after[i2]) && after[i2].channel() == k);
    }
}

/// Whether the stores follow the subscriptions depends on the subscriptions
/// and on which channels the stores hold.
pub proof fn lemma_same_stores_consistent(s: ReceiverView, t: ReceiverView)
    requires
        s.consistent(),
        t.interests == s.interests,
        t.counters.dom() == s.counters.dom(),
        t.histograms.dom() == s.histograms.dom(),
        t.allans.dom() == s.allans.dom(),
        t.heatmaps.dom() == s.heatmaps.dom(),
    ensures
        t.consistent(),
{
    assert forall|k: Seq<char>| #[trigger]
        t.counters.contains_key(k) <==> t.interests.contains(InterestView::Count(k)) by {
        assert(t.counters.dom().contains(k) == s.counters.contains_key(k));
    }
    assert forall|k: Seq<char>| #[trigger]
        t.histograms.contains_key(k) <==> t.interests.contains(InterestView::Percentile(k)) by {
        assert(t.histograms.dom().contains(k) == s.histograms.contains_key(k));
    }
    assert forall|k: Seq<char>| #[trigger]
        t.allans.contains_key(k) <==> t.interests.contains(InterestView::AllanDeviation(k)) by {
        assert(t.allans.dom().contains(k) == s.allans.contains_key(k));
    }
    assert forall|k: Seq<char>| #[trigger]
        t.heatmaps.contains_key(k) <==> plotted(t.interests, k) by {
        assert(t.heatmaps.dom().contains(k) == s.heatmaps.contains_key(k));
    }
}

/// A receiver that was just made is consistent.
pub proof fn lemma_initial_consistent(
    config: Config,
    clock: Clocksource,
    start_time: u64,
    frequency: u64,
)
    ensures
        initial(config, clock, start_time, frequency).consistent(),
{
    let s = initial(config, clock, start_time, frequency);
    assert forall|k: Seq<char>| !plotted(s.interests, k) by {}
}

/// Adding a subscription keeps the stores in step with the subscriptions.
pub proof fn lemma_subscribed_consistent(s: ReceiverView, interest: InterestView)
    requires
        s.consistent(),
    ensures
        s.subscribed(interest).consistent(),
{
    let t = s.subscribed(interest);
    if !s.interests.contains(interest) {
        assert(t.interests == s.interests.push(interest));
        assert forall|a: int, b: int|
            0 <= a < t.interests.len() && 0 <= b < t.interests.len() && a != b implies t.interests[a]
            != t.interests[b] by {
            if a < s.interests.len() && b < s.interests.len() {
            } else if a < s.interests.len() {
                assert(s.interests.contains(s.interests[a]));
            } else {
                assert(s.interests.contains(s.interests[b]));
            }
        }
        assert forall|k: Seq<char>| #[trigger]
            t.counters.contains_key(k) <==> t.interests.contains(InterestView::Count(k)) by {
            lemma_push_keeps(s.interests, interest, InterestView::Count(k));
        }
        assert forall|k: Seq<char>| #[trigger]
            t.histograms.contains_key(k) <==> t.interests.contains(
                InterestView::Percentile(k),
            ) by {
            lemma_push_keeps(s.interests, interest, InterestView::Percentile(k));
        }
        assert forall|k: Seq<char>| #[trigger]
            t.allans.contains_key(k) <==> t.interests.contains(
                InterestView::AllanDeviation(k),
            ) by {
            lemma_push_keeps(s.interests, interest, InterestView::AllanDeviation(k));
        }
        assert forall|k: Seq<char>| #[trigger]
            t.heatmaps.contains_key(k) <==> plotted(t.interests, k) by {
            lemma_push_plotted(s.interests, interest, k);
            assert(s.heatmaps.contains_key(k) <==> plotted(s.interests, k));
        }
    }
}

/// Removing a subscription keeps the stores in step with the subscriptions.
pub proof fn lemma_unsubscribed_consistent(s: ReceiverView, interest: InterestView)
    requires
        s.consistent(),
    ensures
        s.unsubscribed(interest).consistent(),
{
    let t = s.unsubscribed(interest);
    if s.interests.contains(interest) {
        let at = s.interests.index_of(interest);
        assert(s.interests[at] == interest);
        assert(t.interests == s.interests.remove(at));
        lemma_remove_keeps(s.interests, at, interest);
        assert forall|k: Seq<char>| #[trigger]
            t.counters.contains_key(k) <==> t.interests.contains(InterestView::Count(k)) by {
            lemma_remove_keeps(s.interests, at, InterestView::Count(k));
        }
        assert forall|k: Seq<char>| #[trigger]
            t.histograms.contains_key(k) <==> t.interests.contains(
                InterestView::Percentile(k),
            ) by {
            lemma_remove_keeps(s.interests, at, InterestView::Percentile(k));
        }
        assert forall|k: Seq<char>| #[trigger]
            t.allans.contains_key(k) <==> t.interests.contains(
                InterestView::AllanDeviation(k),
            ) by {
            lemma_remove_keeps(s.interests, at, InterestView::AllanDeviation(k));
        }
        assert forall|k: Seq<char>| #[trigger]
            t.heatmaps.contains_key(k) <==> plotted(t.interests, k) by {
            lemma_remove_plotted(s.interests, at, k);
            assert(s.heatmaps.contains_key(k) <==> plotted(s.interests, k));
            if is_plot(interest) && interest.channel() == k {
                assert(is_plot(s.interests[at]) && s.interests[at].channel() == k);
                assert(plotted(s.interests, k));
            }
        }
    }
}

/// Recording an operation keeps the stores in step with the subscriptions.
pub proof fn lemma_recorded_consistent(
    s: ReceiverView,
    channel: Seq<char>,
    t0: u64,
    t1: u64,
    count: u64,
)
    requires
        s.consistent(),
    ensures
        s.recorded(channel, t0, t1, count).consistent(),
{
    let t = s.recorded(channel, t0, t1, count);
    assert(t.counters.dom() =~= s.counters.dom());
    assert(t.histograms.dom() =~= s.histograms.dom());
    assert(t.allans.dom() =~= s.allans.dom());
    assert(t.heatmaps.dom() =~= s.heatmaps.dom());
    lemma_same_stores_consistent(s, t);
}

/// A batch keeps the stores in step with the subscriptions.
pub proof fn lemma_received_consistent(s: ReceiverView, batch: Seq<Sample>)
    requires
        s.consistent(),
    ensures
        s.received(batch).consistent(),
    decreases batch.len(),
{
    if batch.len() > 0 {
        lemma_received_consistent(s, batch.drop_last());
        let before = s.received(batch.drop_last());
        let sample = batch.last();
        lemma_recorded_consistent(
            before,
            sample.channel@,
            crate::clock::nanoseconds_at(before.clock, sample.start),
            crate::clock::nanoseconds_at(before.clock, sample.stop),
            sample.count,
        );
    }
}

/// A window boundary, the counting of a window and the end of a run keep
/// the stores in step with the subscriptions.
pub proof fn lemma_window_consistent(s: ReceiverView)
    requires
        s.consistent(),
    ensures
        s.rendered().consistent(),
        s.completed().consistent(),
        s.stepped().consistent(),
{
    let t = s.rendered();
    assert(t.histograms.dom() =~= s.histograms.dom());
    lemma_same_stores_consistent(s, t);
    lemma_same_stores_consistent(s, s.completed());
    let c = s.stepped();
    assert(c.heatmaps.dom() =~= s.heatmaps.dom());
    lemma_same_stores_consistent(s, c);
}

} // verus!
