//! What holds of a receiver across its functions, proved over the model of
//! its state.

use vstd::prelude::*;
use clocksource::Clocksource;
use crate::data::histograms::bucket_low;
use crate::data::histograms::bucket_of;
use crate::data::histograms::bucket_width;
use crate::data::histograms::clamped;
use crate::data::histograms::lemma_bucket_holds;
use crate::data::quantiles::counts_of;
use crate::data::quantiles::lemma_bucket_adjacent;
use crate::data::quantiles::lemma_reading_among_values;
use crate::data::quantiles::lemma_reading_of_rank;
use crate::data::quantiles::lemma_readings_grow;
use crate::data::quantiles::less_than;
use crate::data::quantiles::up_to;
use crate::arith::capped64;
use crate::clock::nanoseconds_at;
use crate::common::InterestView;
use crate::data::allans::channel_adev;
use crate::data::counters::total;
use crate::data::histograms::bucket_midpoint;
use crate::data::histograms::BUCKETS;
use crate::data::heatmaps::blank;
use crate::data::heatmaps::image_rows;
use crate::model::is_plot;
use crate::model::plotted;
use crate::data::histograms::emptied;
use crate::data::histograms::inserted;
use crate::data::histograms::locate;
use crate::data::histograms::rank;
use crate::data::histograms::reading;
use crate::data::histograms::total as values_in;
use crate::data::histograms::zeros;
use crate::data::meters::adev_key;
use crate::data::meters::count_key;
use crate::data::meters::MetersView;
use crate::data::meters::percentile_key;
use crate::data::sample::Sample;
use crate::model::reading_or_zero;
use crate::model::ReceiverView;
use crate::model::render_lags;
use crate::model::render_percentiles;

verus! {

/// The number of events that the samples of `batch` on `channel` stand for.
pub open spec fn channel_sum(batch: Seq<Sample>, channel: Seq<char>) -> nat
    decreases batch.len(),
{
    if batch.len() == 0 {
        0
    } else if batch.last().channel@ == channel {
        channel_sum(batch.drop_last(), channel) + batch.last().count as nat
    } else {
        channel_sum(batch.drop_last(), channel)
    }
}

/// A batch raises the count of an initialised channel by exactly the number
/// of events that its samples on that channel stand for (the count stays at
/// `u64::MAX` once the sum would pass it), and leaves the set of counted
/// channels as it was.
pub proof fn lemma_conservation(s: ReceiverView, batch: Seq<Sample>, channel: Seq<char>)
    ensures
        s.received(batch).counters.dom() == s.counters.dom(),
        s.counters.contains_key(channel) ==> s.received(batch).counters[channel] == capped64(
            s.counters[channel] + channel_sum(batch, channel),
        ),
        s.counters.contains_key(channel) && s.counters[channel] + channel_sum(batch, channel)
            <= u64::MAX ==> s.received(batch).counters[channel] == s.counters[channel]
            + channel_sum(batch, channel),
    decreases batch.len(),
{
    if batch.len() == 0 {
    } else {
        lemma_conservation(s, batch.drop_last(), channel);
        let before = s.received(batch.drop_last());
        let after = before.dispatched(batch.last());
        assert(after == s.received(batch));
        assert(after.counters.dom() =~= before.counters.dom());
    }
}

/// Two channels with the same count key are the same channel.
pub proof fn lemma_count_key_injective(a: Seq<char>, b: Seq<char>)
    requires
        count_key(a) == count_key(b),
    ensures
        a == b,
{
    let tail = "_count"@;
    assert(count_key(a).len() == a.len() + tail.len());
    assert(count_key(b).len() == b.len() + tail.len());
    assert forall|i: int| 0 <= i < a.len() implies a[i] == b[i] by {
        assert(count_key(a)[i] == a[i]);
        assert(count_key(b)[i] == b[i]);
    }
    assert(a =~= b);
}

/// No count key is a percentile key.
pub proof fn lemma_count_key_is_no_percentile_key(a: Seq<char>, b: Seq<char>, label: Seq<char>)
    ensures
        count_key(a) != percentile_key(b, label),
{
    reveal_strlit("_count");
    reveal_strlit("_nanoseconds");
    let c = count_key(a);
    let p = percentile_key(b, label);
    assert(c.len() == a.len() + 6);
    assert(c[c.len() - 1] == "_count"@[5]);
    assert(c[c.len() - 1] == 't');
    let head = b + "_"@ + label;
    assert(p.len() == head.len() + 12);
    assert(p[p.len() - 1] == "_nanoseconds"@[11]);
    assert(p[p.len() - 1] == 's');
}

/// Rendering the percentiles of a channel keeps every meter that was there,
/// leaves every count as it was, and writes a meter for each percentile.
pub proof fn lemma_render_percentiles(
    data: Map<Seq<char>, u64>,
    channel: Seq<char>,
    histograms: Map<Seq<char>, Seq<u64>>,
    percentiles: Seq<(Seq<char>, u32)>,
    n: nat,
)
    requires
        n <= percentiles.len(),
    ensures
        forall|key: Seq<char>|
            data.contains_key(key) ==> #[trigger] render_percentiles(
                data,
                channel,
                histograms,
                percentiles,
                n,
            ).contains_key(key),
        forall|k: Seq<char>|
            render_percentiles(data, channel, histograms, percentiles, n).contains_key(
                #[trigger] count_key(k),
            ) == data.contains_key(count_key(k)),
        forall|k: Seq<char>|
            data.contains_key(#[trigger] count_key(k)) ==> render_percentiles(
                data,
                channel,
                histograms,
                percentiles,
                n,
            )[count_key(k)] == data[count_key(k)],
        forall|j: int|
            0 <= j < n ==> render_percentiles(
                data,
                channel,
                histograms,
                percentiles,
                n,
            ).contains_key(percentile_key(channel, (#[trigger] percentiles[j]).0)),
    decreases n,
{
    if n > 0 {
        lemma_render_percentiles(data, channel, histograms, percentiles, (n - 1) as nat);
        assert forall|k: Seq<char>|
            percentile_key(channel, percentiles[n - 1].0) != #[trigger] count_key(k) by {
            lemma_count_key_is_no_percentile_key(k, channel, percentiles[n - 1].0);
        }
        let before = render_percentiles(data, channel, histograms, percentiles, (n - 1) as nat);
        assert forall|key: Seq<char>| data.contains_key(key) implies #[trigger] render_percentiles(
            data,
            channel,
            histograms,
            percentiles,
            n,
        ).contains_key(key) by {
            assert(before.contains_key(key));
        }
    }
}

/// Rendering the deviations of a channel keeps every fractional meter that
/// was there and writes a meter for each lag at which the deviation is
/// defined.
pub proof fn lemma_render_lags(
    data_float: Map<Seq<char>, u64>,
    channel: Seq<char>,
    allans: Map<Seq<char>, Seq<i128>>,
    taus: Seq<usize>,
    n: nat,
)
    requires
        n <= taus.len(),
    ensures
        forall|key: Seq<char>|
            data_float.contains_key(key) ==> #[trigger] render_lags(
                data_float,
                channel,
                allans,
                taus,
                n,
            ).contains_key(key),
        forall|j: int|
            0 <= j < n && channel_adev(allans, channel, (#[trigger] taus[j]) as nat) is Some
                ==> render_lags(data_float, channel, allans, taus, n).contains_key(
                adev_key(channel, taus[j] as nat),
            ),
    decreases n,
{
    if n > 0 {
        lemma_render_lags(data_float, channel, allans, taus, (n - 1) as nat);
        let before = render_lags(data_float, channel, allans, taus, (n - 1) as nat);
        assert forall|key: Seq<char>| data_float.contains_key(key) implies #[trigger] render_lags(
            data_float,
            channel,
            allans,
            taus,
            n,
        ).contains_key(key) by {
            assert(before.contains_key(key));
        }
        assert forall|j: int|
            0 <= j < n && channel_adev(
                allans,
                channel,
                (#[trigger] taus[j]) as nat,
            ) is Some implies render_lags(data_float, channel, allans, taus, n).contains_key(
            adev_key(channel, taus[j] as nat),
        ) by {
            if j < n - 1 {
                assert(before.contains_key(adev_key(channel, taus[j] as nat)));
            }
        }
    }
}

/// Whether `meters` shows the count of every `Count` among the first `n`
/// subscriptions.
pub open spec fn counts_shown(s: ReceiverView, meters: MetersView, n: nat) -> bool {
    forall|i: int|
        0 <= i < n && (#[trigger] s.interests[i]) is Count ==> meters.data.contains_key(
            count_key(s.interests[i].channel()),
        ) && meters.data[count_key(s.interests[i].channel())] == total(
            s.counters,
            s.interests[i].channel(),
        )
}

/// Whether `meters` shows a value at every configured percentile for every
/// `Percentile` among the first `n` subscriptions.
pub open spec fn percentiles_shown(s: ReceiverView, meters: MetersView, n: nat) -> bool {
    forall|i: int, j: int|
        0 <= i < n && (#[trigger] s.interests[i]) is Percentile && 0 <= j < s.percentiles.len()
            ==> meters.data.contains_key(
            percentile_key(s.interests[i].channel(), (#[trigger] s.percentiles[j]).0),
        )
}

/// Whether `meters` shows a deviation, for every `AllanDeviation` among the
/// first `n` subscriptions, at every configured lag at which the deviation
/// is defined.
pub open spec fn deviations_shown(s: ReceiverView, meters: MetersView, n: nat) -> bool {
    forall|i: int, j: int|
        0 <= i < n && (#[trigger] s.interests[i]) is AllanDeviation && 0 <= j < s.taus.len()
            && channel_adev(s.allans, s.interests[i].channel(), (#[trigger] s.taus[j]) as nat)
            is Some ==> meters.data_float.contains_key(
            adev_key(s.interests[i].channel(), s.taus[j] as nat),
        )
}

/// Rendering the first `n` subscriptions keeps every meter that was there
/// and shows each of these subscriptions.
pub proof fn lemma_render_interests(s: ReceiverView, n: nat)
    requires
        n <= s.interests.len(),
    ensures
        forall|key: Seq<char>|
            s.meters.data.contains_key(key) ==> #[trigger] s.render_interests(n).data.contains_key(
                key,
            ),
        forall|key: Seq<char>|
            s.meters.data_float.contains_key(key) ==> #[trigger] s.render_interests(
                n,
            ).data_float.contains_key(key),
        counts_shown(s, s.render_interests(n), n),
        percentiles_shown(s, s.render_interests(n), n),
        deviations_shown(s, s.render_interests(n), n),
    decreases n,
{
    if n > 0 {
        lemma_render_interests(s, (n - 1) as nat);
        let before = s.render_interests((n - 1) as nat);
        let after = s.render_interests(n);
        let last = s.interests[n - 1];
        assert(after == s.render_interest(before, last));
        lemma_render_percentiles(
            before.data,
            last.channel(),
            s.histograms,
            s.percentiles,
            s.percentiles.len(),
        );
        lemma_render_lags(before.data_float, last.channel(), s.allans, s.taus, s.taus.len());
        assert forall|key: Seq<char>| s.meters.data.contains_key(key) implies #[trigger] after.data.contains_key(
            key,
        ) by {
            assert(before.data.contains_key(key));
        }
        assert forall|key: Seq<char>|
            s.meters.data_float.contains_key(key) implies #[trigger] after.data_float.contains_key(
            key,
        ) by {
            assert(before.data_float.contains_key(key));
        }
        assert forall|i: int| 0 <= i < n && (#[trigger] s.interests[i]) is Count implies after.data.contains_key(
            count_key(s.interests[i].channel()),
        ) && after.data[count_key(s.interests[i].channel())] == total(
            s.counters,
            s.interests[i].channel(),
        ) by {
            let k = s.interests[i].channel();
            if i < n - 1 {
                assert(before.data.contains_key(count_key(k)));
                if last is Count {
                    if count_key(k) == count_key(last.channel()) {
                        lemma_count_key_injective(k, last.channel());
                    }
                }
            }
        }
        assert forall|i: int, j: int|
            0 <= i < n && (#[trigger] s.interests[i]) is Percentile && 0 <= j
                < s.percentiles.len() implies after.data.contains_key(
            percentile_key(s.interests[i].channel(), (#[trigger] s.percentiles[j]).0),
        ) by {
            if i < n - 1 {
                assert(before.data.contains_key(
                    percentile_key(s.interests[i].channel(), s.percentiles[j].0),
                ));
            }
        }
        assert forall|i: int, j: int|
            0 <= i < n && (#[trigger] s.interests[i]) is AllanDeviation && 0 <= j < s.taus.len()
                && channel_adev(
                s.allans,
                s.interests[i].channel(),
                (#[trigger] s.taus[j]) as nat,
            ) is Some implies after.data_float.contains_key(
            adev_key(s.interests[i].channel(), s.taus[j] as nat),
        ) by {
            if i < n - 1 {
                assert(before.data_float.contains_key(
                    adev_key(s.interests[i].channel(), s.taus[j] as nat),
                ));
            }
        }
    }
}

/// After a window boundary the meters hold, for every subscribed `Count`,
/// the count of its channel under the channel's count key; for every
/// subscribed `Percentile`, a value under the key of each configured
/// percentile; and for every subscribed `AllanDeviation`, a value under the
/// key of each configured lag at which the deviation is defined.
pub proof fn lemma_key_schema(s: ReceiverView)
    ensures
        forall|k: Seq<char>|
            s.interests.contains(InterestView::Count(k)) ==> s.rendered().meters.data.contains_key(
                #[trigger] count_key(k),
            ) && s.rendered().meters.data[count_key(k)] == total(s.counters, k),
        forall|k: Seq<char>, j: int|
            s.interests.contains(InterestView::Percentile(k)) && 0 <= j < s.percentiles.len()
                ==> s.rendered().meters.data.contains_key(
                #[trigger] percentile_key(k, s.percentiles[j].0),
            ),
        forall|k: Seq<char>, j: int|
            s.interests.contains(InterestView::AllanDeviation(k)) && 0 <= j < s.taus.len()
                && channel_adev(s.allans, k, s.taus[j] as nat) is Some
                ==> s.rendered().meters.data_float.contains_key(
                #[trigger] adev_key(k, s.taus[j] as nat),
            ),
{
    lemma_render_interests(s, s.interests.len());
    let shown = s.render_interests(s.interests.len());
    assert(shown == s.rendered().meters);
    assert forall|k: Seq<char>| s.interests.contains(InterestView::Count(k)) implies shown.data.contains_key(
        #[trigger] count_key(k),
    ) && shown.data[count_key(k)] == total(s.counters, k) by {
        let i = s.interests.index_of(InterestView::Count(k));
        assert(s.interests[i] is Count && s.interests[i].channel() == k);
    }
    assert forall|k: Seq<char>, j: int|
        s.interests.contains(InterestView::Percentile(k)) && 0 <= j
            < s.percentiles.len() implies shown.data.contains_key(
        #[trigger] percentile_key(k, s.percentiles[j].0),
    ) by {
        let i = s.interests.index_of(InterestView::Percentile(k));
        assert(s.interests[i] is Percentile && s.interests[i].channel() == k);
        let p = s.percentiles[j];
        assert(shown.data.contains_key(percentile_key(s.interests[i].channel(), p.0)));
    }
    assert forall|k: Seq<char>, j: int|
        s.interests.contains(InterestView::AllanDeviation(k)) && 0 <= j < s.taus.len()
            && channel_adev(s.allans, k, s.taus[j] as nat) is Some implies shown.data_float.contains_key(
        #[trigger] adev_key(k, s.taus[j] as nat),
    ) by {
        let i = s.interests.index_of(InterestView::AllanDeviation(k));
        assert(s.interests[i] is AllanDeviation && s.interests[i].channel() == k);
        let tau = s.taus[j];
        assert(shown.data_float.contains_key(adev_key(s.interests[i].channel(), tau as nat)));
    }
}

/// Two percentiles of one channel with the same key have the same label.
pub proof fn lemma_percentile_key_injective(channel: Seq<char>, a: Seq<char>, b: Seq<char>)
    requires
        percentile_key(channel, a) == percentile_key(channel, b),
    ensures
        a == b,
{
    let head = channel + "_"@;
    let tail = "_nanoseconds"@;
    let ka = percentile_key(channel, a);
    let kb = percentile_key(channel, b);
    assert(ka.len() == head.len() + a.len() + tail.len());
    assert(kb.len() == head.len() + b.len() + tail.len());
    assert forall|i: int| 0 <= i < a.len() implies a[i] == b[i] by {
        assert(ka[head.len() + i] == a[i]);
        assert(kb[head.len() + i] == b[i]);
    }
    assert(a =~= b);
}

/// Rendering the percentiles of a channel writes the keys of its
/// percentiles and no others.
pub proof fn lemma_render_percentiles_keys(
    data: Map<Seq<char>, u64>,
    channel: Seq<char>,
    histograms: Map<Seq<char>, Seq<u64>>,
    percentiles: Seq<(Seq<char>, u32)>,
    n: nat,
    key: Seq<char>,
)
    requires
        n <= percentiles.len(),
    ensures
        render_percentiles(data, channel, histograms, percentiles, n).contains_key(key) <==> (
        data.contains_key(key) || exists|j: int|
            0 <= j < n && key == percentile_key(channel, (#[trigger] percentiles[j]).0)),
    decreases n,
{
    if n > 0 {
        lemma_render_percentiles_keys(
            data,
            channel,
            histograms,
            percentiles,
            (n - 1) as nat,
            key,
        );
        if key == percentile_key(channel, percentiles[n - 1].0) {
            assert(percentiles[n - 1].0 == percentiles[n - 1].0);
        }
    }
}

/// A receiver whose one subscription is a `Percentile`, and whose meters
/// are empty, holds after a window boundary one meter for each configured
/// percentile and nothing else, however many samples the window held.
pub proof fn lemma_one_meter_for_each_quantile(s: ReceiverView, channel: Seq<char>, key: Seq<char>)
    requires
        s.interests == seq![InterestView::Percentile(channel)],
        s.meters.data == Map::<Seq<char>, u64>::empty(),
        s.meters.data_float == Map::<Seq<char>, u64>::empty(),
    ensures
        s.rendered().meters.data.contains_key(key) <==> exists|j: int|
            0 <= j < s.percentiles.len() && key == percentile_key(
                channel,
                (#[trigger] s.percentiles[j]).0,
            ),
        s.rendered().meters.data_float == Map::<Seq<char>, u64>::empty(),
{
    assert(s.render_interests(0) == s.meters);
    assert(s.render_interests(1) == s.render_interest(s.render_interests(0), s.interests[0]));
    lemma_render_percentiles_keys(
        s.meters.data,
        channel,
        s.histograms,
        s.percentiles,
        s.percentiles.len(),
        key,
    );
}

/// What a batch makes of the histograms depends on the histograms and the
/// clock alone.
pub proof fn lemma_histograms_follow_samples(a: ReceiverView, b: ReceiverView, batch: Seq<Sample>)
    requires
        a.histograms == b.histograms,
        a.clock == b.clock,
    ensures
        a.received(batch).histograms == b.received(batch).histograms,
        a.received(batch).clock == a.clock,
        b.received(batch).clock == b.clock,
    decreases batch.len(),
{
    if batch.len() > 0 {
        lemma_histograms_follow_samples(a, b, batch.drop_last());
    }
}

/// A window boundary empties every histogram, so what the histograms hold in
/// the next window, and with it every percentile read from them, depends
/// only on the samples of that window: two receivers with the same clock and
/// the same percentile channels, whatever their earlier windows held, agree
/// after the same batch.
pub proof fn lemma_histogram_reset(a: ReceiverView, b: ReceiverView, batch: Seq<Sample>)
    requires
        a.histograms.dom() == b.histograms.dom(),
        a.clock == b.clock,
    ensures
        forall|k: Seq<char>| #[trigger]
            a.histograms.contains_key(k) ==> a.rendered().histograms[k] == zeros(),
        a.rendered().histograms.dom() == a.histograms.dom(),
        a.rendered().received(batch).histograms == b.rendered().received(batch).histograms,
{
    assert(emptied(a.histograms) =~= emptied(b.histograms));
    assert(a.rendered().histograms.dom() =~= a.histograms.dom());
    lemma_histograms_follow_samples(a.rendered(), b.rendered(), batch);
}

/// What a batch leaves of the meters, the subscriptions and the window is
/// what it found.
pub proof fn lemma_received_keeps_meters(s: ReceiverView, batch: Seq<Sample>)
    ensures
        s.received(batch).meters == s.meters,
        s.received(batch).interests == s.interests,
        s.received(batch).window_time == s.window_time,
    decreases batch.len(),
{
    if batch.len() > 0 {
        lemma_received_keeps_meters(s, batch.drop_last());
    }
}

/// Between window boundaries the meters do not change. A batch, a
/// subscription, a withdrawal, a clock reading short of the end of the
/// window and the counting of a window each leave them as they were, so two
/// snapshots with any of these between them are equal.
pub proof fn lemma_snapshot_isolation(
    s: ReceiverView,
    batch: Seq<Sample>,
    interest: InterestView,
    now: u64,
    t1: u64,
)
    requires
        now < t1,
    ensures
        s.received(batch).meters == s.meters,
        s.subscribed(interest).meters == s.meters,
        s.unsubscribed(interest).meters == s.meters,
        s.checked(now, t1) == s,
        s.completed().meters == s.meters,
        s.stepped().meters == s.meters,
{
    lemma_received_keeps_meters(s, batch);
}

/// A subscription that was not there before sees nothing of what its channel
/// did before: its store starts empty. A plot of a channel of which another
/// plot is subscribed shares that plot's heatmap as it is.
pub proof fn lemma_new_interest_sees_no_data(s: ReceiverView, interest: InterestView)
    requires
        !s.interests.contains(interest),
    ensures
        interest matches InterestView::Count(k) ==> s.subscribed(interest).counters[k] == 0,
        interest matches InterestView::Percentile(k) ==> s.subscribed(interest).histograms[k]
            == zeros(),
        interest matches InterestView::AllanDeviation(k) ==> s.subscribed(interest).allans[k]
            == Seq::<i128>::empty(),
        is_plot(interest) && !s.heatmaps.contains_key(interest.channel()) ==> s.subscribed(
            interest,
        ).heatmaps[interest.channel()] == blank(image_rows(s.heatmap_slices)),
        is_plot(interest) && s.heatmaps.contains_key(interest.channel()) ==> s.subscribed(
            interest,
        ).heatmaps == s.heatmaps,
        s.subscribed(interest).interests.contains(interest),
{
    let t = s.subscribed(interest);
    assert(t.interests[s.interests.len() as int] == interest);
}

/// Adding a subscription that is there and removing one that is not there
/// change nothing: not the subscriptions, not a store, not the meters.
pub proof fn lemma_no_effect(s: ReceiverView, interest: InterestView)
    ensures
        s.interests.contains(interest) ==> s.subscribed(interest) == s,
        !s.interests.contains(interest) ==> s.unsubscribed(interest) == s,
{
}

/// Every subscription has its store, also after another subscription has
/// been removed: a count has its counter, a percentile its histogram, an
/// Allan deviation its series and a plot its heatmap.
pub proof fn lemma_every_interest_has_its_store(
    s: ReceiverView,
    removed: InterestView,
    kept: InterestView,
)
    requires
        s.consistent(),
        s.unsubscribed(removed).interests.contains(kept),
    ensures
        kept matches InterestView::Count(k) ==> s.unsubscribed(removed).counters.contains_key(k),
        kept matches InterestView::Percentile(k) ==> s.unsubscribed(
            removed,
        ).histograms.contains_key(k),
        kept matches InterestView::AllanDeviation(k) ==> s.unsubscribed(
            removed,
        ).allans.contains_key(k),
        is_plot(kept) ==> s.unsubscribed(removed).heatmaps.contains_key(kept.channel()),
{
    let t = s.unsubscribed(removed);
    crate::consistency::lemma_unsubscribed_consistent(s, removed);
    if is_plot(kept) {
        let i = t.interests.index_of(kept);
        assert(is_plot(t.interests[i]) && t.interests[i].channel() == kept.channel());
        assert(plotted(t.interests, kept.channel()));
    }
}

/// The number of plots among the first `n` subscriptions.
pub open spec fn plots_among(interests: Seq<InterestView>, n: nat) -> nat
    decreases n,
{
    if n == 0 {
        0
    } else if is_plot(interests[n - 1]) {
        plots_among(interests, (n - 1) as nat) + 1
    } else {
        plots_among(interests, (n - 1) as nat)
    }
}

/// A run hands out one artifact for each subscribed plot.
pub proof fn lemma_one_artifact_for_each_plot(s: ReceiverView, n: nat)
    requires
        n <= s.interests.len(),
    ensures
        s.artifacts(n).len() == plots_among(s.interests, n),
    decreases n,
{
    if n > 0 {
        lemma_one_artifact_for_each_plot(s, (n - 1) as nat);
    }
}

/// A run of `windows` windows: asked before each of its first `windows`
/// windows the receiver goes on with a window, and asked after `windows`
/// windows it ends the run, so a run of no windows ends at once. The `n`
/// windows that were rendered by then have moved the end of the window on
/// by `n` windows.
pub proof fn lemma_run_of_windows(s: ReceiverView, n: nat)
    requires
        s.window == 0,
        n <= s.windows,
    ensures
        s.after_windows(n).window == n,
        s.after_windows(n).windows == s.windows,
        s.after_windows(n).service_mode == s.service_mode,
        s.after_windows(n).window_duration == s.window_duration,
        s.after_windows(n).step() is NextWindow <==> n < s.windows,
        s.after_windows(n).window_time == capped64(s.window_time + n * s.window_duration),
    decreases n,
{
    if n > 0 {
        lemma_run_of_windows(s, (n - 1) as nat);
        let before = s.after_windows((n - 1) as nat);
        assert(s.after_windows(n) == before.rendered().completed());
        assert((n - 1) * s.window_duration + s.window_duration == n * s.window_duration)
            by (nonlinear_arith);
        assert((n - 1) * s.window_duration >= 0) by (nonlinear_arith)
            requires
                n >= 1,
                s.window_duration >= 0,
        ;
    } else {
        assert(0 * s.window_duration == 0) by (nonlinear_arith);
    }
}

/// Adding a subscription twice leaves the state that adding it once leaves.
pub proof fn lemma_add_interest_idempotent(s: ReceiverView, interest: InterestView)
    ensures
        s.subscribed(interest).subscribed(interest) == s.subscribed(interest),
{
    let once = s.subscribed(interest);
    let twice = once.subscribed(interest);
    if s.interests.contains(interest) {
    } else {
        assert(once.interests[s.interests.len() as int] == interest);
    }
    assert(once.interests.contains(interest));
    assert(twice.counters =~= once.counters);
    assert(twice.histograms =~= once.histograms);
    assert(twice.allans =~= once.allans);
    assert(twice.heatmaps =~= once.heatmaps);
    assert(twice =~= once);
}

/// Removing a subscription twice leaves the state that removing it once
/// leaves.
pub proof fn lemma_remove_interest_idempotent(s: ReceiverView, interest: InterestView)
    requires
        s.interests.no_duplicates(),
    ensures
        s.unsubscribed(interest).unsubscribed(interest) == s.unsubscribed(interest),
{
    let once = s.unsubscribed(interest);
    let twice = once.unsubscribed(interest);
    if s.interests.contains(interest) {
        let i = s.interests.index_of(interest);
        if once.interests.contains(interest) {
            let j = once.interests.index_of(interest);
            let j1 = if j < i { j } else { j + 1 };
            assert(once.interests[j] == s.interests[j1]);
            assert(s.interests[i] == s.interests[j1]);
        }
    }
    assert(!once.interests.contains(interest));
    assert(twice.counters =~= once.counters);
    assert(twice.histograms =~= once.histograms);
    assert(twice.allans =~= once.allans);
    assert(twice.heatmaps =~= once.heatmaps);
    assert(twice =~= once);
}

/// A sample that ends at the reading at which it began has a latency of
/// zero nanoseconds: it is recorded as an operation that began and ended at
/// the same time, which adds a zero to the Allan series of its channel and
/// counts in the first bucket of its histogram.
pub proof fn lemma_instant_sample(s: ReceiverView, sample: Sample)
    requires
        sample.stop == sample.start,
    ensures
        s.dispatched(sample) == s.recorded(
            sample.channel@,
            nanoseconds_at(s.clock, sample.start),
            nanoseconds_at(s.clock, sample.start),
            sample.count,
        ),
        s.histograms.contains_key(sample.channel@) ==> s.dispatched(
            sample,
        ).histograms[sample.channel@] == inserted(s.histograms[sample.channel@], 0),
        s.allans.contains_key(sample.channel@) ==> s.dispatched(sample).allans[sample.channel@]
            == s.allans[sample.channel@].push(0),
{
}

/// Whether every value that the histogram holds is zero.
pub open spec fn only_zeros(counts: Seq<u64>) -> bool {
    &&& counts.len() == BUCKETS
    &&& forall|b: int| 1 <= b < counts.len() ==> counts[b] == 0
}

/// A histogram that holds only zeros holds as many values as its first
/// bucket.
proof fn lemma_only_zeros_total(counts: Seq<u64>, n: nat)
    requires
        only_zeros(counts),
        1 <= n <= counts.len(),
    ensures
        values_in(counts, n) == counts[0],
    decreases n,
{
    if n > 1 {
        lemma_only_zeros_total(counts, (n - 1) as nat);
    } else {
        assert(values_in(counts, 0) == 0);
    }
}

/// A histogram that holds only zeros reads zero at every quantile, if it
/// holds anything.
pub proof fn lemma_only_zeros_read_zero(counts: Seq<u64>, parts_per_million: nat)
    requires
        only_zeros(counts),
    ensures
        reading(counts, parts_per_million) == (if counts[0] == 0 {
            None
        } else {
            Some(0u64)
        }),
{
    lemma_only_zeros_total(counts, counts.len());
    if counts[0] > 0 {
        let n = counts[0] as nat;
        let wanted = rank(n, parts_per_million);
        assert(1 <= wanted <= n);
        assert(locate(counts, wanted, 0, 0) == 0);
        vstd::arithmetic::power2::lemma2_to64();
        assert(bucket_midpoint(0) == 0) by {
            assert(0 * vstd::arithmetic::power2::pow2(0) == 0) by (nonlinear_arith);
        }
    }
}

/// A histogram that holds only zeros still holds only zeros after a latency
/// of zero is recorded, and reads zero at every quantile.
pub proof fn lemma_zero_latency_reads_zero(counts: Seq<u64>, parts_per_million: nat)
    requires
        only_zeros(counts),
    ensures
        only_zeros(inserted(counts, 0)),
        reading(inserted(counts, 0), parts_per_million) == Some(0u64),
{
    assert(crate::data::histograms::bucket_of(0) == 0);
    lemma_only_zeros_read_zero(inserted(counts, 0), parts_per_million);
}

/// The percentile meter of a channel whose window held only samples that
/// ended when they began shows zero, as does that of a channel whose window
/// held no sample at all.
pub proof fn lemma_instant_window_reads_zero(
    s: ReceiverView,
    sample: Sample,
    parts_per_million: u32,
)
    requires
        sample.stop == sample.start,
        s.histograms.contains_key(sample.channel@),
        only_zeros(s.histograms[sample.channel@]),
    ensures
        reading_or_zero(s.histograms, sample.channel@, parts_per_million) == 0,
        reading_or_zero(s.dispatched(sample).histograms, sample.channel@, parts_per_million) == 0,
        only_zeros(s.dispatched(sample).histograms[sample.channel@]),
        only_zeros(zeros()),
{
    lemma_instant_sample(s, sample);
    lemma_zero_latency_reads_zero(s.histograms[sample.channel@], parts_per_million as nat);
    lemma_only_zeros_read_zero(s.histograms[sample.channel@], parts_per_million as nat);
}

/// The latencies that the histogram of `channel` records for the samples of
/// `batch`, in order: for each sample on the channel, the nanoseconds from
/// its start to its stop, a negative difference counting as zero.
pub open spec fn latencies(clock: Clocksource, batch: Seq<Sample>, channel: Seq<char>) -> Seq<u64>
    decreases batch.len(),
{
    if batch.len() == 0 {
        Seq::<u64>::empty()
    } else if batch.last().channel@ == channel {
        latencies(clock, batch.drop_last(), channel).push(
            clamped(
                nanoseconds_at(clock, batch.last().stop) - nanoseconds_at(
                    clock,
                    batch.last().start,
                ),
            ),
        )
    } else {
        latencies(clock, batch.drop_last(), channel)
    }
}

/// A histogram that counts the values `earlier` counts, after a batch, these
/// and the latencies of the batch on its channel.
pub proof fn lemma_histogram_of_batch(
    s: ReceiverView,
    batch: Seq<Sample>,
    channel: Seq<char>,
    earlier: Seq<u64>,
)
    requires
        s.histograms.contains_key(channel),
        s.histograms[channel] == counts_of(earlier),
    ensures
        s.received(batch).clock == s.clock,
        s.received(batch).histograms.contains_key(channel),
        s.received(batch).histograms[channel] == counts_of(
            earlier + latencies(s.clock, batch, channel),
        ),
    decreases batch.len(),
{
    if batch.len() == 0 {
        assert(earlier + latencies(s.clock, batch, channel) =~= earlier);
    } else {
        lemma_histogram_of_batch(s, batch.drop_last(), channel, earlier);
        let before = latencies(s.clock, batch.drop_last(), channel);
        if batch.last().channel@ == channel {
            let x = latencies(s.clock, batch, channel).last();
            let all = earlier + latencies(s.clock, batch, channel);
            assert(all =~= (earlier + before).push(x));
            assert(all.drop_last() =~= earlier + before);
            assert(all.last() == x);
        }
    }
}

/// The percentile that a window shows for a channel lies among the
/// latencies of that window, whatever the windows before it held: it is the
/// midpoint of the bucket of one of the latencies that the window's samples
/// on the channel had, no further from that latency than its bucket is wide
/// (less than a 128th of the latency), and equal to it below 256
/// nanoseconds.
pub proof fn lemma_percentile_of_window(
    s: ReceiverView,
    batch: Seq<Sample>,
    channel: Seq<char>,
    parts_per_million: u32,
) -> (i: int)
    requires
        s.histograms.contains_key(channel),
        1 <= latencies(s.clock, batch, channel).len() <= u64::MAX,
    ensures
        0 <= i < latencies(s.clock, batch, channel).len(),
        reading_or_zero(s.rendered().received(batch).histograms, channel, parts_per_million)
            == bucket_midpoint(bucket_of(latencies(s.clock, batch, channel)[i])),
        bucket_low(bucket_of(latencies(s.clock, batch, channel)[i])) <= latencies(
            s.clock,
            batch,
            channel,
        )[i] < bucket_low(bucket_of(latencies(s.clock, batch, channel)[i])) + bucket_width(
            bucket_of(latencies(s.clock, batch, channel)[i]),
        ),
        bucket_low(bucket_of(latencies(s.clock, batch, channel)[i])) <= bucket_midpoint(
            bucket_of(latencies(s.clock, batch, channel)[i]),
        ) < bucket_low(bucket_of(latencies(s.clock, batch, channel)[i])) + bucket_width(
            bucket_of(latencies(s.clock, batch, channel)[i]),
        ),
        latencies(s.clock, batch, channel)[i] < 256 ==> reading_or_zero(
            s.rendered().received(batch).histograms,
            channel,
            parts_per_million,
        ) == latencies(s.clock, batch, channel)[i],
        latencies(s.clock, batch, channel)[i] >= 256 ==> bucket_width(
            bucket_of(latencies(s.clock, batch, channel)[i]),
        ) * 128 <= latencies(s.clock, batch, channel)[i],
{
    let values = latencies(s.clock, batch, channel);
    let t = s.rendered();
    assert(t.histograms[channel] == counts_of(Seq::<u64>::empty()));
    lemma_histogram_of_batch(t, batch, channel, Seq::<u64>::empty());
    assert(Seq::<u64>::empty() + values =~= values);
    let i = lemma_reading_among_values(values, parts_per_million as nat);
    lemma_bucket_holds(values[i]);
    lemma_bucket_adjacent(bucket_of(values[i]));
    i
}

/// The percentile that a window shows for a channel at the quantile of a
/// value of that rank: where fewer of the window's latencies than the rank
/// of the quantile are less than `x` and no fewer are not greater, the
/// percentile is the midpoint of the bucket of `x`.
pub proof fn lemma_percentile_of_rank(
    s: ReceiverView,
    batch: Seq<Sample>,
    channel: Seq<char>,
    parts_per_million: u32,
    x: u64,
)
    requires
        s.histograms.contains_key(channel),
        1 <= latencies(s.clock, batch, channel).len() <= u64::MAX,
        less_than(latencies(s.clock, batch, channel), x) < rank(
            latencies(s.clock, batch, channel).len(),
            parts_per_million as nat,
        ) <= up_to(latencies(s.clock, batch, channel), x),
    ensures
        reading_or_zero(s.rendered().received(batch).histograms, channel, parts_per_million)
            == bucket_midpoint(bucket_of(x)),
        bucket_low(bucket_of(x)) <= x < bucket_low(bucket_of(x)) + bucket_width(bucket_of(x)),
        bucket_low(bucket_of(x)) <= bucket_midpoint(bucket_of(x)) < bucket_low(bucket_of(x))
            + bucket_width(bucket_of(x)),
        x < 256 ==> bucket_midpoint(bucket_of(x)) == x,
        x >= 256 ==> bucket_width(bucket_of(x)) * 128 <= x,
{
    let values = latencies(s.clock, batch, channel);
    let t = s.rendered();
    assert(t.histograms[channel] == counts_of(Seq::<u64>::empty()));
    lemma_histogram_of_batch(t, batch, channel, Seq::<u64>::empty());
    assert(Seq::<u64>::empty() + values =~= values);
    lemma_reading_of_rank(values, parts_per_million as nat, x);
    lemma_bucket_holds(x);
    lemma_bucket_adjacent(bucket_of(x));
}

/// The percentiles that a window shows for a channel grow with the
/// quantile.
pub proof fn lemma_percentiles_grow(
    histograms: Map<Seq<char>, Seq<u64>>,
    channel: Seq<char>,
    lower: u32,
    higher: u32,
)
    requires
        lower <= higher,
        histograms.contains_key(channel) ==> histograms[channel].len() == BUCKETS,
    ensures
        reading_or_zero(histograms, channel, lower) <= reading_or_zero(histograms, channel, higher),
{
    if histograms.contains_key(channel) {
        let counts = histograms[channel];
        if values_in(counts, counts.len()) > 0 {
            lemma_readings_grow(counts, lower as nat, higher as nat);
        }
    }
}

} // verus!
