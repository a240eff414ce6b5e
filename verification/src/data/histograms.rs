//! Latency histograms by channel, with buckets of bounded relative width.

use vstd::prelude::*;
use vstd::arithmetic::power2::lemma2_to64;
use vstd::arithmetic::power2::lemma2_to64_rest;
use vstd::arithmetic::power2::lemma_pow2_pos;
use vstd::arithmetic::power2::lemma_pow2_strictly_increases;
use vstd::arithmetic::power2::lemma_pow2_unfold;
use vstd::arithmetic::power2::pow2;
use crate::arith::saturating_sum;
use crate::table::lemma_map_of_update;
use crate::table::map_of;
use crate::table::Table;

verus! {

/// The number of buckets of a histogram. Values below 256 have a bucket
/// each; above, every power of two is divided into 128 buckets of equal
/// width.
pub const BUCKETS: usize = 7424;

/// How often `v` is halved before it is below 256.
pub open spec fn shift_of(v: nat) -> nat
    decreases v,
{
    if v < 256 {
        0
    } else {
        1 + shift_of(v / 2)
    }
}

/// What is left of `v` once it has been halved until it is below 256.
pub open spec fn mantissa_of(v: nat) -> nat
    decreases v,
{
    if v < 256 {
        v
    } else {
        mantissa_of(v / 2)
    }
}

/// The bucket that holds the value `v`.
pub open spec fn bucket_of(v: u64) -> nat {
    shift_of(v as nat) * 128 + mantissa_of(v as nat)
}

/// How often the values of the bucket `b` are halved before they are below
/// 256.
pub open spec fn bucket_shift(b: nat) -> nat {
    if b < 256 {
        0
    } else {
        (b / 128 - 1) as nat
    }
}

/// What is left of the values of the bucket `b` once they have been halved.
pub open spec fn bucket_mantissa(b: nat) -> nat {
    (b - bucket_shift(b) * 128) as nat
}

/// The number of values that the bucket `b` holds.
pub open spec fn bucket_width(b: nat) -> nat {
    pow2(bucket_shift(b))
}

/// The smallest value that the bucket `b` holds.
pub open spec fn bucket_low(b: nat) -> nat {
    bucket_mantissa(b) * pow2(bucket_shift(b))
}

/// The value that stands for the bucket `b` in a reading: its midpoint,
/// rounded down.
pub open spec fn bucket_midpoint(b: nat) -> nat {
    bucket_low(b) + bucket_width(b) / 2
}

/// A value lies between its mantissa and the next, both scaled by its shift.
pub proof fn lemma_shift_and_mantissa(v: nat)
    ensures
        v < 256 ==> shift_of(v) == 0 && mantissa_of(v) == v,
        v >= 256 ==> shift_of(v) >= 1 && 128 <= mantissa_of(v) < 256,
        mantissa_of(v) * pow2(shift_of(v)) <= v < (mantissa_of(v) + 1) * pow2(shift_of(v)),
    decreases v,
{
    lemma2_to64();
    if v >= 256 {
        let h = v / 2;
        lemma_shift_and_mantissa(h);
        let m = mantissa_of(h);
        let s = shift_of(h);
        lemma_pow2_unfold(s + 1);
        lemma_pow2_pos(s);
        let p = pow2(s);
        assert(m * (2 * p) <= v && v < (m + 1) * (2 * p)) by (nonlinear_arith)
            requires
                m * p <= h,
                h < (m + 1) * p,
                2 * h <= v,
                v <= 2 * h + 1,
                p > 0,
        ;
    } else {
        assert(v * 1 == v && (v + 1) * 1 == v + 1) by (nonlinear_arith);
    }
}

/// The bucket of a value is one of the buckets of a histogram, it holds the
/// value, and the value is no further from the bucket's midpoint than the
/// bucket is wide.
pub proof fn lemma_bucket_holds(v: u64)
    ensures
        bucket_of(v) < BUCKETS,
        shift_of(v as nat) <= 56,
        bucket_shift(bucket_of(v)) == shift_of(v as nat),
        bucket_mantissa(bucket_of(v)) == mantissa_of(v as nat),
        bucket_low(bucket_of(v)) <= v < bucket_low(bucket_of(v)) + bucket_width(bucket_of(v)),
        bucket_low(bucket_of(v)) <= bucket_midpoint(bucket_of(v)) < bucket_low(bucket_of(v))
            + bucket_width(bucket_of(v)),
        v < 256 ==> bucket_midpoint(bucket_of(v)) == v,
        v >= 256 ==> bucket_width(bucket_of(v)) * 128 <= v,
{
    let n = v as nat;
    lemma_shift_and_mantissa(n);
    let s = shift_of(n);
    let m = mantissa_of(n);
    lemma2_to64();
    lemma2_to64_rest();
    lemma_pow2_pos(s);
    if s > 56 {
        if s > 57 {
            lemma_pow2_strictly_increases(57, s);
        }
        assert(m * pow2(s) >= 128 * 0x200000000000000) by (nonlinear_arith)
            requires
                m >= 128,
                pow2(s) >= 0x200000000000000,
        ;
    }
    let b = bucket_of(v);
    if n >= 256 {
        assert(b == s * 128 + m);
        assert(b / 128 == s + 1) by (nonlinear_arith)
            requires
                b == s * 128 + m,
                128 <= m < 256,
        ;
    }
    assert(bucket_shift(b) == s);
    assert(bucket_mantissa(b) == m);
    assert((m + 1) * pow2(s) == m * pow2(s) + pow2(s)) by (nonlinear_arith);
    if n >= 256 {
        assert(pow2(s) * 128 <= m * pow2(s)) by (nonlinear_arith)
            requires
                m >= 128,
                pow2(s) > 0,
        ;
    }
}

/// The bucket that holds the value `v`.
pub fn bucket(v: u64) -> (b: usize)
    ensures
        b == bucket_of(v),
        b < BUCKETS,
{
    let mut rest = v;
    let mut shift: usize = 0;
    proof {
        lemma_bucket_holds(v);
    }
    while rest >= 256
        invariant
            shift_of(v as nat) == shift + shift_of(rest as nat),
            mantissa_of(v as nat) == mantissa_of(rest as nat),
            shift_of(v as nat) <= 56,
        decreases rest,
    {
        rest = rest / 2;
        shift += 1;
    }
    shift * 128 + rest as usize
}

/// The value that stands for the bucket `b` in a reading.
pub fn midpoint(b: usize) -> (m: u64)
    requires
        b < BUCKETS,
    ensures
        m == bucket_midpoint(b as nat),
{
    let shift: usize = if b < 256 {
        0
    } else {
        b / 128 - 1
    };
    let mantissa: u64 = (b - shift * 128) as u64;
    let mut width: u64 = 1;
    let mut done: usize = 0;
    proof {
        lemma2_to64();
        lemma2_to64_rest();
    }
    while done < shift
        invariant
            done <= shift <= 56,
            width == pow2(done as nat),
            pow2(56) == 0x100000000000000,
        decreases shift - done,
    {
        proof {
            lemma_pow2_unfold((done + 1) as nat);
            if done + 1 < 56 {
                lemma_pow2_strictly_increases((done + 1) as nat, 56);
            }
        }
        width = width * 2;
        done += 1;
    }
    proof {
        if shift < 56 {
            lemma_pow2_strictly_increases(shift as nat, 56);
        }
        assert(mantissa * width <= 255 * 0x100000000000000) by (nonlinear_arith)
            requires
                mantissa <= 255,
                width <= 0x100000000000000,
        ;
    }
    mantissa * width + width / 2
}

/// The counts of a histogram that holds nothing.
pub open spec fn zeros() -> Seq<u64> {
    Seq::new(BUCKETS as nat, |i: int| 0u64)
}

/// The counts after one more value is counted in the bucket `b`; a count
/// stays at `u64::MAX` once it is there.
pub open spec fn bumped(counts: Seq<u64>, b: int) -> Seq<u64> {
    counts.update(b, saturating_sum(counts[b], 1))
}

/// The counts after the value `v` is recorded.
pub open spec fn inserted(counts: Seq<u64>, v: u64) -> Seq<u64> {
    bumped(counts, bucket_of(v) as int)
}

/// The latency that a histogram records for a difference of `dt`
/// nanoseconds: a negative difference counts as zero.
pub open spec fn clamped(dt: int) -> u64 {
    if dt < 0 {
        0
    } else if dt > u64::MAX {
        u64::MAX
    } else {
        dt as u64
    }
}

/// The number of values in the first `n` buckets.
pub open spec fn total(counts: Seq<u64>, n: nat) -> nat
    decreases n,
{
    if n == 0 {
        0
    } else {
        total(counts, (n - 1) as nat) + counts[n - 1] as nat
    }
}

/// The rank, among `n` values, of the quantile given in parts per million:
/// the nearest rank, counted from one.
pub open spec fn rank(n: nat, parts_per_million: nat) -> nat {
    let r = (parts_per_million * n + 999_999) / 1_000_000;
    if r <= 1 {
        1
    } else if r >= n {
        n
    } else {
        r
    }
}

/// The first bucket, from the bucket `from` on, at which the number of
/// values reaches `rank`, given that the buckets before `from` hold `below`
/// values.
pub open spec fn locate(counts: Seq<u64>, rank: nat, from: nat, below: nat) -> nat
    decreases counts.len() - from,
{
    if from >= counts.len() {
        from
    } else if below + counts[from as int] >= rank {
        from
    } else {
        locate(counts, rank, from + 1, below + counts[from as int] as nat)
    }
}

/// The value read at a quantile, if any value was recorded: the midpoint of
/// the bucket that holds the value of the quantile's rank.
pub open spec fn reading(counts: Seq<u64>, parts_per_million: nat) -> Option<u64> {
    if total(counts, counts.len()) == 0 {
        None
    } else {
        Some(
            bucket_midpoint(
                locate(counts, rank(total(counts, counts.len()), parts_per_million), 0, 0),
            ) as u64,
        )
    }
}

/// The number of values in the first buckets grows with the number of
/// buckets.
pub proof fn lemma_total_grows(counts: Seq<u64>, a: nat, b: nat)
    requires
        a <= b,
    ensures
        total(counts, a) <= total(counts, b),
        total(counts, b) <= b * u64::MAX,
    decreases b,
{
    if a < b {
        lemma_total_grows(counts, a, (b - 1) as nat);
        assert((b - 1) * u64::MAX + u64::MAX == b * u64::MAX) by (nonlinear_arith);
    } else if b > 0 {
        lemma_total_grows(counts, (b - 1) as nat, (b - 1) as nat);
        assert((b - 1) * u64::MAX + u64::MAX == b * u64::MAX) by (nonlinear_arith);
    }
}

/// Where the number of values reaches a rank that the histogram has: at a
/// bucket of the histogram that holds a value, with fewer than `rank` values
/// in the buckets before it and at least `rank` up to and including it.
pub proof fn lemma_locate(counts: Seq<u64>, rank: nat, from: nat, below: nat)
    requires
        from <= counts.len(),
        below == total(counts, from),
        below < rank <= total(counts, counts.len()),
    ensures
        from <= locate(counts, rank, from, below) < counts.len(),
        counts[locate(counts, rank, from, below) as int] > 0,
        total(counts, locate(counts, rank, from, below)) < rank <= total(
            counts,
            locate(counts, rank, from, below) + 1,
        ),
    decreases counts.len() - from,
{
    if from < counts.len() {
        if below + counts[from as int] < rank {
            lemma_locate(counts, rank, from + 1, below + counts[from as int] as nat);
        }
    }
}

/// A histogram that holds a value has a reading at every quantile: the
/// midpoint of one of its buckets that holds a value.
pub proof fn lemma_reading(counts: Seq<u64>, parts_per_million: nat)
    requires
        counts.len() == BUCKETS,
    ensures
        total(counts, counts.len()) == 0 <==> reading(counts, parts_per_million) is None,
        total(counts, counts.len()) > 0 ==> exists|b: int|
            0 <= b < BUCKETS && #[trigger] counts[b] > 0 && reading(counts, parts_per_million)
                == Some(bucket_midpoint(b as nat) as u64),
{
    let n = total(counts, counts.len());
    if n > 0 {
        let wanted = rank(n, parts_per_million);
        lemma_locate(counts, wanted, 0, 0);
        let b = locate(counts, wanted, 0, 0) as int;
        assert(counts[b] > 0);
    }
}

/// The values recorded on one channel during a window, counted by bucket.
pub struct Histogram {
    counts: Vec<u64>,
}

impl View for Histogram {
    type V = Seq<u64>;

    /// The number of values in each bucket.
    closed spec fn view(&self) -> Seq<u64> {
        self.counts@
    }
}

impl Histogram {
    pub closed spec fn wf(&self) -> bool {
        self.counts@.len() == BUCKETS
    }

    pub fn new() -> (h: Self)
        ensures
            h.wf(),
            h@ == zeros(),
    {
        let mut counts: Vec<u64> = Vec::with_capacity(BUCKETS);
        while counts.len() < BUCKETS
            invariant
                counts@.len() <= BUCKETS,
                forall|i: int| 0 <= i < counts@.len() ==> counts@[i] == 0,
            decreases BUCKETS - counts@.len(),
        {
            counts.push(0);
        }
        assert(counts@ =~= zeros());
        Histogram { counts }
    }

    /// Records one value.
    pub fn increment(&mut self, value: u64)
        requires
            old(self).wf(),
        ensures
            final(self).wf(),
            final(self)@ == inserted(old(self)@, value),
    {
        let b = bucket(value);
        let count = self.counts[b].saturating_add(1);
        self.counts.set(b, count);
    }

    /// The number of recorded values.
    pub fn len(&self) -> (n: u128)
        requires
            self.wf(),
        ensures
            n == total(self@, BUCKETS as nat),
    {
        let mut n: u128 = 0;
        let mut i: usize = 0;
        while i < BUCKETS
            invariant
                i <= BUCKETS,
                self.counts@.len() == BUCKETS,
                n == total(self.counts@, i as nat),
            decreases BUCKETS - i,
        {
            proof {
                lemma_total_grows(self.counts@, i as nat, i as nat);
                assert(i * u64::MAX <= 7424 * u64::MAX) by (nonlinear_arith)
                    requires
                        i <= 7424,
                ;
            }
            n = n + self.counts[i] as u128;
            i += 1;
        }
        n
    }

    /// The value at the quantile given in parts per million, if any value
    /// was recorded.
    pub fn percentile(&self, parts_per_million: u32) -> (r: Option<u64>)
        requires
            self.wf(),
        ensures
            r == reading(self@, parts_per_million as nat),
    {
        let n = self.len();
        if n == 0 {
            return None;
        }
        proof {
            lemma_total_grows(self.counts@, BUCKETS as nat, BUCKETS as nat);
            assert(parts_per_million * n <= 0xffff_ffff * (7424 * 0xffff_ffff_ffff_ffff))
                by (nonlinear_arith)
                requires
                    0 <= parts_per_million <= 0xffff_ffff,
                    0 <= n <= 7424 * 0xffff_ffff_ffff_ffff,
            ;
        }
        let r: u128 = ((parts_per_million as u128) * n + 999_999) / 1_000_000;
        let wanted: u128 = if r <= 1 {
            1
        } else if r >= n {
            n
        } else {
            r
        };
        let mut below: u128 = 0;
        let mut i: usize = 0;
        while i < BUCKETS
            invariant
                i <= BUCKETS,
                self.counts@.len() == BUCKETS,
                below == total(self.counts@, i as nat),
                below < wanted,
                wanted <= n,
                n == total(self.counts@, BUCKETS as nat),
                wanted == rank(n as nat, parts_per_million as nat),
                locate(self.counts@, wanted as nat, 0, 0) == locate(
                    self.counts@,
                    wanted as nat,
                    i as nat,
                    below as nat,
                ),
            decreases BUCKETS - i,
        {
            proof {
                lemma_total_grows(self.counts@, (i + 1) as nat, BUCKETS as nat);
            }
            let sum = below + self.counts[i] as u128;
            if sum >= wanted {
                return Some(midpoint(i));
            }
            below = sum;
            i += 1;
        }
        None
    }

    /// Forgets every recorded value.
    pub fn clear(&mut self)
        requires
            old(self).wf(),
        ensures
            final(self).wf(),
            final(self)@ == zeros(),
    {
        let mut i: usize = 0;
        while i < BUCKETS
            invariant
                i <= BUCKETS,
                self.counts@.len() == BUCKETS,
                forall|j: int| 0 <= j < i ==> self.counts@[j] == 0,
            decreases BUCKETS - i,
        {
            self.counts.set(i, 0);
            i += 1;
        }
        assert(self.counts@ =~= zeros());
    }
}

/// The counts of each histogram.
pub open spec fn histogram_views(hs: Seq<Histogram>) -> Seq<Seq<u64>> {
    Seq::new(hs.len(), |i: int| hs[i]@)
}

/// The histograms after a latency of `dt` nanoseconds on `channel`: a
/// channel that was never initialised is ignored.
pub open spec fn recorded(m: Map<Seq<char>, Seq<u64>>, channel: Seq<char>, dt: int) -> Map<
    Seq<char>,
    Seq<u64>,
> {
    if m.contains_key(channel) {
        m.insert(channel, inserted(m[channel], clamped(dt)))
    } else {
        m
    }
}

/// The histograms with every channel kept and every recorded value forgotten.
pub open spec fn emptied(m: Map<Seq<char>, Seq<u64>>) -> Map<Seq<char>, Seq<u64>> {
    Map::new(|k: Seq<char>| m.contains_key(k), |k: Seq<char>| zeros())
}

/// The reading of `channel` at a quantile: nothing for a channel that was
/// never initialised or that has no values.
pub open spec fn channel_reading(
    m: Map<Seq<char>, Seq<u64>>,
    channel: Seq<char>,
    parts_per_million: nat,
) -> Option<u64> {
    if m.contains_key(channel) {
        reading(m[channel], parts_per_million)
    } else {
        None
    }
}

/// The latency histograms of the current window, one for each initialised
/// channel.
pub struct Histograms {
    table: Table<Histogram>,
}

impl View for Histograms {
    type V = Map<Seq<char>, Seq<u64>>;

    closed spec fn view(&self) -> Map<Seq<char>, Seq<u64>> {
        map_of(self.table.keys(), histogram_views(self.table.values()))
    }
}

impl Histograms {
    pub closed spec fn wf(&self) -> bool {
        &&& self.table.wf()
        &&& forall|i: int| 0 <= i < self.table.values().len() ==> (#[trigger] self.table.values()[i]).wf()
    }

    pub fn new() -> (h: Self)
        ensures
            h.wf(),
            h@ == Map::<Seq<char>, Seq<u64>>::empty(),
    {
        let h = Histograms { table: Table::new() };
        assert(h@ =~= Map::<Seq<char>, Seq<u64>>::empty());
        h
    }

    /// Starts an empty histogram for `channel`.
    pub fn init(&mut self, channel: String)
        requires
            old(self).wf(),
        ensures
            final(self).wf(),
            final(self)@ == old(self)@.insert(channel@, zeros()),
    {
        let ghost keys = self.table.keys();
        let ghost views = histogram_views(self.table.values());
        let fresh = Histogram::new();
        match self.table.position(&channel) {
            Some(i) => {
                let place = self.table.value_mut(i);
                *place = fresh;
                proof {
                    lemma_map_of_update(keys, views, i as int, zeros());
                    assert(histogram_views(self.table.values()) =~= views.update(
                        i as int,
                        zeros(),
                    ));
                }
            },
            None => {
                self.table.insert(channel, fresh);
                proof {
                    crate::table::lemma_map_of_push(keys, views, channel@, zeros());
                    assert(histogram_views(self.table.values()) =~= views.push(
                        zeros(),
                    ));
                }
            },
        }
    }

    /// Drops the histogram of `channel`.
    pub fn remove(&mut self, channel: &String)
        requires
            old(self).wf(),
        ensures
            final(self).wf(),
            final(self)@ == old(self)@.remove(channel@),
    {
        let ghost keys = self.table.keys();
        let ghost views = histogram_views(self.table.values());
        match self.table.position(channel) {
            Some(i) => {
                self.table.remove(channel);
                proof {
                    crate::table::lemma_map_of_index(keys, views, i as int);
                    crate::table::lemma_map_of_remove(keys, views, i as int);
                    assert(histogram_views(self.table.values()) =~= views.remove(i as int));
                }
            },
            None => {
                assert(self@ =~= old(self)@.remove(channel@));
            },
        }
    }

    /// Records a latency of `dt` nanoseconds on `channel`, if it is
    /// initialised.
    pub fn increment(&mut self, channel: &String, dt: i128)
        requires
            old(self).wf(),
        ensures
            final(self).wf(),
            final(self)@ == recorded(old(self)@, channel@, dt as int),
    {
        let ghost keys = self.table.keys();
        let ghost views = histogram_views(self.table.values());
        match self.table.position(channel) {
            Some(i) => {
                let value = clamp(dt);
                let histogram = self.table.value_mut(i);
                histogram.increment(value);
                proof {
                    crate::table::lemma_map_of_index(keys, views, i as int);
                    lemma_map_of_update(keys, views, i as int, inserted(views[i as int], value));
                    assert(histogram_views(self.table.values()) =~= views.update(
                        i as int,
                        inserted(views[i as int], value),
                    ));
                }
            },
            None => {},
        }
    }

    /// The value of `channel` at the quantile given in parts per million:
    /// nothing if the channel is not initialised or has no values.
    pub fn percentile(&self, channel: &String, parts_per_million: u32) -> (r: Option<u64>)
        requires
            self.wf(),
        ensures
            r == channel_reading(self@, channel@, parts_per_million as nat),
    {
        match self.table.position(channel) {
            Some(i) => {
                proof {
                    crate::table::lemma_map_of_index(
                        self.table.keys(),
                        histogram_views(self.table.values()),
                        i as int,
                    );
                }
                self.table.value_at(i).percentile(parts_per_million)
            },
            None => None,
        }
    }

    /// Empties every histogram and keeps the channels.
    pub fn clear(&mut self)
        requires
            old(self).wf(),
        ensures
            final(self).wf(),
            final(self)@ == emptied(old(self)@),
    {
        let n = self.table.len();
        let mut i: usize = 0;
        while i < n
            invariant
                self.wf(),
                self.table.keys() == old(self).table.keys(),
                n == self.table.keys().len(),
                i <= n,
                forall|j: int| 0 <= j < i ==> (#[trigger] self.table.values()[j])@ == zeros(),
            decreases n - i,
        {
            let histogram = self.table.value_mut(i);
            histogram.clear();
            i += 1;
        }
        proof {
            let keys = self.table.keys();
            let views = histogram_views(self.table.values());
            assert forall|k: Seq<char>| #[trigger] self@.contains_key(k) implies self@[k]
                == zeros() by {
                let j = crate::table::index_of(keys, k);
                assert(views[j] == self.table.values()[j]@);
            }
            assert(self@ =~= emptied(old(self)@));
        }
    }
}

/// The latency that is recorded for a difference of `dt` nanoseconds.
pub fn clamp(dt: i128) -> (v: u64)
    ensures
        v == clamped(dt as int),
{
    if dt < 0 {
        0
    } else if dt > u64::MAX as i128 {
        u64::MAX
    } else {
        dt as u64
    }
}

} // verus!
