//! Allan deviation from running sums of squared second differences.

use vstd::prelude::*;
use crate::arith::capped128;
use crate::arith::capped64;
use crate::arith::isqrt;
use crate::arith::lemma_root_exists;
use crate::arith::root;
use crate::arith::saturating_add128;
use crate::arith::saturating_square;
use crate::table::lemma_map_of_index;
use crate::table::lemma_map_of_push;
use crate::table::lemma_map_of_remove;
use crate::table::lemma_map_of_update;
use crate::table::map_of;
use crate::table::Table;

verus! {

/// The largest lag for which a deviation is kept.
pub const MAX_LAG: usize = 300;

/// The largest distance from zero of a value of a series.
pub const LIMIT: i128 = 0x1_0000_0000_0000_0000;

/// The value that a series takes in for a difference of `dt` nanoseconds:
/// the difference, held within `LIMIT` of zero.
pub open spec fn bounded(dt: int) -> i128 {
    if dt < -LIMIT {
        (-LIMIT) as i128
    } else if dt > LIMIT {
        LIMIT
    } else {
        dt as i128
    }
}

/// The second difference of the series at `i` for the lag `lag`.
pub open spec fn second_difference(x: Seq<i128>, i: int, lag: int) -> int {
    x[i] - 2 * x[i - lag] + x[i - 2 * lag]
}

/// The sum of the squares of the second differences for the lag `lag`,
/// over the first `n` values of the series.
pub open spec fn squares(x: Seq<i128>, lag: nat, n: nat) -> int
    decreases n,
{
    if n <= 2 * lag {
        0
    } else {
        squares(x, lag, (n - 1) as nat) + second_difference(x, n - 1, lag as int)
            * second_difference(x, n - 1, lag as int)
    }
}

/// The Allan deviation, in thousandths of a nanosecond, of a series whose
/// squared second differences for the lag `lag` sum to `sum` over `count`
/// terms: the square root of the sum over twice the count times the square
/// of the lag, rounded down to a whole number of thousandths and held at
/// `u64::MAX`.
pub open spec fn deviation(sum: u128, count: u64, lag: nat) -> u64 {
    capped64(root(((sum * 1_000_000) / (2 * count * lag * lag)) as nat) as int)
}

/// The Allan deviation of a series at the lag `lag`, in thousandths of a
/// nanosecond. It is defined for lags from 1 to `MAX_LAG` once the series
/// holds more than twice the lag values. The sum of squares is held at
/// `u128::MAX` and the number of values at `u64::MAX`.
pub open spec fn adev_of(x: Seq<i128>, lag: nat) -> Option<u64> {
    if 1 <= lag <= MAX_LAG && capped64(x.len() as int) > 2 * lag {
        Some(
            deviation(
                capped128(squares(x, lag, x.len())),
                (capped64(x.len() as int) - 2 * lag) as u64,
                lag,
            ),
        )
    } else {
        None
    }
}

/// The sum of squares over the first `n` values depends on those values
/// alone.
pub proof fn lemma_squares_prefix(x: Seq<i128>, y: Seq<i128>, lag: nat, n: nat)
    requires
        n <= x.len(),
        n <= y.len(),
        forall|i: int| 0 <= i < n ==> x[i] == y[i],
    ensures
        squares(x, lag, n) == squares(y, lag, n),
    decreases n,
{
    if n > 2 * lag {
        lemma_squares_prefix(x, y, lag, (n - 1) as nat);
    }
}

/// The sum of squares is never negative.
pub proof fn lemma_squares_nonnegative(x: Seq<i128>, lag: nat, n: nat)
    ensures
        squares(x, lag, n) >= 0,
    decreases n,
{
    if n > 2 * lag {
        lemma_squares_nonnegative(x, lag, (n - 1) as nat);
        let d = second_difference(x, n - 1, lag as int);
        assert(d * d >= 0) by (nonlinear_arith);
    }
}

/// The value that a series takes in for a difference of `dt` nanoseconds.
pub fn bound(dt: i128) -> (v: i128)
    ensures
        v == bounded(dt as int),
{
    if dt < -LIMIT {
        -LIMIT
    } else if dt > LIMIT {
        LIMIT
    } else {
        dt
    }
}

/// Computes the Allan deviation from a sum of squares and its number of
/// terms.
pub fn deviation_of(sum: u128, count: u64, lag: usize) -> (r: u64)
    requires
        count >= 1,
        1 <= lag <= MAX_LAG,
    ensures
        r == deviation(sum, count, lag as nat),
{
    assert(1 <= 2 * count * lag * lag <= 2 * 0xffff_ffff_ffff_ffff * 300 * 300)
        by (nonlinear_arith)
        requires
            1 <= count <= 0xffff_ffff_ffff_ffff,
            1 <= lag <= 300,
    ;
    assert(2 * count * lag == (2 * count) * lag) by (nonlinear_arith);
    assert((2 * count) * lag <= 2 * 0xffff_ffff_ffff_ffff * 300) by (nonlinear_arith)
        requires
            1 <= count <= 0xffff_ffff_ffff_ffff,
            1 <= lag <= 300,
    ;
    let divisor: u128 = 2 * (count as u128) * (lag as u128) * (lag as u128);
    let quotient: u128 = sum / divisor;
    let rest: u128 = sum % divisor;
    assert(rest * 1_000_000 <= 2 * 0xffff_ffff_ffff_ffff * 300 * 300 * 1_000_000)
        by (nonlinear_arith)
        requires
            0 <= rest < divisor,
            divisor <= 2 * 0xffff_ffff_ffff_ffff * 300 * 300,
    ;
    let low: u128 = (rest * 1_000_000) / divisor;
    let ghost scaled = (sum * 1_000_000) / (divisor as int);
    proof {
        let d = divisor as int;
        let q = quotient as int;
        let r = rest as int;
        assert(sum == q * d + r) by {
            vstd::arithmetic::div_mod::lemma_fundamental_div_mod(sum as int, d);
            assert(d * q == q * d) by (nonlinear_arith);
        }
        assert(sum * 1_000_000 == (q * 1_000_000) * d + r * 1_000_000) by (nonlinear_arith)
            requires
                sum == q * d + r,
        ;
        assert(((q * 1_000_000) * d + r * 1_000_000) / d == q * 1_000_000 + (r * 1_000_000) / d)
            by {
            vstd::arithmetic::div_mod::lemma_hoist_over_denominator(
                r * 1_000_000,
                q * 1_000_000,
                d as nat,
            );
            assert(d * (q * 1_000_000) == (q * 1_000_000) * d) by (nonlinear_arith);
        }
        assert(scaled == q * 1_000_000 + low);
        assert(scaled >= 0);
        lemma_root_exists(scaled as nat);
    }
    let ghost big = root(scaled as nat);
    let total = match quotient.checked_mul(1_000_000) {
        Some(high) => high.checked_add(low),
        None => None,
    };
    match total {
        Some(value) => {
            assert(value == scaled);
            isqrt(value)
        },
        None => {
            proof {
                assert(scaled > u128::MAX);
                if big <= u64::MAX {
                    assert((big + 1) * (big + 1) <= 0x1_0000_0000_0000_0000
                        * 0x1_0000_0000_0000_0000) by (nonlinear_arith)
                        requires
                            0 <= big + 1 <= 0x1_0000_0000_0000_0000,
                    ;
                    assert(0x1_0000_0000_0000_0000int * 0x1_0000_0000_0000_0000int
                        == 0x1_0000_0000_0000_0000_0000_0000_0000_0000int) by (nonlinear_arith);
                }
            }
            u64::MAX
        },
    }
}

/// The running sums from which the Allan deviation of one series is read.
/// It keeps the latest values, as many as the largest lag needs, and for
/// each lag the sum of the squared second differences of the whole series.
pub struct Allan {
    sums: Vec<u128>,
    recent: Vec<i128>,
    samples: u64,
    series: Ghost<Seq<i128>>,
}

impl View for Allan {
    type V = Seq<i128>;

    /// Every value that the series has taken in, in order of arrival.
    closed spec fn view(&self) -> Seq<i128> {
        self.series@
    }
}

impl Allan {
    pub closed spec fn wf(&self) -> bool {
        let x = self.series@;
        let kept = self.recent@;
        &&& self.sums@.len() == MAX_LAG
        &&& self.samples == capped64(x.len() as int)
        &&& kept.len() <= x.len()
        &&& kept.len() <= 2 * MAX_LAG
        &&& kept.len() < 2 * MAX_LAG ==> kept.len() == x.len()
        &&& forall|j: int| 0 <= j < kept.len() ==> kept[j] == x[x.len() - kept.len() + j]
        &&& forall|lag: int|
            1 <= lag <= MAX_LAG ==> #[trigger] self.sums@[lag - 1] == capped128(
                squares(x, lag as nat, x.len()),
            )
        &&& forall|i: int| 0 <= i < x.len() ==> -LIMIT <= #[trigger] x[i] <= LIMIT
    }

    pub fn new() -> (a: Self)
        ensures
            a.wf(),
            a@ == Seq::<i128>::empty(),
    {
        let mut sums: Vec<u128> = Vec::new();
        while sums.len() < MAX_LAG
            invariant
                sums@.len() <= MAX_LAG,
                forall|i: int| 0 <= i < sums@.len() ==> sums@[i] == 0,
            decreases MAX_LAG - sums@.len(),
        {
            sums.push(0);
        }
        Allan { sums, recent: Vec::new(), samples: 0, series: Ghost(Seq::empty()) }
    }

    /// Takes a difference of `dt` nanoseconds into the series.
    pub fn record(&mut self, dt: i128)
        requires
            old(self).wf(),
        ensures
            final(self).wf(),
            final(self)@ == old(self)@.push(bounded(dt as int)),
    {
        let v = bound(dt);
        let ghost x = self.series@;
        let ghost y = x.push(v);
        let ghost n = x.len();
        let kept = self.recent.len();
        let mut lag: usize = 1;
        while lag <= MAX_LAG
            invariant
                1 <= lag <= MAX_LAG + 1,
                old(self).wf(),
                x == old(self).series@,
                y == x.push(v),
                n == x.len(),
                -LIMIT <= v <= LIMIT,
                self.recent@ == old(self).recent@,
                self.series@ == x,
                self.samples == old(self).samples,
                kept == self.recent@.len(),
                self.sums@.len() == MAX_LAG,
                forall|l: int|
                    1 <= l < lag ==> #[trigger] self.sums@[l - 1] == capped128(
                        squares(y, l as nat, n + 1),
                    ),
                forall|l: int|
                    lag <= l <= MAX_LAG ==> #[trigger] self.sums@[l - 1] == capped128(
                        squares(x, l as nat, n),
                    ),
            decreases MAX_LAG + 1 - lag,
        {
            proof {
                lemma_squares_prefix(y, x, lag as nat, n);
                lemma_squares_nonnegative(x, lag as nat, n);
            }
            if kept >= 2 * lag {
                let a = self.recent[kept - lag];
                let b = self.recent[kept - 2 * lag];
                assert(a == x[n - lag]);
                assert(b == x[n - 2 * lag]);
                let d: i128 = v - 2 * a + b;
                let square = saturating_square(d);
                let sum = saturating_add128(self.sums[lag - 1], square);
                proof {
                    assert(y[n as int] == v);
                    assert(y[n - lag] == x[n - lag]);
                    assert(y[n - 2 * lag] == x[n - 2 * lag]);
                    assert(second_difference(y, n as int, lag as int) == d);
                    assert(d * d >= 0) by (nonlinear_arith);
                    assert(squares(y, lag as nat, n + 1) == squares(y, lag as nat, n) + d * d);
                    assert(self.sums@[lag - 1] == capped128(squares(x, lag as nat, n)));
                }
                self.sums.set(lag - 1, sum);
            } else {
                assert(kept == n);
                assert(squares(y, lag as nat, n + 1) == 0);
                assert(squares(x, lag as nat, n) == 0);
            }
            lag += 1;
        }
        self.recent.push(v);
        if self.recent.len() > 2 * MAX_LAG {
            self.recent.remove(0);
        }
        self.samples = self.samples.saturating_add(1);
        self.series = Ghost(y);
        proof {
            let now = self.recent@;
            assert forall|j: int| 0 <= j < now.len() implies now[j] == y[y.len() - now.len()
                + j] by {
                if kept + 1 > 2 * MAX_LAG {
                    if j + 1 < kept {
                        assert(now[j] == old(self).recent@[j + 1]);
                    }
                } else {
                    if j < kept {
                        assert(now[j] == old(self).recent@[j]);
                    }
                }
            }
            assert forall|i: int| 0 <= i < y.len() implies -LIMIT <= #[trigger] y[i] <= LIMIT by {
                if i < n {
                    assert(y[i] == x[i]);
                }
            }
        }
    }

    /// The Allan deviation of the series at the lag `lag`, in thousandths of
    /// a nanosecond, if it is defined.
    pub fn adev(&self, lag: usize) -> (r: Option<u64>)
        requires
            self.wf(),
        ensures
            r == adev_of(self@, lag as nat),
    {
        if lag == 0 || lag > MAX_LAG || self.samples <= 2 * (lag as u64) {
            None
        } else {
            Some(deviation_of(self.sums[lag - 1], self.samples - 2 * (lag as u64), lag))
        }
    }
}

/// The series after `item` arrives on `channel`: a channel that was never
/// initialised is ignored.
pub open spec fn appended(m: Map<Seq<char>, Seq<i128>>, channel: Seq<char>, item: i128) -> Map<
    Seq<char>,
    Seq<i128>,
> {
    if m.contains_key(channel) {
        m.insert(channel, m[channel].push(item))
    } else {
        m
    }
}

/// The series of each accumulator.
pub open spec fn allan_views(accumulators: Seq<Allan>) -> Seq<Seq<i128>> {
    Seq::new(accumulators.len(), |i: int| accumulators[i]@)
}

/// The Allan deviation of `channel` at the lag `lag`: nothing for a channel
/// that was never initialised.
pub open spec fn channel_adev(m: Map<Seq<char>, Seq<i128>>, channel: Seq<char>, lag: nat)
    -> Option<u64> {
    if m.contains_key(channel) {
        adev_of(m[channel], lag)
    } else {
        None
    }
}

/// For each initialised channel, the series of latency differences seen
/// since the channel was initialised, in nanoseconds and in order of
/// arrival. A series is never cleared between windows.
pub struct Allans {
    table: Table<Allan>,
}

impl View for Allans {
    type V = Map<Seq<char>, Seq<i128>>;

    closed spec fn view(&self) -> Map<Seq<char>, Seq<i128>> {
        map_of(self.table.keys(), allan_views(self.table.values()))
    }
}

impl Allans {
    pub closed spec fn wf(&self) -> bool {
        &&& self.table.wf()
        &&& forall|i: int|
            0 <= i < self.table.values().len() ==> (#[trigger] self.table.values()[i]).wf()
    }

    pub fn new() -> (a: Self)
        ensures
            a.wf(),
            a@ == Map::<Seq<char>, Seq<i128>>::empty(),
    {
        let a = Allans { table: Table::new() };
        assert(a@ =~= Map::<Seq<char>, Seq<i128>>::empty());
        a
    }

    /// Starts an empty series for `channel`.
    pub fn init(&mut self, channel: String)
        requires
            old(self).wf(),
        ensures
            final(self).wf(),
            final(self)@ == old(self)@.insert(channel@, Seq::<i128>::empty()),
    {
        let ghost keys = self.table.keys();
        let ghost views = allan_views(self.table.values());
        let fresh = Allan::new();
        match self.table.position(&channel) {
            Some(i) => {
                let place = self.table.value_mut(i);
                *place = fresh;
                proof {
                    lemma_map_of_update(keys, views, i as int, Seq::<i128>::empty());
                    assert(allan_views(self.table.values()) =~= views.update(
                        i as int,
                        Seq::<i128>::empty(),
                    ));
                }
            },
            None => {
                self.table.insert(channel, fresh);
                proof {
                    lemma_map_of_push(keys, views, channel@, Seq::<i128>::empty());
                    assert(allan_views(self.table.values()) =~= views.push(
                        Seq::<i128>::empty(),
                    ));
                }
            },
        }
    }

    /// Drops the series of `channel`.
    pub fn remove(&mut self, channel: &String)
        requires
            old(self).wf(),
        ensures
            final(self).wf(),
            final(self)@ == old(self)@.remove(channel@),
    {
        let ghost keys = self.table.keys();
        let ghost views = allan_views(self.table.values());
        match self.table.position(channel) {
            Some(i) => {
                self.table.remove(channel);
                proof {
                    lemma_map_of_index(keys, views, i as int);
                    lemma_map_of_remove(keys, views, i as int);
                    assert(allan_views(self.table.values()) =~= views.remove(i as int));
                }
            },
            None => {
                assert(self@ =~= old(self)@.remove(channel@));
            },
        }
    }

    /// Takes a difference of `dt` nanoseconds into the series of `channel`,
    /// if it is initialised.
    pub fn record(&mut self, channel: &String, dt: i128)
        requires
            old(self).wf(),
        ensures
            final(self).wf(),
            final(self)@ == appended(old(self)@, channel@, bounded(dt as int)),
    {
        let ghost keys = self.table.keys();
        let ghost views = allan_views(self.table.values());
        match self.table.position(channel) {
            Some(i) => {
                let accumulator = self.table.value_mut(i);
                accumulator.record(dt);
                proof {
                    lemma_map_of_index(keys, views, i as int);
                    lemma_map_of_update(
                        keys,
                        views,
                        i as int,
                        views[i as int].push(bounded(dt as int)),
                    );
                    assert(allan_views(self.table.values()) =~= views.update(
                        i as int,
                        views[i as int].push(bounded(dt as int)),
                    ));
                }
            },
            None => {},
        }
    }

    /// The Allan deviation of `channel` at the lag `lag`, in thousandths of
    /// a nanosecond, if the channel is initialised and the deviation is
    /// defined.
    pub fn adev(&self, channel: &String, lag: usize) -> (r: Option<u64>)
        requires
            self.wf(),
        ensures
            r == channel_adev(self@, channel@, lag as nat),
    {
        match self.table.position(channel) {
            Some(i) => {
                proof {
                    lemma_map_of_index(
                        self.table.keys(),
                        allan_views(self.table.values()),
                        i as int,
                    );
                }
                self.table.value_at(i).adev(lag)
            },
            None => None,
        }
    }
}

} // verus!
