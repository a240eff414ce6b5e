//! What a reading of a histogram says of the values that were recorded.

use vstd::prelude::*;
use vstd::arithmetic::power2::pow2;
use crate::data::histograms::bucket_low;
use crate::data::histograms::bucket_mantissa;
use crate::data::histograms::bucket_shift;
use crate::data::histograms::bucket_midpoint;
use crate::data::histograms::bucket_of;
use crate::data::histograms::bucket_width;
use crate::data::histograms::inserted;
use crate::data::histograms::lemma_bucket_holds;
use crate::data::histograms::lemma_locate;
use crate::data::histograms::lemma_shift_and_mantissa;
use crate::data::histograms::lemma_total_grows;
use crate::data::histograms::locate;
use crate::data::histograms::mantissa_of;
use crate::data::histograms::rank;
use crate::data::histograms::reading;
use crate::data::histograms::shift_of;
use crate::data::histograms::total;
use crate::data::histograms::zeros;
use crate::data::histograms::BUCKETS;

verus! {

/// The counts of a histogram in which `values` were recorded, in order,
/// since it was empty.
pub open spec fn counts_of(values: Seq<u64>) -> Seq<u64>
    decreases values.len(),
{
    if values.len() == 0 {
        zeros()
    } else {
        inserted(counts_of(values.drop_last()), values.last())
    }
}

/// The number of values whose bucket is `b`.
pub open spec fn in_bucket(values: Seq<u64>, b: int) -> nat
    decreases values.len(),
{
    if values.len() == 0 {
        0
    } else if bucket_of(values.last()) == b {
        in_bucket(values.drop_last(), b) + 1
    } else {
        in_bucket(values.drop_last(), b)
    }
}

/// The number of values whose bucket comes before `b`.
pub open spec fn below_bucket(values: Seq<u64>, b: int) -> nat
    decreases values.len(),
{
    if values.len() == 0 {
        0
    } else if bucket_of(values.last()) < b {
        below_bucket(values.drop_last(), b) + 1
    } else {
        below_bucket(values.drop_last(), b)
    }
}

/// The number of values that are less than `x`.
pub open spec fn less_than(values: Seq<u64>, x: u64) -> nat
    decreases values.len(),
{
    if values.len() == 0 {
        0
    } else if values.last() < x {
        less_than(values.drop_last(), x) + 1
    } else {
        less_than(values.drop_last(), x)
    }
}

/// The number of values that are not greater than `x`.
pub open spec fn up_to(values: Seq<u64>, x: u64) -> nat
    decreases values.len(),
{
    if values.len() == 0 {
        0
    } else if values.last() <= x {
        up_to(values.drop_last(), x) + 1
    } else {
        up_to(values.drop_last(), x)
    }
}

/// A greater value has no earlier bucket.
pub proof fn lemma_buckets_grow(v: nat, w: nat)
    requires
        v <= w,
    ensures
        shift_of(v) * 128 + mantissa_of(v) <= shift_of(w) * 128 + mantissa_of(w),
    decreases w,
{
    lemma_shift_and_mantissa(v);
    lemma_shift_and_mantissa(w);
    if w >= 256 {
        if v >= 256 {
            lemma_buckets_grow(v / 2, w / 2);
        } else {
            assert(shift_of(w) * 128 >= 128) by (nonlinear_arith)
                requires
                    shift_of(w) >= 1,
            ;
        }
    }
}

/// No count is greater than the number of values.
proof fn lemma_counts_bounded(values: Seq<u64>, b: int, x: u64)
    ensures
        in_bucket(values, b) <= values.len(),
        below_bucket(values, b) <= values.len(),
        less_than(values, x) <= values.len(),
        up_to(values, x) <= values.len(),
    decreases values.len(),
{
    if values.len() > 0 {
        lemma_counts_bounded(values.drop_last(), b, x);
    }
}

/// The values whose bucket comes before `b + 1` are those whose bucket comes
/// before `b` and those whose bucket is `b`.
proof fn lemma_below_step(values: Seq<u64>, b: int)
    ensures
        below_bucket(values, b + 1) == below_bucket(values, b) + in_bucket(values, b),
    decreases values.len(),
{
    if values.len() > 0 {
        lemma_below_step(values.drop_last(), b);
    }
}

/// Every value has a bucket of the histogram, and none comes before the
/// first.
proof fn lemma_below_ends(values: Seq<u64>)
    ensures
        below_bucket(values, 0) == 0,
        below_bucket(values, BUCKETS as int) == values.len(),
    decreases values.len(),
{
    if values.len() > 0 {
        lemma_below_ends(values.drop_last());
        lemma_bucket_holds(values.last());
    }
}

/// A histogram counts in each bucket the values of that bucket.
pub proof fn lemma_counts_of(values: Seq<u64>)
    requires
        values.len() <= u64::MAX,
    ensures
        counts_of(values).len() == BUCKETS,
        forall|b: int| 0 <= b < BUCKETS ==> #[trigger] counts_of(values)[b] == in_bucket(values, b),
    decreases values.len(),
{
    if values.len() > 0 {
        let before = values.drop_last();
        lemma_counts_of(before);
        lemma_bucket_holds(values.last());
        let k = bucket_of(values.last()) as int;
        lemma_counts_bounded(before, k, 0);
        assert forall|b: int| 0 <= b < BUCKETS implies #[trigger] counts_of(values)[b] == in_bucket(
            values,
            b,
        ) by {
            assert(counts_of(before)[b] == in_bucket(before, b));
        }
    }
}

/// A histogram holds in its first `n` buckets the values whose bucket comes
/// before `n`.
pub proof fn lemma_total_of(values: Seq<u64>, n: nat)
    requires
        values.len() <= u64::MAX,
        n <= BUCKETS,
    ensures
        total(counts_of(values), n) == below_bucket(values, n as int),
    decreases n,
{
    lemma_counts_of(values);
    if n == 0 {
        lemma_below_ends(values);
    } else {
        lemma_total_of(values, (n - 1) as nat);
        lemma_below_step(values, n - 1);
    }
}

/// The values whose bucket comes before that of `x` are less than `x`, and
/// the values that are not greater than `x` have its bucket or an earlier
/// one.
proof fn lemma_counts_compare(values: Seq<u64>, x: u64)
    ensures
        below_bucket(values, bucket_of(x) as int) <= less_than(values, x),
        up_to(values, x) <= below_bucket(values, bucket_of(x) as int + 1),
    decreases values.len(),
{
    if values.len() > 0 {
        lemma_counts_compare(values.drop_last(), x);
        let v = values.last();
        if v <= x {
            lemma_buckets_grow(v as nat, x as nat);
        } else {
            lemma_buckets_grow(x as nat, v as nat);
        }
    }
}

/// The rank is reached at one bucket only: the one with fewer values before
/// it and no fewer up to it.
pub proof fn lemma_locate_unique(counts: Seq<u64>, wanted: nat, b: nat)
    requires
        b < counts.len(),
        total(counts, b) < wanted <= total(counts, b + 1),
    ensures
        locate(counts, wanted, 0, 0) == b,
{
    lemma_total_grows(counts, b + 1, counts.len());
    lemma_locate(counts, wanted, 0, 0);
    let found = locate(counts, wanted, 0, 0);
    if found < b {
        lemma_total_grows(counts, found + 1, b);
    } else if found > b {
        lemma_total_grows(counts, b + 1, found);
    }
}

/// The reading at a quantile is the midpoint of the bucket of the value of
/// the quantile's rank: of a value `x` such that fewer values than the rank
/// are less than `x` and no fewer are not greater. The reading is therefore
/// no further from that value than its bucket is wide, which is less than
/// a 128th of the value, and it is the value where that is below 256.
pub proof fn lemma_reading_of_rank(values: Seq<u64>, parts_per_million: nat, x: u64)
    requires
        1 <= values.len() <= u64::MAX,
        less_than(values, x) < rank(values.len(), parts_per_million) <= up_to(values, x),
    ensures
        reading(counts_of(values), parts_per_million) == Some(
            bucket_midpoint(bucket_of(x)) as u64,
        ),
        bucket_low(bucket_of(x)) <= x < bucket_low(bucket_of(x)) + bucket_width(bucket_of(x)),
        bucket_low(bucket_of(x)) <= bucket_midpoint(bucket_of(x)) < bucket_low(bucket_of(x))
            + bucket_width(bucket_of(x)),
        x < 256 ==> bucket_midpoint(bucket_of(x)) == x,
        x >= 256 ==> bucket_width(bucket_of(x)) * 128 <= x,
{
    let counts = counts_of(values);
    let b = bucket_of(x);
    lemma_bucket_holds(x);
    lemma_counts_of(values);
    lemma_total_of(values, BUCKETS as nat);
    lemma_below_ends(values);
    lemma_total_of(values, b);
    lemma_total_of(values, b + 1);
    lemma_counts_compare(values, x);
    let wanted = rank(values.len(), parts_per_million);
    lemma_locate_unique(counts, wanted, b);
}

/// A value of the bucket `b` is among the values, if the bucket counts any.
proof fn lemma_value_of_bucket(values: Seq<u64>, b: int) -> (i: int)
    requires
        in_bucket(values, b) > 0,
    ensures
        0 <= i < values.len(),
        bucket_of(values[i]) == b,
    decreases values.len(),
{
    if bucket_of(values.last()) == b {
        values.len() - 1
    } else {
        let i = lemma_value_of_bucket(values.drop_last(), b);
        assert(values.drop_last()[i] == values[i]);
        i
    }
}

/// A histogram in which values were recorded has a reading at every
/// quantile, and the reading is the midpoint of the bucket of one of the
/// values: it is no further from that value than its bucket is wide, and it
/// is that value where the value is below 256. However the earlier windows
/// went, a reading lies among the values of its own window.
pub proof fn lemma_reading_among_values(values: Seq<u64>, parts_per_million: nat) -> (i: int)
    requires
        1 <= values.len() <= u64::MAX,
    ensures
        0 <= i < values.len(),
        reading(counts_of(values), parts_per_million) == Some(
            bucket_midpoint(bucket_of(values[i])) as u64,
        ),
        bucket_low(bucket_of(values[i])) <= values[i] < bucket_low(bucket_of(values[i]))
            + bucket_width(bucket_of(values[i])),
        bucket_low(bucket_of(values[i])) <= bucket_midpoint(bucket_of(values[i])) < bucket_low(
            bucket_of(values[i]),
        ) + bucket_width(bucket_of(values[i])),
        values[i] < 256 ==> bucket_midpoint(bucket_of(values[i])) == values[i],
        values[i] >= 256 ==> bucket_width(bucket_of(values[i])) * 128 <= values[i],
{
    let counts = counts_of(values);
    lemma_counts_of(values);
    lemma_total_of(values, BUCKETS as nat);
    lemma_below_ends(values);
    let wanted = rank(values.len(), parts_per_million);
    lemma_locate(counts, wanted, 0, 0);
    let b = locate(counts, wanted, 0, 0) as int;
    assert(counts[b] == in_bucket(values, b));
    let i = lemma_value_of_bucket(values, b);
    lemma_bucket_holds(values[i]);
    i
}

/// The bucket after `b` begins where `b` ends, and the midpoint of a bucket
/// fits a latency.
pub proof fn lemma_bucket_adjacent(b: nat)
    requires
        b < BUCKETS,
    ensures
        bucket_low(b + 1) == bucket_low(b) + bucket_width(b),
        bucket_width(b) >= 1,
        bucket_midpoint(b) < bucket_low(b) + bucket_width(b),
        bucket_midpoint(b) <= u64::MAX,
{
    let s = bucket_shift(b);
    let m = bucket_mantissa(b);
    let p = pow2(s);
    vstd::arithmetic::power2::lemma2_to64();
    vstd::arithmetic::power2::lemma2_to64_rest();
    vstd::arithmetic::power2::lemma_pow2_pos(s);
    if b >= 256 {
        assert(b / 128 >= 2 && b / 128 <= 57 && 128 * (b / 128) <= b < 128 * (b / 128) + 128)
            by (nonlinear_arith)
            requires
                256 <= b < 7424,
        ;
    }
    assert(s <= 56);
    assert(m <= 255);
    if s < 56 {
        vstd::arithmetic::power2::lemma_pow2_strictly_increases(s, 56);
    }
    assert(m * p <= 255 * 0x100000000000000) by (nonlinear_arith)
        requires
            0 <= m <= 255,
            0 < p <= 0x100000000000000,
    ;
    if b < 255 {
        assert(bucket_shift(b + 1) == 0);
        assert(b * 1 == b && (b + 1) * 1 == b + 1) by (nonlinear_arith);
    } else if b == 255 {
        assert(bucket_shift(256) == 1) by {
            assert(256nat / 128 == 2) by (nonlinear_arith);
        }
        assert(bucket_mantissa(256) == 128);
        assert(128 * 2 == 256 && 255 * 1 == 255) by (nonlinear_arith);
    } else {
        let q = b / 128;
        if m < 255 {
            assert((b + 1) / 128 == q) by (nonlinear_arith)
                requires
                    128 * q <= b,
                    b + 1 < 128 * q + 128,
                    q == b / 128,
            ;
            assert(bucket_shift(b + 1) == s);
            assert(bucket_mantissa(b + 1) == m + 1);
            assert((m + 1) * p == m * p + p) by (nonlinear_arith);
        } else {
            assert(b + 1 == 128 * (q + 1));
            assert((b + 1) / 128 == q + 1) by (nonlinear_arith)
                requires
                    b + 1 == 128 * (q + 1),
            ;
            assert(bucket_shift(b + 1) == s + 1);
            assert(bucket_mantissa(b + 1) == 128);
            vstd::arithmetic::power2::lemma_pow2_unfold(s + 1);
            assert(128 * (2 * p) == 255 * p + p) by (nonlinear_arith);
        }
    }
}

/// A later bucket has no smaller midpoint.
pub proof fn lemma_midpoints_grow(a: nat, b: nat)
    requires
        a <= b < BUCKETS,
    ensures
        bucket_midpoint(a) <= bucket_midpoint(b),
        bucket_midpoint(b) <= u64::MAX,
    decreases b - a,
{
    lemma_bucket_adjacent(b);
    if a < b {
        lemma_bucket_adjacent(a);
        lemma_midpoints_grow(a + 1, b);
    }
}

/// The rank of a quantile grows with the quantile.
pub proof fn lemma_ranks_grow(n: nat, lower: nat, higher: nat)
    requires
        lower <= higher,
        n >= 1,
    ensures
        1 <= rank(n, lower) <= rank(n, higher) <= n,
{
    assert(lower * n <= higher * n) by (nonlinear_arith)
        requires
            lower <= higher,
    ;
    vstd::arithmetic::div_mod::lemma_div_is_ordered(
        (lower * n + 999_999) as int,
        (higher * n + 999_999) as int,
        1_000_000,
    );
}

/// The readings of a histogram grow with the quantile: the reading at a
/// higher quantile is no smaller.
pub proof fn lemma_readings_grow(counts: Seq<u64>, lower: nat, higher: nat)
    requires
        counts.len() == BUCKETS,
        lower <= higher,
        total(counts, counts.len()) > 0,
    ensures
        reading(counts, lower) is Some,
        reading(counts, higher) is Some,
        reading(counts, lower)->0 <= reading(counts, higher)->0,
{
    let n = total(counts, counts.len());
    lemma_ranks_grow(n, lower, higher);
    let r1 = rank(n, lower);
    let r2 = rank(n, higher);
    lemma_locate(counts, r1, 0, 0);
    lemma_locate(counts, r2, 0, 0);
    let b1 = locate(counts, r1, 0, 0);
    let b2 = locate(counts, r2, 0, 0);
    if b1 > b2 {
        lemma_total_grows(counts, b2 + 1, b1);
    }
    lemma_midpoints_grow(b1, b2);
    lemma_midpoints_grow(b1, b1);
}

} // verus!
