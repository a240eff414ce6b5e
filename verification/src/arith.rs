//! Arithmetic that holds its results within the range of a machine integer,
//! and the integer square root.

use vstd::prelude::*;

verus! {

/// A natural number held at `u64::MAX` once it would pass it.
pub open spec fn capped64(v: int) -> u64 {
    if v > u64::MAX {
        u64::MAX
    } else if v < 0 {
        0
    } else {
        v as u64
    }
}

/// A natural number held at `u128::MAX` once it would pass it.
pub open spec fn capped128(v: int) -> u128 {
    if v > u128::MAX {
        u128::MAX
    } else if v < 0 {
        0
    } else {
        v as u128
    }
}

/// The sum of two numbers, held at `u64::MAX` once it would pass it.
pub open spec fn saturating_sum(a: u64, b: u64) -> u64 {
    capped64(a + b)
}

/// The product of two numbers, held at `u64::MAX` once it would pass it.
pub open spec fn saturating_product(a: u64, b: u64) -> u64 {
    capped64(a * b)
}

/// The product of two numbers, held at `u64::MAX` once it would pass it.
pub fn saturating_mul(a: u64, b: u64) -> (p: u64)
    ensures
        p == saturating_product(a, b),
{
    assert(a * b >= 0) by (nonlinear_arith)
        requires
            a >= 0,
            b >= 0,
    ;
    match a.checked_mul(b) {
        Some(p) => p,
        None => u64::MAX,
    }
}

/// Whether `r` is the integer square root of `v`: the largest number whose
/// square does not pass `v`.
pub open spec fn is_root(r: nat, v: nat) -> bool {
    r * r <= v < (r + 1) * (r + 1)
}

/// The integer square root of `v`.
pub open spec fn root(v: nat) -> nat {
    choose|r: nat| is_root(r, v)
}

/// A number has one integer square root.
pub proof fn lemma_root(r: nat, v: nat)
    requires
        is_root(r, v),
    ensures
        root(v) == r,
{
    let s = root(v);
    assert(is_root(s, v));
    if s < r {
        assert((s + 1) * (s + 1) <= r * r) by (nonlinear_arith)
            requires
                s + 1 <= r,
        ;
    } else if r < s {
        assert((r + 1) * (r + 1) <= s * s) by (nonlinear_arith)
            requires
                r + 1 <= s,
        ;
    }
}

/// Every number has an integer square root.
pub proof fn lemma_root_exists(v: nat)
    ensures
        is_root(root(v), v),
    decreases v,
{
    if v == 0 {
        assert(is_root(0, 0)) by {
            assert(0nat * 0nat == 0 && (0nat + 1) * (0nat + 1) == 1) by (nonlinear_arith);
        }
    } else {
        lemma_root_exists((v - 1) as nat);
        let r = root((v - 1) as nat);
        if v < (r + 1) * (r + 1) {
            assert(is_root(r, v));
        } else {
            assert(v == (r + 1) * (r + 1));
            assert((r + 1) * (r + 1) < (r + 2) * (r + 2)) by (nonlinear_arith);
            assert(is_root(r + 1, v));
        }
    }
}

/// The integer square root of `v`.
pub fn isqrt(v: u128) -> (r: u64)
    ensures
        is_root(r as nat, v as nat),
        r == root(v as nat),
{
    let mut lo: u128 = 0;
    let mut hi: u128 = 0x1_0000_0000_0000_0000;
    assert(0x1_0000_0000_0000_0000int * 0x1_0000_0000_0000_0000int > u128::MAX) by (nonlinear_arith);
    while hi - lo > 1
        invariant
            lo < hi <= 0x1_0000_0000_0000_0000,
            lo * lo <= v,
            v < hi * hi,
        decreases hi - lo,
    {
        let mid = lo + (hi - lo) / 2;
        assert(mid * mid <= 0xffff_ffff_ffff_ffff * 0xffff_ffff_ffff_ffff) by (nonlinear_arith)
            requires
                0 <= mid <= 0xffff_ffff_ffff_ffff,
        ;
        if mid * mid <= v {
            lo = mid;
        } else {
            hi = mid;
        }
    }
    proof {
        assert(hi == lo + 1);
        assert(is_root(lo as nat, v as nat));
        lemma_root(lo as nat, v as nat);
    }
    lo as u64
}

/// The sum of two numbers, held at `u128::MAX` once it would pass it.
pub fn saturating_add128(a: u128, b: u128) -> (s: u128)
    ensures
        s == capped128(a + b),
{
    match a.checked_add(b) {
        Some(s) => s,
        None => u128::MAX,
    }
}

/// The square of the distance of `d` from zero, held at `u128::MAX` once it
/// would pass it.
pub fn saturating_square(d: i128) -> (s: u128)
    ensures
        s == capped128(d * d),
{
    if d == i128::MIN {
        assert(d * d > u128::MAX) by (nonlinear_arith)
            requires
                d == -0x8000_0000_0000_0000_0000_0000_0000_0000,
        ;
        return u128::MAX;
    }
    let m: u128 = if d < 0 {
        (-d) as u128
    } else {
        d as u128
    };
    assert(m * m == d * d) by (nonlinear_arith)
        requires
            m == d || m == -d,
    ;
    match m.checked_mul(m) {
        Some(s) => s,
        None => u128::MAX,
    }
}

} // verus!
