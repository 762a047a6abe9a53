//! Integer square roots, rounded down.

use vstd::prelude::*;

verus! {

/// `r` is the square root of `n`, rounded down.
pub open spec fn is_floor_sqrt(n: nat, r: nat) -> bool {
    r * r <= n < (r + 1) * (r + 1)
}

/// The square root of `n`, rounded down.
pub open spec fn floor_sqrt(n: nat) -> nat {
    choose|r: nat| is_floor_sqrt(n, r)
}

/// Squaring keeps the order of natural numbers.
pub proof fn lemma_square_monotonic(a: nat, b: nat)
    requires
        a <= b,
    ensures
        a * a <= b * b,
{
    assert(a * a <= b * b) by (nonlinear_arith)
        requires
            a <= b,
    ;
}

/// Every natural number has a rounded-down square root.
pub proof fn lemma_floor_sqrt_exists(n: nat)
    ensures
        exists|r: nat| is_floor_sqrt(n, r),
    decreases n,
{
    if n == 0 {
        assert(0nat * 0nat <= 0 < (0nat + 1) * (0nat + 1)) by (nonlinear_arith);
        assert(is_floor_sqrt(0, 0));
    } else {
        let m: nat = (n - 1) as nat;
        lemma_floor_sqrt_exists(m);
        let r: nat = choose|r: nat| is_floor_sqrt(m, r);
        if (r + 1) * (r + 1) <= n {
            assert((r + 1) * (r + 1) < (r + 2) * (r + 2)) by (nonlinear_arith);
            assert(is_floor_sqrt(n, r + 1));
        } else {
            assert(is_floor_sqrt(n, r));
        }
    }
}

/// A natural number has only one rounded-down square root.
pub proof fn lemma_floor_sqrt_unique(n: nat, r1: nat, r2: nat)
    requires
        is_floor_sqrt(n, r1),
        is_floor_sqrt(n, r2),
    ensures
        r1 == r2,
{
    if r1 < r2 {
        lemma_square_monotonic(r1 + 1, r2);
    } else if r2 < r1 {
        lemma_square_monotonic(r2 + 1, r1);
    }
}

/// `floor_sqrt(n)` is the rounded-down square root of `n`, and nothing else is.
pub proof fn lemma_floor_sqrt(n: nat)
    ensures
        is_floor_sqrt(n, floor_sqrt(n)),
        forall|r: nat| is_floor_sqrt(n, r) ==> r == floor_sqrt(n),
{
    lemma_floor_sqrt_exists(n);
    assert forall|r: nat| is_floor_sqrt(n, r) implies r == floor_sqrt(n) by {
        lemma_floor_sqrt_unique(n, r, floor_sqrt(n));
    }
}

/// The rounded-down square root never decreases when its argument grows.
pub proof fn lemma_floor_sqrt_monotonic(a: nat, b: nat)
    requires
        a <= b,
    ensures
        floor_sqrt(a) <= floor_sqrt(b),
{
    lemma_floor_sqrt(a);
    lemma_floor_sqrt(b);
    let ra: nat = floor_sqrt(a);
    let rb: nat = floor_sqrt(b);
    if rb < ra {
        lemma_square_monotonic(rb + 1, ra);
    }
}

/// The rounded-down square root of a perfect square is its base.
pub proof fn lemma_floor_sqrt_of_square(r: nat)
    ensures
        floor_sqrt(r * r) == r,
{
    assert(r * r < (r + 1) * (r + 1)) by (nonlinear_arith);
    assert(is_floor_sqrt(r * r, r));
    lemma_floor_sqrt(r * r);
}

/// Computes the square root of `n`, rounded down, by bisection.
pub fn isqrt(n: u128) -> (r: u64)
    ensures
        r as nat == floor_sqrt(n as nat),
{
    let mut lo: u128 = 0;
    let mut hi: u128 = 0x1_0000_0000_0000_0000;
    assert(n < hi * hi) by (nonlinear_arith)
        requires
            hi == 0x1_0000_0000_0000_0000,
            n <= u128::MAX,
    ;
    while hi - lo > 1
        invariant
            lo < hi <= 0x1_0000_0000_0000_0000,
            lo * lo <= n < hi * hi,
        decreases hi - lo,
    {
        let mid: u128 = lo + (hi - lo) / 2;
        assert(mid * mid <= u128::MAX) by (nonlinear_arith)
            requires
                mid < 0x1_0000_0000_0000_0000,
        ;
        if mid * mid <= n {
            lo = mid;
        } else {
            hi = mid;
        }
    }
    proof {
        assert(hi == lo + 1);
        assert(is_floor_sqrt(n as nat, lo as nat));
        lemma_floor_sqrt(n as nat);
    }
    lo as u64
}

} // verus!
