//! Square roots of integers, rounded to an integer.

use integer_sqrt::IntegerSquareRoot;
use vstd::prelude::*;

verus! {

/// Whether `r` is the square root of `n` rounded down: `r <= sqrt(n) < r + 1`.
pub open spec fn is_floor_sqrt(r: nat, n: nat) -> bool {
    r * r <= n < (r + 1) * (r + 1)
}

/// Whether `r` is the integer nearest to the square root of `n`, half-way
/// cases going up: `r - 1/2 <= sqrt(n) < r + 1/2`, with both sides doubled
/// and squared.
pub open spec fn is_nearest_sqrt(r: nat, n: nat) -> bool {
    &&& 4 * n < (2 * r + 1) * (2 * r + 1)
    &&& r > 0 ==> (2 * r - 1) * (2 * r - 1) <= 4 * n
}

/// The integer nearest to the square root of `n`.
pub open spec fn nearest_sqrt(n: nat) -> nat {
    choose|r: nat| is_nearest_sqrt(r, n)
}

/// No two integers are both nearest to the same square root.
pub proof fn lemma_nearest_sqrt_unique(r1: nat, r2: nat, n: nat)
    requires
        is_nearest_sqrt(r1, n),
        is_nearest_sqrt(r2, n),
    ensures
        r1 == r2,
{
    if r1 < r2 {
        assert((2 * r1 + 1) * (2 * r1 + 1) <= (2 * r2 - 1) * (2 * r2 - 1)) by (nonlinear_arith)
            requires
                r1 + 1 <= r2,
        ;
    } else if r2 < r1 {
        assert((2 * r2 + 1) * (2 * r2 + 1) <= (2 * r1 - 1) * (2 * r1 - 1)) by (nonlinear_arith)
            requires
                r2 + 1 <= r1,
        ;
    }
}

/// A square root rounded down is either the nearest integer itself or one
/// below it, according to how far `n` lies above its square.
pub proof fn lemma_nearest_from_floor(s: nat, n: nat)
    requires
        is_floor_sqrt(s, n),
    ensures
        n - s * s <= s ==> is_nearest_sqrt(s, n),
        n - s * s > s ==> is_nearest_sqrt(s + 1, n),
{
    assert((2 * s + 1) * (2 * s + 1) == 4 * (s * s) + 4 * s + 1) by (nonlinear_arith);
    assert((2 * s - 1) * (2 * s - 1) == 4 * (s * s) - 4 * s + 1) by (nonlinear_arith);
    assert((2 * (s + 1) + 1) * (2 * (s + 1) + 1) == 4 * (s * s) + 12 * s + 9)
        by (nonlinear_arith);
    assert((2 * (s + 1) - 1) * (2 * (s + 1) - 1) == 4 * (s * s) + 4 * s + 1) by (nonlinear_arith);
    assert((s + 1) * (s + 1) == s * s + 2 * s + 1) by (nonlinear_arith);
}

/// An integer that is nearest to the square root of `n` is `nearest_sqrt(n)`.
pub proof fn lemma_nearest_sqrt(r: nat, n: nat)
    requires
        is_nearest_sqrt(r, n),
    ensures
        nearest_sqrt(n) == r,
{
    lemma_nearest_sqrt_unique(r, nearest_sqrt(n), n);
}

/// Every natural number has a square root rounded down.
pub proof fn lemma_floor_sqrt_exists(n: nat) -> (s: nat)
    ensures
        is_floor_sqrt(s, n),
    decreases n,
{
    if n == 0 {
        assert(is_floor_sqrt(0, 0)) by (nonlinear_arith);
        0
    } else {
        let s = lemma_floor_sqrt_exists((n - 1) as nat);
        if (s + 1) * (s + 1) <= n {
            assert(is_floor_sqrt(s + 1, n)) by (nonlinear_arith)
                requires
                    n - 1 < (s + 1) * (s + 1),
                    (s + 1) * (s + 1) <= n,
            ;
            s + 1
        } else {
            assert(is_floor_sqrt(s, n)) by (nonlinear_arith)
                requires
                    s * s <= n - 1,
                    n < (s + 1) * (s + 1),
            ;
            s
        }
    }
}

/// `nearest_sqrt(n)` is the integer nearest to the square root of `n`.
pub proof fn lemma_nearest_sqrt_is_nearest(n: nat)
    ensures
        is_nearest_sqrt(nearest_sqrt(n), n),
{
    let s = lemma_floor_sqrt_exists(n);
    lemma_nearest_from_floor(s, n);
    if n - s * s <= s {
        lemma_nearest_sqrt(s, n);
    } else {
        lemma_nearest_sqrt(s + 1, n);
    }
}

/// Calls `integer_sqrt::IntegerSquareRoot::integer_sqrt` on a `u128`. The crate
/// documents the result as the integer square root of its argument: the
/// greatest integer whose square does not exceed it. It does not panic on an
/// unsigned argument.
#[verifier::external_body]
fn integer_sqrt(n: u128) -> (r: u128)
    ensures
        is_floor_sqrt(r as nat, n as nat),
{
    n.integer_sqrt()
}

/// The integer nearest to the square root of `n`.
pub fn rounded_sqrt(n: u128) -> (r: u128)
    ensures
        is_nearest_sqrt(r as nat, n as nat),
        r == nearest_sqrt(n as nat),
{
    let s: u128 = integer_sqrt(n);
    proof {
        lemma_nearest_from_floor(s as nat, n as nat);
        assert(s < 0x1_0000_0000_0000_0000) by (nonlinear_arith)
            requires
                s * s <= n,
                n < 0x1_0000_0000_0000_0000_0000_0000_0000_0000,
        ;
    }
    let r: u128 = if n - s * s <= s {
        s
    } else {
        s + 1
    };
    proof {
        lemma_nearest_sqrt(r as nat, n as nat);
    }
    r
}

} // verus!
