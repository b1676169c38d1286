//! Exact integer arithmetic shared by the simulation: integer square roots,
//! flooring division and saturation into 32-bit coordinates.

use vstd::prelude::*;
use vstd::arithmetic::div_mod::lemma_fundamental_div_mod_converse;
use vstd::arithmetic::div_mod::lemma_fundamental_div_mod;

verus! {

/// Whether `r` is the largest number whose square does not exceed `n`.
pub open spec fn is_int_sqrt(n: nat, r: nat) -> bool {
    r * r <= n && n < (r + 1) * (r + 1)
}

/// The integer square root of `n`: the one `r` with `r * r <= n < (r + 1) * (r + 1)`.
pub open spec fn int_sqrt(n: nat) -> nat {
    choose|r: nat| is_int_sqrt(n, r)
}

/// A number whose square is at most `n`, while the next square exceeds `n`,
/// is the integer square root of `n`.
pub proof fn lemma_int_sqrt_unique(n: nat, r: nat)
    requires
        r * r <= n,
        n < (r + 1) * (r + 1),
    ensures
        int_sqrt(n) == r,
{
    assert(is_int_sqrt(n, r));
    let s = int_sqrt(n);
    assert(is_int_sqrt(n, s));
    if s < r {
        assert((s + 1) * (s + 1) <= r * r) by (nonlinear_arith)
            requires
                s + 1 <= r,
        ;
    }
    if r < s {
        assert((r + 1) * (r + 1) <= s * s) by (nonlinear_arith)
            requires
                r + 1 <= s,
        ;
    }
}

/// The integer square root is monotonic.
pub proof fn lemma_int_sqrt_bounded(n: nat, bound: nat)
    requires
        n <= bound * bound,
    ensures
        int_sqrt(n) <= bound,
{
    lemma_int_sqrt_exists(n);
    let s = int_sqrt(n);
    if s > bound {
        assert((bound + 1) * (bound + 1) <= s * s) by (nonlinear_arith)
            requires
                bound + 1 <= s,
        ;
        assert(bound * bound < (bound + 1) * (bound + 1)) by (nonlinear_arith);
    }
}

/// Every natural number has an integer square root.
pub proof fn lemma_int_sqrt_exists(n: nat)
    ensures
        int_sqrt(n) * int_sqrt(n) <= n,
        n < (int_sqrt(n) + 1) * (int_sqrt(n) + 1),
    decreases n,
{
    if n == 0 {
        assert(0nat * 0nat == 0 && (0nat + 1) * (0nat + 1) == 1) by (nonlinear_arith);
        assert(is_int_sqrt(n, 0));
    } else {
        lemma_int_sqrt_exists((n - 1) as nat);
        let p = int_sqrt((n - 1) as nat);
        if (p + 1) * (p + 1) <= n {
            let q: nat = p + 1;
            assert(n < (q + 1) * (q + 1)) by (nonlinear_arith)
                requires
                    n - 1 < (p + 1) * (p + 1),
                    q == p + 1,
            ;
            assert(is_int_sqrt(n, q));
        } else {
            assert(is_int_sqrt(n, p));
        }
    }
}

/// Computes the integer square root by bisection.
pub fn isqrt(n: u128) -> (r: u64)
    ensures
        r as nat == int_sqrt(n as nat),
        r * r <= n < (r + 1) * (r + 1),
{
    let mut lo: u128 = 0;
    let mut hi: u128 = 0x1_0000_0000_0000_0000;
    while hi - lo > 1
        invariant
            lo < hi <= 0x1_0000_0000_0000_0000,
            lo * lo <= n,
            n < hi * hi,
        decreases hi - lo,
    {
        let mid: u128 = lo + (hi - lo) / 2;
        assert(mid * mid <= u128::MAX) by (nonlinear_arith)
            requires
                mid < 0x1_0000_0000_0000_0000,
        ;
        if mid * mid <= n {
            lo = mid;
        } else {
            hi = mid;
        }
    }
    proof {
        lemma_int_sqrt_unique(n as nat, lo as nat);
    }
    lo as u64
}

/// Division rounded toward zero, as the hardware divides.
pub open spec fn trunc_div(a: int, b: int) -> int {
    if a >= 0 {
        a / b
    } else {
        -((-a) / b)
    }
}

/// Division rounded toward negative infinity, for a positive divisor.
/// The contract speaks of the mathematical quotient `a / b`, which rounds down.
pub fn floor_div(a: i128, b: i128) -> (q: i128)
    requires
        b > 0,
    ensures
        q == a as int / b as int,
{
    let t: i128 = a / b;
    let r: i128 = a % b;
    if r < 0 {
        proof {
            let pos: int = -(a as int);
            let quot: int = pos / (b as int);
            let rest: int = pos % (b as int);
            lemma_fundamental_div_mod(pos, b as int);
            assert(quot >= 0) by (nonlinear_arith)
                requires
                    pos == (b as int) * quot + rest,
                    0 <= rest < b,
                    pos >= 0,
                    b > 0,
            ;
            assert(2 * quot <= pos) by (nonlinear_arith)
                requires
                    pos == (b as int) * quot + rest,
                    0 <= rest,
                    quot >= 0,
                    b >= 2,
            ;
            assert((a as int) == (b as int) * (-quot - 1) + (b - rest)) by (nonlinear_arith)
                requires
                    -(a as int) == (b as int) * quot + rest,
            ;
            lemma_fundamental_div_mod_converse(a as int, b as int, -quot - 1, b - rest);
        }
        t - 1
    } else {
        proof {
            if a < 0 {
                let pos: int = -(a as int);
                let quot: int = pos / (b as int);
                lemma_fundamental_div_mod(pos, b as int);
                assert((a as int) == (b as int) * (-quot) + 0) by (nonlinear_arith)
                    requires
                        -(a as int) == (b as int) * quot,
                ;
                lemma_fundamental_div_mod_converse(a as int, b as int, -quot, 0);
            }
        }
        t
    }
}

/// The nearest value to `v` that a 32-bit signed coordinate can hold.
pub open spec fn clamp_i32(v: int) -> int {
    if v < i32::MIN {
        i32::MIN as int
    } else if v > i32::MAX {
        i32::MAX as int
    } else {
        v
    }
}

/// Saturates a wide intermediate result into a 32-bit coordinate.
pub fn saturate_i32(v: i128) -> (r: i32)
    ensures
        r == clamp_i32(v as int),
{
    if v < -2147483648 {
        -2147483648
    } else if v > 2147483647 {
        2147483647
    } else {
        v as i32
    }
}

/// The nearest value to `v` that a 64-bit signed number can hold.
pub open spec fn clamp_i64(v: int) -> int {
    if v < i64::MIN {
        i64::MIN as int
    } else if v > i64::MAX {
        i64::MAX as int
    } else {
        v
    }
}

/// Saturates a wide intermediate result into 64 bits.
pub fn saturate_i64(v: i128) -> (r: i64)
    ensures
        r == clamp_i64(v as int),
{
    if v < -9_223_372_036_854_775_808 {
        -9_223_372_036_854_775_808
    } else if v > 9_223_372_036_854_775_807 {
        9_223_372_036_854_775_807
    } else {
        v as i64
    }
}

} // verus!
