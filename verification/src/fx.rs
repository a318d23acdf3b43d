//! Fixed-point scalars.
//!
//! A scalar holds a real value times `SCALE` in an `i128`, so `SCALE` itself
//! is the number one.  Multiplication and division rescale their result and
//! truncate toward zero; the square root is the floor square root on the
//! grid.  Each executable operation is proved to return exactly the value of
//! its specification twin (`fx_mul_s`, `fx_div_s`, `fx_sqrt_s`), so every
//! computation built from these operations is a pure function of its inputs.

use vstd::prelude::*;

verus! {

use vstd::arithmetic::div_mod::lemma_fundamental_div_mod;
use vstd::arithmetic::div_mod::lemma_div_is_ordered;
use vstd::arithmetic::div_mod::lemma_div_pos_is_pos;
use vstd::arithmetic::div_mod::lemma_div_nonincreasing;
use vstd::arithmetic::mul::lemma_mul_upper_bound;
use vstd::arithmetic::mul::lemma_mul_inequality;

/// One, on the fixed-point grid: a scalar `v` stands for the real `v / SCALE`.
pub const SCALE: i128 = 10_000;

/// Largest operand magnitude `fx_mul` accepts.
pub const MUL_IN_MAX: i128 = 100_000_000_000_000_000_000_000_000_000_000_000;

/// Largest operand-product magnitude `fx_mul` accepts.
pub const MUL_PROD_MAX: i128 = 10_000_000_000_000_000_000_000_000_000_000_000_000;

/// Largest numerator magnitude `fx_div` accepts.
pub const DIV_NUM_MAX: i128 = 10_000_000_000_000_000_000_000_000_000_000_000;

/// Largest argument `fx_sqrt` accepts.
pub const SQRT_ARG_MAX: i128 = 10_000_000_000_000_000_000_000_000_000_000_000;

/// Magnitude of an integer.
pub open spec fn iabs(a: int) -> int {
    if a < 0 {
        -a
    } else {
        a
    }
}

/// The floor of the square root of `n` (meaningful for `n >= 0`).
pub open spec fn sqrt_floor(n: int) -> int {
    choose|r: int| 0 <= r && #[trigger] (r * r) <= n && n < (r + 1) * (r + 1)
}

/// Fixed-point product, truncated toward zero.
pub open spec fn fx_mul_s(a: int, b: int) -> int {
    let p = (iabs(a) * iabs(b)) / (SCALE as int);
    if (a < 0) != (b < 0) {
        -p
    } else {
        p
    }
}

/// Fixed-point quotient for a positive divisor, truncated toward zero.
pub open spec fn fx_div_s(a: int, b: int) -> int {
    let q = (iabs(a) * (SCALE as int)) / b;
    if a < 0 {
        -q
    } else {
        q
    }
}

/// Fixed-point square root: the grid point just below the real root.
pub open spec fn fx_sqrt_s(a: int) -> int {
    sqrt_floor(a * (SCALE as int))
}

/// The floor square root is the unique integer whose square brackets `n`.
pub proof fn lemma_sqrt_floor_unique(n: int, r: int)
    requires
        0 <= r,
        r * r <= n,
        n < (r + 1) * (r + 1),
    ensures
        sqrt_floor(n) == r,
{
    assert(0 <= r && r * r <= n && n < (r + 1) * (r + 1));
    let c = sqrt_floor(n);
    assert(0 <= c && c * c <= n && n < (c + 1) * (c + 1));
    if c < r {
        lemma_mul_upper_bound(c + 1, r, c + 1, r);
        assert(n < (c + 1) * (c + 1));
        assert(r * r <= n);
        assert(false);
    }
    if r < c {
        lemma_mul_upper_bound(r + 1, c, r + 1, c);
        assert(n < (r + 1) * (r + 1));
        assert(c * c <= n);
        assert(false);
    }
}

/// The truncated product is no larger in magnitude than the exact product.
pub proof fn lemma_fx_mul_mag(a: int, b: int)
    ensures
        iabs(fx_mul_s(a, b)) * (SCALE as int) <= iabs(a) * iabs(b),
        iabs(fx_mul_s(a, b)) <= (iabs(a) * iabs(b)) / (SCALE as int),
{
    let p = (iabs(a) * iabs(b)) / (SCALE as int);
    vstd::arithmetic::mul::lemma_mul_nonnegative(iabs(a), iabs(b));
    lemma_div_pos_is_pos(iabs(a) * iabs(b), SCALE as int);
    lemma_fundamental_div_mod(iabs(a) * iabs(b), SCALE as int);
    assert(iabs(fx_mul_s(a, b)) == p);
}

/// A magnitude bound for the truncated product from bounds on the operands.
pub proof fn lemma_fx_mul_bound(a: int, b: int, ma: int, mb: int)
    requires
        iabs(a) <= ma,
        iabs(b) <= mb,
    ensures
        iabs(fx_mul_s(a, b)) * (SCALE as int) <= ma * mb,
{
    lemma_fx_mul_mag(a, b);
    lemma_mul_upper_bound(iabs(a), ma, iabs(b), mb);
}

/// The truncated quotient is no larger in magnitude than the scaled numerator.
pub proof fn lemma_fx_div_mag(a: int, b: int)
    requires
        1 <= b,
    ensures
        iabs(fx_div_s(a, b)) <= iabs(a) * (SCALE as int),
        iabs(fx_div_s(a, b)) * b <= iabs(a) * (SCALE as int),
{
    let x = iabs(a) * (SCALE as int);
    vstd::arithmetic::mul::lemma_mul_nonnegative(iabs(a), SCALE as int);
    lemma_div_pos_is_pos(x, b);
    lemma_div_nonincreasing(x, b);
    lemma_fundamental_div_mod(x, b);
    lemma_mul_inequality(1, b, x / b);
    assert(iabs(fx_div_s(a, b)) == x / b);
}

/// Floor square root by binary search over the answer.
fn isqrt(n: u128) -> (r: u128)
    ensures
        (r as int) * (r as int) <= n as int,
        (n as int) < (r as int + 1) * (r as int + 1),
        r < 0x1_0000_0000_0000_0000,
{
    let mut lo: u128 = 0;
    let mut hi: u128 = 0x1_0000_0000_0000_0000;
    proof {
        assert((0x1_0000_0000_0000_0000 as int) * (0x1_0000_0000_0000_0000 as int) > u128::MAX as int)
            by (nonlinear_arith);
    }
    while hi - lo > 1
        invariant
            lo < hi,
            hi <= 0x1_0000_0000_0000_0000,
            (lo as int) * (lo as int) <= n as int,
            (n as int) < (hi as int) * (hi as int),
        decreases hi - lo,
    {
        let mid: u128 = lo + (hi - lo) / 2;
        proof {
            lemma_mul_upper_bound(mid as int, 0xffff_ffff_ffff_ffff as int, mid as int, 0xffff_ffff_ffff_ffff as int);
            assert((0xffff_ffff_ffff_ffff as int) * (0xffff_ffff_ffff_ffff as int) <= u128::MAX as int) by (nonlinear_arith);
        }
        if mid * mid <= n {
            lo = mid;
        } else {
            hi = mid;
        }
    }
    lo
}

/// Fixed-point multiplication; exact per `fx_mul_s`.
pub fn fx_mul(a: i128, b: i128) -> (r: i128)
    requires
        iabs(a as int) <= MUL_IN_MAX as int,
        iabs(b as int) <= MUL_IN_MAX as int,
        iabs(a as int) * iabs(b as int) <= MUL_PROD_MAX as int,
    ensures
        r == fx_mul_s(a as int, b as int),
{
    let ua: u128 = if a < 0 {
        (-a) as u128
    } else {
        a as u128
    };
    let ub: u128 = if b < 0 {
        (-b) as u128
    } else {
        b as u128
    };
    proof {
        assert(ua as int == iabs(a as int));
        assert(ub as int == iabs(b as int));
    }
    let p: u128 = ua * ub;
    let q: u128 = p / (SCALE as u128);
    proof {
        lemma_div_is_ordered(p as int, MUL_PROD_MAX as int, SCALE as int);
        lemma_div_pos_is_pos(p as int, SCALE as int);
    }
    if (a < 0) != (b < 0) {
        -(q as i128)
    } else {
        q as i128
    }
}

/// Fixed-point division by a positive divisor; exact per `fx_div_s`.
pub fn fx_div(a: i128, b: i128) -> (r: i128)
    requires
        iabs(a as int) <= DIV_NUM_MAX as int,
        0 < b,
    ensures
        r == fx_div_s(a as int, b as int),
{
    let ua: u128 = if a < 0 {
        (-a) as u128
    } else {
        a as u128
    };
    proof {
        assert(ua as int == iabs(a as int));
        lemma_mul_inequality(ua as int, DIV_NUM_MAX as int, SCALE as int);
    }
    let num: u128 = ua * (SCALE as u128);
    let q: u128 = num / (b as u128);
    proof {
        lemma_div_nonincreasing(num as int, b as int);
        lemma_div_pos_is_pos(num as int, b as int);
    }
    if a < 0 {
        -(q as i128)
    } else {
        q as i128
    }
}

/// Fixed-point square root of a non-negative scalar; exact per `fx_sqrt_s`.
pub fn fx_sqrt(a: i128) -> (r: i128)
    requires
        0 <= a,
        a <= SQRT_ARG_MAX as int,
    ensures
        r == fx_sqrt_s(a as int),
        0 <= r,
        (r as int) * (r as int) <= (a as int) * (SCALE as int),
        (a as int) * (SCALE as int) < (r as int + 1) * (r as int + 1),
{
    proof {
        lemma_mul_inequality(a as int, SQRT_ARG_MAX as int, SCALE as int);
    }
    let n: u128 = (a as u128) * (SCALE as u128);
    let s: u128 = isqrt(n);
    proof {
        lemma_sqrt_floor_unique((a as int) * (SCALE as int), s as int);
    }
    s as i128
}

} // verus!
