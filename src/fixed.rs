//! Fixed-point arithmetic: lengths, velocities, strengths and fractions are
//! integers counted in thousandths of a unit.
use vstd::arithmetic::div_mod::{
    lemma_div_by_multiple, lemma_div_decreases, lemma_div_is_ordered, lemma_div_pos_is_pos,
};
use vstd::prelude::*;

verus! {

/// Number of fixed-point steps in one unit (so `500` stands for one half).
pub const SCALE: i64 = 1000;

/// Largest magnitude of a coordinate; positions saturate here.
pub const POS_LIMIT: i64 = 1_000_000_000_000;

/// Largest magnitude of a velocity component; velocities saturate here.
pub const VEL_LIMIT: i64 = 1_000_000_000_000;

/// Largest magnitude of a rule strength.
pub const MAX_STRENGTH: i64 = 1_000_000_000;

/// Largest interaction radius of a rule.
pub const MAX_RADIUS: i64 = 1_000_000_000_000;

/// Largest boundary impulse.
pub const MAX_IMPULSE: i64 = 1_000_000_000_000;

/// Integer division rounded toward zero, as Rust's `/` on signed integers does,
/// for a positive divisor.
pub open spec fn div_trunc(a: int, b: int) -> int {
    if a >= 0 {
        a / b
    } else {
        -((-a) / b)
    }
}

/// `a` saturated into `[-limit, limit]`.
pub open spec fn clamp(a: int, limit: int) -> int {
    if a > limit {
        limit
    } else if a < -limit {
        -limit
    } else {
        a
    }
}

pub open spec fn abs(a: int) -> int {
    if a < 0 {
        -a
    } else {
        a
    }
}

/// `r` is the square root of `n` rounded down.
pub open spec fn is_floor_sqrt(n: int, r: int) -> bool {
    0 <= r && r * r <= n && n < (r + 1) * (r + 1)
}

/// The square root of `n` rounded down, counted up one step at a time.
pub open spec fn floor_sqrt(n: nat) -> nat
    decreases n,
{
    if n == 0 {
        0
    } else {
        let r = floor_sqrt((n - 1) as nat);
        if (r + 1) * (r + 1) <= n {
            (r + 1) as nat
        } else {
            r
        }
    }
}

pub proof fn lemma_floor_sqrt(n: nat)
    ensures
        is_floor_sqrt(n as int, floor_sqrt(n) as int),
    decreases n,
{
    if n > 0 {
        lemma_floor_sqrt((n - 1) as nat);
        let r = floor_sqrt((n - 1) as nat) as int;
        if (r + 1) * (r + 1) <= n {
            assert((r + 1) * (r + 1) == n) by (nonlinear_arith)
                requires
                    (r + 1) * (r + 1) <= n,
                    n - 1 < (r + 1) * (r + 1),
            ;
            assert(n < (r + 2) * (r + 2)) by (nonlinear_arith)
                requires
                    (r + 1) * (r + 1) == n,
                    0 <= r,
            ;
        }
    }
}

pub proof fn lemma_floor_sqrt_unique(n: int, r: int, s: int)
    requires
        is_floor_sqrt(n, r),
        is_floor_sqrt(n, s),
    ensures
        r == s,
{
    if r < s {
        assert((r + 1) * (r + 1) <= s * s) by (nonlinear_arith)
            requires
                0 <= r + 1 <= s,
        ;
    } else if s < r {
        assert((s + 1) * (s + 1) <= r * r) by (nonlinear_arith)
            requires
                0 <= s + 1 <= r,
        ;
    }
}

/// A coordinate difference is never longer than the (rounded-down) distance.
pub proof fn lemma_leg_within_floor_sqrt(dx: int, dy: int)
    ensures
        abs(dx) <= floor_sqrt((dx * dx + dy * dy) as nat),
        abs(dy) <= floor_sqrt((dx * dx + dy * dy) as nat),
{
    assert(dx * dx + dy * dy >= 0) by (nonlinear_arith);
    let n = (dx * dx + dy * dy) as nat;
    lemma_floor_sqrt(n);
    let r = floor_sqrt(n) as int;
    assert(abs(dx) <= r) by (nonlinear_arith)
        requires
            n == dx * dx + dy * dy,
            n < (r + 1) * (r + 1),
            0 <= r,
    {
        if abs(dx) > r {
            assert(abs(dx) * abs(dx) >= (r + 1) * (r + 1));
            assert(abs(dx) * abs(dx) == dx * dx);
            assert(dy * dy >= 0);
        }
    }
    assert(abs(dy) <= r) by (nonlinear_arith)
        requires
            n == dx * dx + dy * dy,
            n < (r + 1) * (r + 1),
            0 <= r,
    {
        if abs(dy) > r {
            assert(abs(dy) * abs(dy) >= (r + 1) * (r + 1));
            assert(abs(dy) * abs(dy) == dy * dy);
            assert(dx * dx >= 0);
        }
    }
}

/// Dividing toward zero by `b` keeps a quotient that is at most `m` when the
/// dividend is at most `m * b`.
pub proof fn lemma_div_trunc_bound(a: int, b: int, m: int)
    requires
        b > 0,
        m >= 0,
        abs(a) <= m * b,
    ensures
        abs(div_trunc(a, b)) <= m,
{
    lemma_div_by_multiple(m, b);
    if a >= 0 {
        lemma_div_is_ordered(a, m * b, b);
        lemma_div_pos_is_pos(a, b);
    } else {
        lemma_div_is_ordered(-a, m * b, b);
        lemma_div_pos_is_pos(-a, b);
    }
}

/// Dividing toward zero by a positive divisor never grows the magnitude.
pub proof fn lemma_div_trunc_shrinks(a: int, b: int)
    requires
        b > 0,
    ensures
        abs(div_trunc(a, b)) <= abs(a),
        a >= 0 ==> div_trunc(a, b) >= 0,
        a <= 0 ==> div_trunc(a, b) <= 0,
{
    if a >= 0 {
        lemma_div_pos_is_pos(a, b);
        if a > 0 && b > 1 {
            lemma_div_decreases(a, b);
        }
        if b == 1 {
            assert(a / 1 == a);
        }
    } else {
        lemma_div_pos_is_pos(-a, b);
        if b > 1 {
            lemma_div_decreases(-a, b);
        }
        if b == 1 {
            assert((-a) / 1 == -a);
        }
    }
}

/// Division rounded toward zero of a value that is not `i128::MIN`.
pub fn div_toward_zero(a: i128, b: i128) -> (r: i128)
    requires
        b > 0,
        a > i128::MIN,
    ensures
        r == div_trunc(a as int, b as int),
{
    if a >= 0 {
        a / b
    } else {
        let n: i128 = -a;
        proof {
            lemma_div_pos_is_pos(n as int, b as int);
            lemma_div_trunc_shrinks(a as int, b as int);
        }
        -(n / b)
    }
}

/// `a` saturated into `[-limit, limit]`.
pub fn saturate(a: i128, limit: i64) -> (r: i64)
    requires
        limit >= 0,
    ensures
        r == clamp(a as int, limit as int),
{
    if a > limit as i128 {
        limit
    } else if a < -(limit as i128) {
        -limit
    } else {
        a as i64
    }
}

/// The square root of `n` rounded down, searched for between two bounds.
pub fn floor_sqrt_between(n: u128, low: u128, high: u128) -> (r: u128)
    requires
        low < high,
        high <= 0x10_0000_0000_0000,
        low * low <= n,
        n < high * high,
    ensures
        r == floor_sqrt(n as nat),
        low <= r < high,
{
    let mut lo: u128 = low;
    let mut hi: u128 = high;
    while lo + 1 < hi
        invariant
            low <= lo < hi <= high,
            high <= 0x10_0000_0000_0000,
            lo * lo <= n,
            n < hi * hi,
        decreases hi - lo,
    {
        let mid: u128 = lo + (hi - lo) / 2;
        assert(mid * mid <= 0x10_0000_0000_0000 * 0x10_0000_0000_0000) by (nonlinear_arith)
            requires
                mid < 0x10_0000_0000_0000,
        ;
        if mid * mid <= n {
            lo = mid;
        } else {
            hi = mid;
        }
    }
    proof {
        assert(hi == lo + 1);
        lemma_floor_sqrt(n as nat);
        lemma_floor_sqrt_unique(n as int, lo as int, floor_sqrt(n as nat) as int);
    }
    lo
}

} // verus!
