//! Signed decimal fixed-point numbers with eighteen fractional digits.
//!
//! A number holds magnitudes up to ten billion. Every operation is total: a
//! result beyond that limit is replaced by the limit on its side, and
//! products and quotients are rounded to the nearest raw unit, a tie
//! towards positive infinity. The `fx_*` functions give the meaning of each
//! operation on raw values, as mathematical integers.

use vstd::arithmetic::div_mod::{
    lemma_div_is_ordered, lemma_div_pos_is_pos, lemma_fundamental_div_mod,
    lemma_fundamental_div_mod_converse, lemma_mod_bound,
};
use vstd::math::abs;
use vstd::prelude::*;

verus! {

/// Raw units in one whole unit.
pub const SCALE: i128 = 1_000_000_000_000_000_000;

/// Raw units in one half.
pub const HALF: i128 = 500_000_000_000_000_000;

/// Largest magnitude of a raw value: ten billion whole units.
pub const LIMIT: i128 = 10_000_000_000_000_000_000_000_000_000;

/// A fixed-point number, held as a count of units of `1 / SCALE`.
#[derive(Clone, Copy, Debug, PartialEq, Eq, Structural)]
pub struct Fixed {
    raw: i128,
}

impl View for Fixed {
    type V = int;

    /// The raw value of the number, as a mathematical integer.
    closed spec fn view(&self) -> int {
        saturate(self.raw as int)
    }
}

/// The nearest value to `x` that a `Fixed` can hold.
pub open spec fn saturate(x: int) -> int {
    if x < -(LIMIT as int) {
        -(LIMIT as int)
    } else if x > LIMIT {
        LIMIT as int
    } else {
        x
    }
}

/// Sum of two raw values, saturated.
pub open spec fn fx_add(a: int, b: int) -> int {
    saturate(a + b)
}

/// Difference of two raw values, saturated.
pub open spec fn fx_sub(a: int, b: int) -> int {
    saturate(a - b)
}

/// Product of two raw values, rescaled and rounded to the nearest unit.
pub open spec fn rounded_product(a: int, b: int) -> int {
    (a * b + HALF) / (SCALE as int)
}

/// Product of two raw values, rescaled, rounded to the nearest unit and
/// saturated.
pub open spec fn fx_mul(a: int, b: int) -> int {
    saturate(rounded_product(a, b))
}

/// The negation of a raw value, saturated.
pub open spec fn fx_neg(a: int) -> int {
    saturate(-a)
}

/// Quotient of two raw values, rescaled, rounded to the nearest unit and
/// saturated.
///
/// A quotient by zero is the limit on the side of the dividend's sign, and
/// zero when the dividend is zero too.
pub open spec fn fx_div(a: int, b: int) -> int {
    if b > 0 {
        saturate((2 * a * SCALE + b) / (2 * b))
    } else if b < 0 {
        saturate((-2 * a * SCALE - b) / (-2 * b))
    } else if a > 0 {
        LIMIT as int
    } else if a < 0 {
        -(LIMIT as int)
    } else {
        0
    }
}

/// `root` is the integer square root of `n`: the largest integer whose
/// square does not exceed `n`.
pub open spec fn is_floor_sqrt(root: int, n: int) -> bool {
    &&& 0 <= root
    &&& root * root <= n
    &&& n < (root + 1) * (root + 1)
}

/// Square root of a non-negative raw value, rounded down: the integer
/// square root of `x * SCALE`.
pub open spec fn fx_sqrt(x: int) -> int {
    choose|root: int| #[trigger] is_floor_sqrt(root, x * SCALE)
}

/// `base` raised to the power `n` by `n` successive fixed-point products,
/// starting from one.
pub open spec fn fx_pow(base: int, n: nat) -> int
    decreases n,
{
    if n == 0 {
        SCALE as int
    } else {
        fx_mul(fx_pow(base, (n - 1) as nat), base)
    }
}

/// The larger of `x` and zero.
pub open spec fn positive_part(x: int) -> int {
    if x > 0 {
        x
    } else {
        0
    }
}

/// A product does not decrease when its first factor grows and the second
/// factor is not negative.
pub proof fn lemma_fx_mul_monotone(a1: int, a2: int, b: int)
    requires
        a1 <= a2,
        0 <= b,
    ensures
        fx_mul(a1, b) <= fx_mul(a2, b),
{
    assert(a1 * b <= a2 * b) by (nonlinear_arith)
        requires
            a1 <= a2,
            0 <= b,
    ;
}

/// A product does not decrease when its second factor grows and the first
/// factor is not negative.
pub proof fn lemma_fx_mul_monotone_right(a: int, b1: int, b2: int)
    requires
        0 <= a,
        b1 <= b2,
    ensures
        fx_mul(a, b1) <= fx_mul(a, b2),
{
    assert(a * b1 <= a * b2) by (nonlinear_arith)
        requires
            0 <= a,
            b1 <= b2,
    ;
}

/// The product of two non-negative values is not negative.
pub proof fn lemma_fx_mul_nonnegative(a: int, b: int)
    requires
        0 <= a,
        0 <= b,
    ensures
        0 <= fx_mul(a, b),
{
    assert(0 <= a * b) by (nonlinear_arith)
        requires
            0 <= a,
            0 <= b,
    ;
}

/// Every power of a non-negative base is non-negative.
pub proof fn lemma_fx_pow_nonnegative(base: int, n: nat)
    requires
        0 <= base,
    ensures
        0 <= fx_pow(base, n),
    decreases n,
{
    if n > 0 {
        lemma_fx_pow_nonnegative(base, (n - 1) as nat);
        lemma_fx_mul_nonnegative(fx_pow(base, (n - 1) as nat), base);
    }
}

/// Every power of one is one.
pub proof fn lemma_fx_pow_of_one(n: nat)
    ensures
        fx_pow(SCALE as int, n) == SCALE,
    decreases n,
{
    if n > 0 {
        lemma_fx_pow_of_one((n - 1) as nat);
        assert(SCALE * SCALE == 1_000_000_000_000_000_000_000_000_000_000_000_000)
            by (nonlinear_arith)
            requires
                SCALE == 1_000_000_000_000_000_000,
        ;
    }
}

/// A rounded product differs from the exact quotient by at most one half.
pub proof fn lemma_rounded_product(a: int, b: int)
    ensures
        a * b - HALF < SCALE * rounded_product(a, b) <= a * b + HALF,
{
    let t: int = a * b + HALF;
    lemma_fundamental_div_mod(t, SCALE as int);
    lemma_mod_bound(t, SCALE as int);
}

/// A quotient of a non-negative value by a positive value that is no
/// smaller lies between zero and one.
pub proof fn lemma_fx_div_unit_interval(a: int, b: int)
    requires
        0 <= a <= b,
        0 < b,
    ensures
        0 <= fx_div(a, b) <= SCALE,
{
    assert(0 <= 2 * a * SCALE + b <= SCALE * (2 * b) + b) by (nonlinear_arith)
        requires
            0 <= a <= b,
            SCALE == 1_000_000_000_000_000_000,
    ;
    lemma_div_pos_is_pos(2 * a * SCALE + b, 2 * b);
    lemma_div_is_ordered(2 * a * SCALE + b, SCALE * (2 * b) + b, 2 * b);
    lemma_fundamental_div_mod_converse(SCALE * (2 * b) + b, 2 * b, SCALE as int, b);
}

/// The square root of `x` is the integer square root of `x * SCALE`,
/// whichever way it was found.
pub proof fn lemma_fx_sqrt_is(x: int, root: int)
    requires
        is_floor_sqrt(root, x * SCALE),
    ensures
        fx_sqrt(x) == root,
{
    lemma_floor_sqrt_unique(root, fx_sqrt(x), x * SCALE);
}

/// A number has at most one integer square root.
pub proof fn lemma_floor_sqrt_unique(r1: int, r2: int, n: int)
    requires
        is_floor_sqrt(r1, n),
        is_floor_sqrt(r2, n),
    ensures
        r1 == r2,
{
    if r1 < r2 {
        assert((r1 + 1) * (r1 + 1) <= r2 * r2) by (nonlinear_arith)
            requires
                0 <= r1,
                r1 + 1 <= r2,
        ;
    } else if r2 < r1 {
        assert((r2 + 1) * (r2 + 1) <= r1 * r1) by (nonlinear_arith)
            requires
                0 <= r2,
                r2 + 1 <= r1,
        ;
    }
}

/// Where a magnitude `m` is `q * d + rest` with `rest < d`, the quotient of
/// `m` or of `-m` by `d`, rounded to the nearest integer with a tie
/// upwards, is `q` or its neighbour according to `rest`.
proof fn lemma_rounded_quotient(n: int, d: int, q: int, rest: int)
    requires
        0 < d,
        0 <= rest < d,
        n == q * d + rest || n == -(q * d + rest),
    ensures
        n == q * d + rest ==> (2 * n + d) / (2 * d) == q + if 2 * rest >= d {
            1int
        } else {
            0int
        },
        n == -(q * d + rest) ==> (2 * n + d) / (2 * d) == -q - if 2 * rest > d {
            1int
        } else {
            0int
        },
{
    if n == q * d + rest {
        if 2 * rest >= d {
            assert(2 * n + d == (q + 1) * (2 * d) + (2 * rest - d)) by (nonlinear_arith)
                requires
                    n == q * d + rest,
            ;
            lemma_fundamental_div_mod_converse(2 * n + d, 2 * d, q + 1, 2 * rest - d);
        } else {
            assert(2 * n + d == q * (2 * d) + (2 * rest + d)) by (nonlinear_arith)
                requires
                    n == q * d + rest,
            ;
            lemma_fundamental_div_mod_converse(2 * n + d, 2 * d, q, 2 * rest + d);
        }
    }
    if n == -(q * d + rest) {
        if 2 * rest > d {
            assert(2 * n + d == (-q - 1) * (2 * d) + (3 * d - 2 * rest)) by (nonlinear_arith)
                requires
                    n == -(q * d + rest),
            ;
            lemma_fundamental_div_mod_converse(2 * n + d, 2 * d, -q - 1, 3 * d - 2 * rest);
        } else {
            assert(2 * n + d == (-q) * (2 * d) + (d - 2 * rest)) by (nonlinear_arith)
                requires
                    n == -(q * d + rest),
            ;
            lemma_fundamental_div_mod_converse(2 * n + d, 2 * d, -q, d - 2 * rest);
        }
    }
}

/// The signs of `a` and `b` differ, so that their product and quotient
/// are not positive.
spec fn opposite_signs(a: int, b: int) -> bool {
    (a < 0) != (b < 0)
}

/// A product is the product of the magnitudes, with the sign of the
/// factors.
proof fn lemma_signed_product(a: int, b: int)
    ensures
        a * b == if opposite_signs(a, b) {
            -(abs(a) * abs(b))
        } else {
            (abs(a) * abs(b)) as int
        },
{
    assert(a * b == (-a) * (-b) && a * b == -((-a) * b) && a * b == -(a * (-b)))
        by (nonlinear_arith);
}

/// The product of two raw values from the quotient and remainder of the
/// product of their magnitudes by `SCALE`.
proof fn lemma_fx_mul_from_magnitudes(a: int, b: int, q: int, rest: int)
    requires
        abs(a) * abs(b) == q * SCALE + rest,
        0 <= rest < SCALE,
    ensures
        fx_mul(a, b) == saturate(
            if opposite_signs(a, b) {
                -q - if rest > HALF {
                    1int
                } else {
                    0int
                }
            } else {
                q + if rest >= HALF {
                    1int
                } else {
                    0int
                }
            },
        ),
{
    lemma_signed_product(a, b);
}

/// The quotient of two raw values from the quotient and remainder of the
/// rescaled magnitude of the dividend by the magnitude of the divisor.
proof fn lemma_fx_div_from_magnitudes(a: int, b: int, q: int, rest: int)
    requires
        b != 0,
        abs(a) * SCALE == q * abs(b) + rest,
        0 <= rest < abs(b),
    ensures
        fx_div(a, b) == saturate(
            if opposite_signs(a, b) {
                -q - if 2 * rest > abs(b) {
                    1int
                } else {
                    0int
                }
            } else {
                q + if 2 * rest >= abs(b) {
                    1int
                } else {
                    0int
                }
            },
        ),
{
    let n: int = if b > 0 {
        a * SCALE
    } else {
        -a * SCALE
    };
    lemma_signed_product(a, SCALE as int);
    lemma_signed_product(-a, SCALE as int);
    assert(2 * a * SCALE == 2 * (a * SCALE) && -2 * a * SCALE == 2 * (-a * SCALE))
        by (nonlinear_arith);
    lemma_rounded_quotient(n, abs(b) as int, q, rest);
}

/// A quotient whose magnitude reaches the limit is the limit on the side
/// of its sign.
proof fn lemma_fx_div_saturated(a: int, b: int)
    requires
        b != 0,
        abs(a) * SCALE >= LIMIT * abs(b),
    ensures
        fx_div(a, b) == if opposite_signs(a, b) {
            -(LIMIT as int)
        } else {
            LIMIT as int
        },
{
    let d: int = abs(b) as int;
    let n: int = if b > 0 {
        a * SCALE
    } else {
        -a * SCALE
    };
    lemma_signed_product(a, SCALE as int);
    lemma_signed_product(-a, SCALE as int);
    assert(2 * a * SCALE == 2 * (a * SCALE) && -2 * a * SCALE == 2 * (-a * SCALE))
        by (nonlinear_arith);
    assert(LIMIT * d * 2 == LIMIT * (2 * d) && (-(LIMIT as int)) * (2 * d) == -(LIMIT * d * 2))
        by (nonlinear_arith);
    if opposite_signs(a, b) {
        lemma_div_is_ordered(2 * n + d, (-(LIMIT as int)) * (2 * d) + d, 2 * d);
        lemma_fundamental_div_mod_converse(
            (-(LIMIT as int)) * (2 * d) + d,
            2 * d,
            -(LIMIT as int),
            d,
        );
    } else {
        lemma_div_is_ordered(LIMIT * (2 * d) + 0, 2 * n + d, 2 * d);
        lemma_fundamental_div_mod_converse(LIMIT * (2 * d) + 0, 2 * d, LIMIT as int, 0);
    }
}

/// The nearest value to `x` within the limit.
fn clamp(x: i128) -> (r: i128)
    ensures
        r == saturate(x as int),
{
    if x < -LIMIT {
        -LIMIT
    } else if x > LIMIT {
        LIMIT
    } else {
        x
    }
}

/// The number nearest to the raw value `x`.
fn narrow(x: i128) -> (r: Fixed)
    ensures
        r@ == saturate(x as int),
{
    Fixed { raw: clamp(x) }
}

/// The absolute value of a raw value within the limit.
fn magnitude(x: i128) -> (r: u128)
    requires
        -LIMIT <= x <= LIMIT,
    ensures
        r == abs(x as int),
        r <= LIMIT,
{
    if x < 0 {
        (-x) as u128
    } else {
        x as u128
    }
}

/// The square root of `SCALE`: the base in which wide products and
/// quotients are taken digit by digit.
const BASE: u128 = 1_000_000_000;

/// `LIMIT / BASE`: the largest leading part of a magnitude.
const LEAD: u128 = 10_000_000_000_000_000_000;

/// The square root of `LIMIT`.
const ROOT: u128 = 100_000_000_000_000;

/// Quotient and remainder of the product of two magnitudes by `SCALE`.
fn mul_magnitudes(a: u128, b: u128) -> (r: (u128, u128))
    requires
        a <= LIMIT,
        b <= LIMIT,
    ensures
        a * b == r.0 * SCALE + r.1,
        r.1 < SCALE,
        r.0 <= LEAD * LEAD + 2 * LEAD + 1,
{
    let a_high: u128 = a / BASE;
    let a_low: u128 = a % BASE;
    let b_high: u128 = b / BASE;
    let b_low: u128 = b % BASE;
    assert(a_high * b_high <= LEAD * LEAD) by (nonlinear_arith)
        requires
            a_high <= LEAD,
            b_high <= LEAD,
    ;
    assert(a_high * b_low <= LEAD * BASE) by (nonlinear_arith)
        requires
            a_high <= LEAD,
            b_low <= BASE,
    ;
    assert(a_low * b_high <= BASE * LEAD) by (nonlinear_arith)
        requires
            a_low <= BASE,
            b_high <= LEAD,
    ;
    assert(a_low * b_low < BASE * BASE) by (nonlinear_arith)
        requires
            a_low < BASE,
            b_low < BASE,
    ;
    let top: u128 = a_high * b_high;
    let middle: u128 = a_high * b_low + a_low * b_high;
    let bottom: u128 = a_low * b_low;
    let middle_high: u128 = middle / BASE;
    let middle_low: u128 = middle % BASE;
    let tail: u128 = middle_low * BASE + bottom;
    let carry: u128 = tail / (SCALE as u128);
    let rest: u128 = tail % (SCALE as u128);
    proof {
        lemma_fundamental_div_mod(a as int, BASE as int);
        lemma_fundamental_div_mod(b as int, BASE as int);
        lemma_fundamental_div_mod(middle as int, BASE as int);
        lemma_fundamental_div_mod(tail as int, SCALE as int);
        assert(a * b == top * (BASE * BASE) + middle * BASE + bottom) by (nonlinear_arith)
            requires
                a == BASE * a_high + a_low,
                b == BASE * b_high + b_low,
                top == a_high * b_high,
                middle == a_high * b_low + a_low * b_high,
                bottom == a_low * b_low,
        ;
        assert(middle * BASE == middle_high * (BASE * BASE) + middle_low * BASE)
            by (nonlinear_arith)
            requires
                middle == BASE * middle_high + middle_low,
        ;
        assert((top + middle_high + carry) * SCALE + rest == top * (BASE * BASE) + middle_high * (
        BASE * BASE) + tail) by (nonlinear_arith)
            requires
                tail == SCALE * carry + rest,
                SCALE == BASE * BASE,
        ;
    }
    (top + middle_high + carry, rest)
}

/// Quotient and remainder of `a * SCALE` by `b`, or nothing where the
/// quotient reaches the limit.
fn div_magnitudes(a: u128, b: u128) -> (r: Option<(u128, u128)>)
    requires
        a <= LIMIT,
        0 < b <= LIMIT,
    ensures
        match r {
            Some((q, rest)) => a * SCALE == q * b + rest && rest < b && q < LIMIT,
            None => a * SCALE >= LIMIT * b,
        },
{
    let first: u128 = a * BASE;
    let q1: u128 = first / b;
    let r1: u128 = first % b;
    proof {
        lemma_fundamental_div_mod(first as int, b as int);
        lemma_mod_bound(first as int, b as int);
    }
    if q1 >= LEAD {
        assert(a * (BASE * BASE) >= (LEAD * BASE) * b) by (nonlinear_arith)
            requires
                a * BASE == b * q1 + r1,
                q1 >= LEAD,
                0 <= r1,
                0 < b,
        ;
        None
    } else {
        let second: u128 = r1 * BASE;
        let q2: u128 = second / b;
        let r2: u128 = second % b;
        proof {
            lemma_fundamental_div_mod(second as int, b as int);
            lemma_mod_bound(second as int, b as int);
            assert(q2 < BASE) by (nonlinear_arith)
                requires
                    r1 * BASE == b * q2 + r2,
                    r1 < b,
                    0 <= r2,
                    0 < b,
            ;
            assert(a * (BASE * BASE) == (q1 * BASE + q2) * b + r2) by (nonlinear_arith)
                requires
                    a * BASE == b * q1 + r1,
                    r1 * BASE == b * q2 + r2,
            ;
        }
        Some((q1 * BASE + q2, r2))
    }
}

/// The integer square root of a magnitude.
fn floor_sqrt(n: u128) -> (root: u128)
    requires
        n <= LIMIT,
    ensures
        is_floor_sqrt(root as int, n as int),
        root <= ROOT,
{
    let mut low: u128 = 0;
    let mut high: u128 = ROOT + 1;
    assert(n < high * high) by (nonlinear_arith)
        requires
            n <= ROOT * ROOT,
            high == ROOT + 1,
    ;
    while high - low > 1
        invariant
            low < high <= ROOT + 1,
            low * low <= n < high * high,
        decreases high - low,
    {
        let middle: u128 = low + (high - low) / 2;
        assert(middle * middle <= LIMIT + 2 * ROOT + 1) by (nonlinear_arith)
            requires
                middle <= ROOT + 1,
                LIMIT == ROOT * ROOT,
        ;
        if middle * middle <= n {
            low = middle;
        } else {
            high = middle;
        }
    }
    low
}

/// The largest `t` below `BASE` with `(whole * BASE + t)^2` at most
/// `(whole^2 + excess) * SCALE`: the nine digits that follow `whole` in the
/// square root of `whole^2 + excess`.
fn sqrt_fraction(whole: u128, excess: u128) -> (t: u128)
    requires
        whole <= ROOT,
        excess <= 2 * whole,
    ensures
        t < BASE,
        t * (2 * whole * BASE + t) <= excess * SCALE,
        t + 1 < BASE ==> (t + 1) * (2 * whole * BASE + t + 1) > excess * SCALE,
{
    let twice: u128 = 2 * whole * BASE;
    let target: u128 = excess * (SCALE as u128);
    let mut low: u128 = 0;
    let mut high: u128 = BASE;
    assert(0 * (twice + 0) == 0) by (nonlinear_arith);
    while high - low > 1
        invariant
            low < high <= BASE,
            twice == 2 * whole * BASE,
            twice <= 2 * ROOT * BASE,
            target == excess * SCALE,
            low * (twice + low) <= target,
            high < BASE ==> high * (twice + high) > target,
        decreases high - low,
    {
        let middle: u128 = low + (high - low) / 2;
        assert(middle * (twice + middle) <= BASE * (2 * ROOT * BASE + BASE)) by (nonlinear_arith)
            requires
                middle <= BASE,
                twice <= 2 * ROOT * BASE,
        ;
        if middle * (twice + middle) <= target {
            low = middle;
        } else {
            high = middle;
        }
    }
    low
}

impl Fixed {
    /// The raw value of every number lies within the limit.
    pub proof fn lemma_view_in_range(self)
        ensures
            -LIMIT <= self@ <= LIMIT,
    {
    }

    /// The number with the given raw value, or with the limit on its side
    /// where `raw` lies beyond it.
    pub fn from_raw(raw: i128) -> (r: Fixed)
        ensures
            r@ == saturate(raw as int),
    {
        narrow(raw)
    }

    /// The raw value of the number.
    pub fn raw(self) -> (v: i128)
        ensures
            v == self@,
    {
        clamp(self.raw)
    }

    /// The number zero.
    pub fn zero() -> (r: Fixed)
        ensures
            r@ == 0,
    {
        Fixed { raw: 0 }
    }

    /// The number one.
    pub fn one() -> (r: Fixed)
        ensures
            r@ == SCALE,
    {
        Fixed { raw: SCALE }
    }

    /// The whole number `n`.
    pub fn from_count(n: u32) -> (r: Fixed)
        ensures
            r@ == n * SCALE,
    {
        Fixed { raw: (n as i128) * SCALE }
    }

    /// `self + rhs`, saturated at the limit.
    pub fn saturating_add(self, rhs: Fixed) -> (r: Fixed)
        ensures
            r@ == fx_add(self@, rhs@),
    {
        narrow(clamp(self.raw) + clamp(rhs.raw))
    }

    /// `self - rhs`, saturated at the limit.
    pub fn saturating_sub(self, rhs: Fixed) -> (r: Fixed)
        ensures
            r@ == fx_sub(self@, rhs@),
    {
        narrow(clamp(self.raw) - clamp(rhs.raw))
    }

    /// `-self`.
    pub fn saturating_neg(self) -> (r: Fixed)
        ensures
            r@ == fx_neg(self@),
    {
        narrow(-clamp(self.raw))
    }

    /// `self * rhs`, rounded to the nearest value with eighteen fractional
    /// digits and saturated at the limit.
    pub fn saturating_mul(self, rhs: Fixed) -> (r: Fixed)
        ensures
            r@ == fx_mul(self@, rhs@),
    {
        let a: i128 = clamp(self.raw);
        let b: i128 = clamp(rhs.raw);
        let negative: bool = (a < 0) != (b < 0);
        let (q, rest): (u128, u128) = mul_magnitudes(magnitude(a), magnitude(b));
        proof {
            lemma_fx_mul_from_magnitudes(a as int, b as int, q as int, rest as int);
        }
        if negative {
            if rest > HALF as u128 {
                narrow(-(q as i128) - 1)
            } else {
                narrow(-(q as i128))
            }
        } else {
            if rest >= HALF as u128 {
                narrow(q as i128 + 1)
            } else {
                narrow(q as i128)
            }
        }
    }

    /// `self / rhs`, rounded to the nearest value with eighteen fractional
    /// digits and saturated at the limit; a quotient by zero is the limit
    /// on the side of the sign of `self`.
    pub fn saturating_div(self, rhs: Fixed) -> (r: Fixed)
        ensures
            r@ == fx_div(self@, rhs@),
    {
        let a: i128 = clamp(self.raw);
        let b: i128 = clamp(rhs.raw);
        if b == 0 {
            if a > 0 {
                Fixed { raw: LIMIT }
            } else if a < 0 {
                Fixed { raw: -LIMIT }
            } else {
                Fixed { raw: 0 }
            }
        } else {
            let negative: bool = (a < 0) != (b < 0);
            let divisor: u128 = magnitude(b);
            match div_magnitudes(magnitude(a), divisor) {
                None => {
                    proof {
                        lemma_fx_div_saturated(a as int, b as int);
                    }
                    if negative {
                        Fixed { raw: -LIMIT }
                    } else {
                        Fixed { raw: LIMIT }
                    }
                },
                Some((q, rest)) => {
                    proof {
                        lemma_fx_div_from_magnitudes(a as int, b as int, q as int, rest as int);
                    }
                    if negative {
                        if 2 * rest > divisor {
                            narrow(-(q as i128) - 1)
                        } else {
                            narrow(-(q as i128))
                        }
                    } else {
                        if 2 * rest >= divisor {
                            narrow(q as i128 + 1)
                        } else {
                            narrow(q as i128)
                        }
                    }
                },
            }
        }
    }

    /// Square root of a non-negative number, rounded down to eighteen
    /// fractional digits.
    pub fn sqrt(self) -> (r: Fixed)
        requires
            self@ >= 0,
        ensures
            r@ == fx_sqrt(self@),
    {
        let x: u128 = magnitude(clamp(self.raw));
        let whole: u128 = floor_sqrt(x);
        assert(x - whole * whole <= 2 * whole) by (nonlinear_arith)
            requires
                whole * whole <= x < (whole + 1) * (whole + 1),
        ;
        let excess: u128 = x - whole * whole;
        let t: u128 = sqrt_fraction(whole, excess);
        let root: u128 = whole * BASE + t;
        proof {
            let n: int = x * SCALE;
            assert(root * root == whole * whole * (BASE * BASE) + t * (2 * whole * BASE + t))
                by (nonlinear_arith)
                requires
                    root == whole * BASE + t,
            ;
            assert(n == whole * whole * (BASE * BASE) + excess * SCALE) by (nonlinear_arith)
                requires
                    n == x * SCALE,
                    excess == x - whole * whole,
                    SCALE == BASE * BASE,
            ;
            assert((root + 1) * (root + 1) == whole * whole * (BASE * BASE) + (t + 1) * (2 * whole
                * BASE + t + 1)) by (nonlinear_arith)
                requires
                    root == whole * BASE + t,
            ;
            if t + 1 == BASE {
                assert((root + 1) * (root + 1) == (whole + 1) * (whole + 1) * (BASE * BASE))
                    by (nonlinear_arith)
                    requires
                        root + 1 == (whole + 1) * BASE,
                ;
                assert(n < (whole + 1) * (whole + 1) * (BASE * BASE)) by (nonlinear_arith)
                    requires
                        n == x * SCALE,
                        x < (whole + 1) * (whole + 1),
                        SCALE == BASE * BASE,
                ;
            }
            lemma_fx_sqrt_is(self@, root as int);
        }
        Fixed { raw: root as i128 }
    }

    /// The larger of `self` and zero.
    pub fn positive_part(self) -> (r: Fixed)
        ensures
            r@ == positive_part(self@),
    {
        if self.raw > 0 {
            self
        } else {
            Fixed { raw: 0 }
        }
    }
}

/// The powers `base^0 ..= base^n`, each obtained from the one before by one
/// fixed-point product.
pub fn power_table(base: Fixed, n: usize) -> (table: Vec<Fixed>)
    ensures
        table.len() == n + 1,
        forall|j: int| 0 <= j <= n ==> (#[trigger] table[j])@ == fx_pow(base@, j as nat),
{
    let mut table: Vec<Fixed> = Vec::new();
    table.push(Fixed::one());
    while table.len() <= n
        invariant
            1 <= table.len() <= n + 1,
            forall|j: int| 0 <= j < table.len() ==> (#[trigger] table[j])@ == fx_pow(base@, j as nat),
        decreases n + 1 - table.len(),
    {
        let last: Fixed = table[table.len() - 1];
        table.push(last.saturating_mul(base));
    }
    table
}

} // verus!
