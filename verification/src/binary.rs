//! Binary numbers of a fixed length: a whole mantissa times a power of two, rounded
//! after each step of a calculation.

use vstd::arithmetic::power2::*;
use vstd::prelude::*;

use crate::number::{rounded, round_wide};

verus! {

/// The least mantissa of a double-precision number.
pub const DOUBLE: u64 = 0x10_0000_0000_0000;

/// The least mantissa of a single-precision number.
pub const SINGLE: u64 = 0x80_0000;

/// A binary number: the mantissa times two to the power `exp`, or what that takes
/// away.
#[derive(Debug, Clone, Copy, PartialEq, Eq, Structural)]
pub struct Binary {
    pub neg: bool,
    pub mant: u64,
    pub exp: i128,
}

/// A binary number.
pub struct Number {
    pub neg: bool,
    pub mant: nat,
    pub exp: int,
}

impl View for Binary {
    type V = Number;

    open spec fn view(&self) -> Number {
        Number { neg: self.neg, mant: self.mant as nat, exp: self.exp as int }
    }
}

// ── Rounding to a mantissa ───────────────────────────────────────────────────

/// Two to the power `k` where that is a whole number, else one.
pub open spec fn up(k: int) -> nat {
    if k > 0 {
        pow2(k as nat)
    } else {
        1
    }
}

/// Two to the power `-k` where that is a whole number, else one.
pub open spec fn down(k: int) -> nat {
    up(-k)
}

/// `n / d` divided by two to the power `k` lies between the least mantissa and twice
/// that.
pub open spec fn fits(n: nat, d: nat, one: nat, k: int) -> bool {
    d * one * up(k) <= n * down(k) < 2 * (d * one * up(k))
}

/// The power of two that leaves `n / d` with a full mantissa.
pub open spec fn power_of(n: nat, d: nat, one: nat) -> int {
    choose|k: int| #[trigger] fits(n, d, one, k)
}

/// A mantissa with its power of two; one that has grown too long is halved.
pub open spec fn carried(m: nat, k: int, one: nat) -> (nat, int) {
    if m == 2 * one {
        (one, k + 1)
    } else {
        (m, k)
    }
}

/// The mantissa and the power of two of the binary number that is nearest to `n / d`;
/// of two that are as near, the one with the even mantissa.
pub open spec fn nearest(n: nat, d: nat, one: nat) -> (nat, int) {
    if n == 0 {
        (0, 0)
    } else {
        let k = power_of(n, d, one);
        carried(rounded(n * down(k), d * up(k)), k, one)
    }
}

/// The size of a number.
pub open spec fn size(n: int) -> nat {
    if n < 0 {
        (-n) as nat
    } else {
        n as nat
    }
}

/// The binary number that is nearest to `n / d`, times two to the power `e`.
pub open spec fn scaled(n: int, d: nat, e: int, one: nat) -> Number {
    let (m, k) = nearest(size(n), d, one);
    Number {
        neg: n < 0,
        mant: m,
        exp: if m == 0 {
            0
        } else {
            k + e
        },
    }
}

/// The binary number that is nearest to `n / d`.
pub open spec fn ratio(n: int, d: nat, one: nat) -> Number {
    scaled(n, d, 0, one)
}

/// A number as single precision holds it.
pub open spec fn single(n: int, d: nat) -> Number {
    ratio(n, d, SINGLE as nat)
}

/// A number as double precision holds it.
pub open spec fn double(n: int, d: nat) -> Number {
    ratio(n, d, DOUBLE as nat)
}

/// The mantissa with its sign.
pub open spec fn signed(a: Number) -> int {
    if a.neg {
        -(a.mant as int)
    } else {
        a.mant as int
    }
}

/// The lesser of two powers of two.
pub open spec fn lower(a: Number, b: Number) -> int {
    if a.exp <= b.exp {
        a.exp
    } else {
        b.exp
    }
}

/// The exact sum of two numbers, as a multiple of the lesser power of two.
pub open spec fn exact_sum(a: Number, b: Number) -> int {
    signed(a) * pow2((a.exp - lower(a, b)) as nat) + signed(b) * pow2(
        (b.exp - lower(a, b)) as nat,
    )
}

/// The sum of two numbers.
pub open spec fn sum(a: Number, b: Number, one: nat) -> Number {
    scaled(exact_sum(a, b), 1, lower(a, b), one)
}

/// The number with the other sign.
pub open spec fn negated(a: Number) -> Number {
    Number { neg: !a.neg && a.mant != 0, ..a }
}

/// The difference of two numbers.
pub open spec fn difference(a: Number, b: Number, one: nat) -> Number {
    sum(a, negated(b), one)
}

/// The product of two numbers.
pub open spec fn product(a: Number, b: Number, one: nat) -> Number {
    scaled(signed(a) * signed(b), 1, a.exp + b.exp, one)
}

/// The quotient of two numbers, of which the second is positive.
pub open spec fn quotient(a: Number, b: Number, one: nat) -> Number {
    scaled(signed(a), b.mant, a.exp - b.exp, one)
}

/// A number with a shorter mantissa.
pub open spec fn narrowed(a: Number, one: nat) -> Number {
    scaled(signed(a), 1, a.exp, one)
}

/// One number is less than another.
pub open spec fn less(a: Number, b: Number) -> bool {
    exact_sum(a, negated(b)) < 0
}

/// Two numbers differ by more than a step.
pub open spec fn apart(a: Number, b: Number, step: Number, one: nat) -> bool {
    less(step, Number { neg: false, ..difference(a, b, one) })
}

/// A number that is at most the greatest of 128 bits.
pub open spec fn capped(n: nat) -> nat {
    if n > u128::MAX {
        u128::MAX as nat
    } else {
        n
    }
}

/// The size of a number in parts of which one has `scale`, to the nearest whole part;
/// a half goes to the even one.
pub open spec fn parts(a: Number, scale: nat) -> nat {
    capped(rounded(a.mant * scale * up(a.exp), down(a.exp)))
}

/// The whole parts of a number of which one has `scale`.
pub open spec fn whole_parts(a: Number, scale: nat) -> nat {
    capped(a.mant * scale * up(a.exp) / down(a.exp))
}

/// The least number of whole parts, of which one has `scale`, that a number does not
/// exceed.
pub open spec fn parts_above(a: Number, scale: nat) -> nat {
    capped(round_up(a.mant * scale * up(a.exp), down(a.exp)))
}

/// A quotient, rounded up.
pub open spec fn round_up(n: nat, d: nat) -> nat {
    if n % d == 0 {
        n / d
    } else {
        n / d + 1
    }
}

/// The mantissa has its full length.
pub open spec fn full(a: Number, one: nat) -> bool {
    (a.mant == 0 && a.exp == 0 && !a.neg) || one <= a.mant < 2 * one
}

/// A number of single precision.
pub open spec fn is_single(a: Number) -> bool {
    full(a, SINGLE as nat) && within(a, 10_000)
}

/// A number of double precision.
pub open spec fn is_double(a: Number) -> bool {
    full(a, DOUBLE as nat) && within(a, 10_000)
}

/// The power of two lies within `b` of zero.
pub open spec fn within(a: Number, b: int) -> bool {
    -b <= a.exp <= b
}

// ── Powers of two ────────────────────────────────────────────────────────────

/// The powers of two from `j` on are at least that of `j`.
proof fn lemma_pow2_le(j: nat, k: nat)
    requires
        j <= k,
    ensures
        pow2(j) <= pow2(k),
        pow2(j) >= 1,
{
    lemma_pow2_pos(j);
    if j < k {
        lemma_pow2_strictly_increases(j, k);
    }
}

/// Two to the power 71 and to the power 127.
proof fn lemma_pow2_values()
    ensures
        pow2(0) == 1,
        pow2(1) == 2,
        pow2(54) == 0x40_0000_0000_0000,
        pow2(71) == 0x80_0000_0000_0000_0000,
        pow2(127) == 0x8000_0000_0000_0000_0000_0000_0000_0000,
{
    lemma2_to64();
    lemma2_to64_rest();
    lemma_pow2_adds(64, 7);
    lemma_pow2_adds(64, 63);
}

/// Each power of two is twice the one before.
proof fn lemma_up_step(k: int)
    ensures
        up(k + 1) * down(k) == 2 * (up(k) * down(k + 1)),
        up(k) >= 1,
        down(k) >= 1,
{
    lemma_pow2_values();
    let (a, b) = (up(k), down(k));
    let (c, d) = (up(k + 1), down(k + 1));
    if k >= 0 {
        lemma_pow2_unfold((k + 1) as nat);
        if k > 0 {
            lemma_pow2_pos(k as nat);
        }
        assert(c == 2 * a && b == 1 && d == 1);
    } else {
        lemma_pow2_unfold((-k) as nat);
        lemma_pow2_pos((-k) as nat);
        assert(b == 2 * d && a == 1 && c == 1);
    }
    assert(c * b == 2 * (a * d)) by (nonlinear_arith)
        requires
            (c == 2 * a && b == 1 && d == 1) || (b == 2 * d && a == 1 && c == 1),
    ;
}

/// A greater power of two is at least twice a lesser one.
proof fn lemma_up_order(k: int, l: int)
    requires
        k < l,
    ensures
        up(l) * down(k) >= 2 * (up(k) * down(l)),
    decreases l - k,
{
    lemma_up_step(k);
    lemma_up_step(l);
    if k + 1 < l {
        lemma_up_order(k + 1, l);
        lemma_up_step(k + 1);
        let (a, b) = (up(k), down(k));
        let (c, d) = (up(k + 1), down(k + 1));
        let (e, f) = (up(l), down(l));
        assert(e * b >= 2 * (a * f)) by (nonlinear_arith)
            requires
                c * b == 2 * (a * d),
                e * d >= 2 * (c * f),
                a >= 1,
                b >= 1,
                c >= 1,
                d >= 1,
                e >= 1,
                f >= 1,
        {
            assert((e * d) * b >= 2 * (c * f) * b);
            assert((e * b) * d == (e * d) * b);
            assert(2 * (c * f) * b == 2 * (c * b) * f);
            assert(2 * (c * b) * f == 4 * (a * f) * d);
            assert((e * b) * d >= (4 * (a * f)) * d);
            assert(e * b >= 4 * (a * f));
            assert(a * f >= 0);
        }
    }
}

/// Only one power of two leaves a number with a full mantissa.
pub proof fn lemma_power_of(n: nat, d: nat, one: nat, k: int)
    requires
        fits(n, d, one, k),
    ensures
        power_of(n, d, one) == k,
{
    let l = power_of(n, d, one);
    assert(fits(n, d, one, l));
    if k < l {
        lemma_two_powers(n, d, one, k, l);
    } else if l < k {
        lemma_two_powers(n, d, one, l, k);
    }
}

/// Two different powers of two do not both leave a full mantissa.
proof fn lemma_two_powers(n: nat, d: nat, one: nat, k: int, l: int)
    requires
        k < l,
        fits(n, d, one, k),
    ensures
        !fits(n, d, one, l),
{
    lemma_up_order(k, l);
    lemma_up_step(k);
    lemma_up_step(l);
    let x = d * one;
    let (a, b) = (up(k), down(k));
    let (e, f) = (up(l), down(l));
    assert(x * e > n * f) by (nonlinear_arith)
        requires
            n * b < 2 * (x * a),
            e * b >= 2 * (a * f),
            a >= 1,
            b >= 1,
            e >= 1,
            f >= 1,
            x >= 0,
    {
        assert((n * b) * f < (2 * (x * a)) * f);
        assert((2 * (x * a)) * f == x * (2 * (a * f)));
        assert(x * (2 * (a * f)) <= x * (e * b));
        assert(x * (e * b) == (x * e) * b);
        assert((n * f) * b == (n * b) * f);
        assert((n * f) * b < (x * e) * b);
    }
}

/// A quotient between the least mantissa and twice that stays there when rounded.
proof fn lemma_rounded_mantissa(a: nat, b: nat, one: nat)
    requires
        b > 0,
        one * b <= a < 2 * (one * b),
    ensures
        one <= rounded(a, b) <= 2 * one,
{
    let q = a / b;
    let r = a % b;
    assert(a == q * b + r && 0 <= r < b) by (nonlinear_arith)
        requires
            b > 0,
            q == a / b,
            r == a % b,
    ;
    assert(one <= q) by (nonlinear_arith)
        requires
            one * b <= q * b + r,
            r < b,
            b > 0,
    ;
    assert(q < 2 * one) by (nonlinear_arith)
        requires
            q * b + r < 2 * (one * b),
            0 <= r,
            b > 0,
    ;
}

/// A number that lies a quarter of the last place or less from one with a full
/// mantissa is rounded to that one.
proof fn lemma_absorbed(m: nat, g: nat, rest: int, one: nat)
    requires
        one >= 1,
        one <= m < 2 * one,
        rest == 0 || (g >= 1 && -(pow2(g) as int) <= 4 * rest <= pow2(g)),
    ensures
        m * pow2(g) + rest > 0,
        nearest((m * pow2(g) + rest) as nat, 1, one) == (m, g as int),
{
    let p = pow2(g);
    lemma_pow2_pos(g);
    let n = m * p + rest;
    assert(up(g as int) == p && down(g as int) == 1) by {
        lemma_pow2_values();
    }
    assert(m * p >= one * p && m * p + p <= 2 * (one * p)) by (nonlinear_arith)
        requires
            one <= m,
            m + 1 <= 2 * one,
            p >= 1,
    ;
    assert(one * p >= p) by (nonlinear_arith)
        requires
            one >= 1,
            p >= 1,
    ;
    if rest >= 0 {
        assert(fits(n as nat, 1, one, g as int));
        lemma_power_of(n as nat, 1, one, g as int);
        lemma_division(n, p as int, m as int, rest);
    } else if m > one {
        assert(m * p - p >= one * p) by (nonlinear_arith)
            requires
                m >= one + 1,
                p >= 1,
        ;
        assert(fits(n as nat, 1, one, g as int));
        lemma_power_of(n as nat, 1, one, g as int);
        assert((m - 1) * p + (p + rest) == n) by (nonlinear_arith)
            requires
                n == m * p + rest,
        ;
        lemma_division(n, p as int, m - 1, p + rest);
    } else {
        let h = pow2((g - 1) as nat);
        lemma_pow2_unfold(g);
        lemma_pow2_pos((g - 1) as nat);
        assert(p == 2 * h);
        let k = g - 1;
        assert(up(k) == h && down(k) == 1) by {
            lemma_pow2_values();
        }
        assert(m * p == 2 * (one * h)) by (nonlinear_arith)
            requires
                m == one,
                p == 2 * h,
        ;
        assert(one * h >= h) by (nonlinear_arith)
            requires
                one >= 1,
                h >= 1,
        ;
        assert(fits(n as nat, 1, one, k));
        lemma_power_of(n as nat, 1, one, k);
        assert((2 * one - 1) * h + (h + rest) == n) by (nonlinear_arith)
            requires
                n == 2 * (one * h) + rest,
        ;
        lemma_division(n, h as int, 2 * one - 1, h + rest);
    }
}

/// A number divided into a multiple and a rest.
proof fn lemma_division(n: int, d: int, q: int, r: int)
    requires
        d > 0,
        0 <= r < d,
        n == q * d + r,
    ensures
        n / d == q,
        n % d == r,
{
    assert(n / d == q && n % d == r) by (nonlinear_arith)
        requires
            d > 0,
            0 <= r < d,
            n == q * d + r,
    ;
}

/// A number does not differ from itself by more than a step.
pub proof fn lemma_not_apart(a: Number, step: Number, one: nat)
    requires
        !step.neg,
    ensures
        !apart(a, a, step, one),
{
    let n = negated(a);
    let e = (a.exp - lower(a, n)) as nat;
    assert(signed(n) == -signed(a));
    let (x, p) = (signed(a), pow2(e));
    assert(x * p + (-x) * p == 0) by (nonlinear_arith);
    let zero = Number { neg: false, ..difference(a, a, one) };
    assert(zero.mant == 0);
    let z = negated(zero);
    let q = pow2((step.exp - lower(step, z)) as nat);
    lemma_pow2_pos((step.exp - lower(step, z)) as nat);
    let m = step.mant;
    assert(m * q >= 0) by (nonlinear_arith)
        requires
            m >= 0,
            q >= 0,
    ;
    let r = pow2((z.exp - lower(step, z)) as nat);
    assert(0 * r == 0) by (nonlinear_arith);
}

/// The sum of two numbers that are not below zero is above zero where one of them is.
pub proof fn lemma_sum_is_positive(a: Number, b: Number)
    requires
        !a.neg,
        !b.neg,
        a.mant > 0 || b.mant > 0,
    ensures
        exact_sum(a, b) > 0,
{
    let p = pow2((a.exp - lower(a, b)) as nat);
    let q = pow2((b.exp - lower(a, b)) as nat);
    lemma_pow2_pos((a.exp - lower(a, b)) as nat);
    lemma_pow2_pos((b.exp - lower(a, b)) as nat);
    let (m, n) = (a.mant, b.mant);
    assert(m * p + n * q > 0) by (nonlinear_arith)
        requires
            m > 0 || n > 0,
            p > 0,
            q > 0,
            m >= 0,
            n >= 0,
    ;
}

// ── Calculating ──────────────────────────────────────────────────────────────

/// The mantissa and the power of two of the binary number nearest to `n / d`.
fn round_mantissa(n: u128, d: u128, one: u64) -> (r: (u64, i128))
    requires
        0 < d,
        1 <= one <= DOUBLE,
        n < 0x8000_0000_0000_0000_0000_0000_0000_0000,
        d * one <= 0x2000_0000_0000_0000_0000_0000_0000_0000,
    ensures
        (r.0 as nat, r.1 as int) == nearest(n as nat, d as nat, one as nat),
        n == 0 ==> r.0 == 0,
        n > 0 ==> one <= r.0 < 2 * one,
        -127 <= r.1 <= 128,
{
    if n == 0 {
        return (0, 0);
    }
    proof {
        lemma_pow2_values();
        assert(d * one >= d && d * one >= 1) by (nonlinear_arith)
            requires
                d >= 1,
                one >= 1,
        ;
    }
    let floor: u128 = d * one as u128;
    let mut j: i128 = 0;
    let m: u64;
    if n < floor {
        let mut x: u128 = n;
        assert(n * pow2(0) == n) by (nonlinear_arith)
            requires
                pow2(0) == 1,
        ;
        while x < floor
            invariant
                0 <= j <= 126,
                0 < x < 2 * floor,
                0 < n,
                floor == d * one,
                floor <= 0x2000_0000_0000_0000_0000_0000_0000_0000,
                x == n * pow2(j as nat),
                pow2(j as nat) <= x,
                j > 0 ==> x >= 1,
            decreases 2 * floor - x,
        {
            proof {
                lemma_pow2_values();
                lemma_pow2_unfold((j + 1) as nat);
                let p = pow2(j as nat);
                assert(n * (2 * p) == 2 * (n * p)) by (nonlinear_arith);
                assert(2 * p <= 2 * x);
                if j + 1 > 126 {
                    lemma_pow2_le(127, (j + 1) as nat);
                }
            }
            x = x * 2;
            j += 1;
        }
        let k: i128 = -j;
        proof {
            if j == 0 {
                assert(false);
            }
            assert(down(k as int) == pow2(j as nat) && up(k as int) == 1);
            assert(d * one * 1 == d * one) by (nonlinear_arith);
            assert(fits(n as nat, d as nat, one as nat, k as int));
            lemma_power_of(n as nat, d as nat, one as nat, k as int);
            assert(d * 1 == d) by (nonlinear_arith);
            assert(one * d == d * one) by (nonlinear_arith);
            lemma_rounded_mantissa(x as nat, d as nat, one as nat);
        }
        m = round_wide(x, d) as u64;
        j = k;
    } else {
        let mut x: u128 = floor;
        let mut y: u128 = d;
        assert(floor * pow2(0) == floor && d * pow2(0) == d) by (nonlinear_arith)
            requires
                pow2(0) == 1,
        ;
        while x <= n / 2
            invariant
                0 <= j <= 127,
                0 < x <= n,
                0 < y <= x,
                0 < d,
                1 <= one,
                n < 0x8000_0000_0000_0000_0000_0000_0000_0000,
                floor == d * one,
                x == floor * pow2(j as nat),
                y == d * pow2(j as nat),
                pow2(j as nat) <= x,
            decreases n - x,
        {
            proof {
                lemma_pow2_values();
                lemma_pow2_unfold((j + 1) as nat);
                let p = pow2(j as nat);
                assert(floor * (2 * p) == 2 * (floor * p)) by (nonlinear_arith);
                assert(d * (2 * p) == 2 * (d * p)) by (nonlinear_arith);
                if j + 1 > 127 {
                    lemma_pow2_le(127, (j + 1) as nat);
                }
            }
            x = x * 2;
            y = y * 2;
            j += 1;
        }
        proof {
            let p = pow2(j as nat);
            assert(up(j as int) == p && down(j as int) == 1);
            assert(n * 1 == n) by (nonlinear_arith);
            assert(fits(n as nat, d as nat, one as nat, j as int));
            lemma_power_of(n as nat, d as nat, one as nat, j as int);
            assert(one * y == x) by (nonlinear_arith)
                requires
                    y == d * p,
                    x == (d * one) * p,
            ;
            lemma_rounded_mantissa(n as nat, y as nat, one as nat);
        }
        m = round_wide(n, y) as u64;
    }
    if m == 2 * one {
        (one, j + 1)
    } else {
        (m, j)
    }
}

/// The greatest power of two that calculations may reach.
pub const FAR: i128 = 0x1_0000_0000_0000_0000_0000_0000;

impl Binary {
    /// Zero.
    pub fn zero() -> (r: Binary)
        ensures
            r@ == (Number { neg: false, mant: 0, exp: 0 }),
    {
        Binary { neg: false, mant: 0, exp: 0 }
    }

    /// The binary number nearest to `n / d`, times two to the power `e`.
    fn scaled(neg: bool, n: u128, d: u128, e: i128, one: u64) -> (r: Binary)
        requires
            0 < d,
            1 <= one <= DOUBLE,
            n < 0x8000_0000_0000_0000_0000_0000_0000_0000,
            d * one <= 0x2000_0000_0000_0000_0000_0000_0000_0000,
            -2 * FAR <= e <= 2 * FAR,
        ensures
            r@ == scaled(
                if neg {
                    -(n as int)
                } else {
                    n as int
                },
                d as nat,
                e as int,
                one as nat,
            ),
            full(r@, one as nat),
            r.mant != 0 ==> e - 127 <= r.exp <= e + 128,
            (r.mant == 0) == (n == 0),
    {
        let (m, k) = round_mantissa(n, d, one);
        if m == 0 {
            Binary { neg: false, mant: 0, exp: 0 }
        } else {
            Binary { neg, mant: m, exp: k + e }
        }
    }

    /// The binary number nearest to `n / d`.
    pub fn ratio(n: u128, d: u128, one: u64) -> (r: Binary)
        requires
            0 < d,
            1 <= one <= DOUBLE,
            n < 0x8000_0000_0000_0000_0000_0000_0000_0000,
            d * one <= 0x2000_0000_0000_0000_0000_0000_0000_0000,
        ensures
            r@ == ratio(n as int, d as nat, one as nat),
            full(r@, one as nat),
            within(r@, 200),
            (r.mant == 0) == (n == 0),
            !r.neg,
    {
        Binary::scaled(false, n, d, 0, one)
    }

    /// `n / d` in single precision.
    pub fn single(n: u64, d: u64) -> (r: Binary)
        requires
            0 < d,
        ensures
            r@ == single(n as int, d as nat),
            full(r@, SINGLE as nat),
            within(r@, 200),
            (r.mant == 0) == (n == 0),
            !r.neg,
    {
        assert(d * SINGLE <= 0xffff_ffff_ffff_ffff * 0x80_0000) by (nonlinear_arith)
            requires
                d <= 0xffff_ffff_ffff_ffffu64,
                SINGLE == 0x80_0000,
        ;
        Binary::ratio(n as u128, d as u128, SINGLE)
    }

    /// `n / d` in double precision.
    pub fn double(n: u64, d: u64) -> (r: Binary)
        requires
            0 < d,
        ensures
            r@ == double(n as int, d as nat),
            full(r@, DOUBLE as nat),
            within(r@, 200),
            (r.mant == 0) == (n == 0),
            !r.neg,
    {
        assert(d * DOUBLE <= 0xffff_ffff_ffff_ffff * 0x10_0000_0000_0000) by (nonlinear_arith)
            requires
                d <= 0xffff_ffff_ffff_ffffu64,
                DOUBLE == 0x10_0000_0000_0000,
        ;
        Binary::ratio(n as u128, d as u128, DOUBLE)
    }

    /// A number below zero or above in single precision.
    pub fn signed_single(n: i64, d: u64) -> (r: Binary)
        requires
            0 < d,
        ensures
            r@ == single(n as int, d as nat),
            full(r@, SINGLE as nat),
            within(r@, 200),
    {
        let size: u64 = if n < 0 {
            (-(n + 1)) as u64 + 1
        } else {
            n as u64
        };
        assert(d * SINGLE <= 0xffff_ffff_ffff_ffff * 0x80_0000) by (nonlinear_arith)
            requires
                d <= 0xffff_ffff_ffff_ffffu64,
                SINGLE == 0x80_0000,
        ;
        Binary::scaled(n < 0, size as u128, d as u128, 0, SINGLE)
    }

    /// The number with the other sign.
    pub fn negated(self) -> (r: Binary)
        ensures
            r@ == negated(self@),
    {
        Binary { neg: !self.neg && self.mant != 0, mant: self.mant, exp: self.exp }
    }

    /// The sum of two numbers.
    pub fn plus(self, other: Binary, one: u64) -> (r: Binary)
        requires
            1 <= one <= DOUBLE,
            full(self@, one as nat),
            full(other@, one as nat),
            within(self@, FAR as int),
            within(other@, FAR as int),
        ensures
            r@ == sum(self@, other@, one as nat),
            full(r@, one as nat),
            forall|b: int|
                #![trigger within(self@, b), within(other@, b)]
                b >= 0 && within(self@, b) && within(other@, b) ==> within(r@, b + 200),
            r.neg == (exact_sum(self@, other@) < 0),
            (r.mant == 0) == (exact_sum(self@, other@) == 0),
    {
        let (h, l) = if self.exp >= other.exp {
            (self, other)
        } else {
            (other, self)
        };
        let gap: i128 = h.exp - l.exp;
        proof {
            lemma_pow2_values();
            lemma_pow2_pos(gap as nat);
            let p = pow2(gap as nat);
            assert(exact_sum(self@, other@) == signed(h@) * p + signed(l@) * 1) by {
                if self.exp < other.exp {
                    assert(lower(self@, other@) == l.exp);
                } else {
                    assert(lower(self@, other@) == l.exp || gap == 0);
                }
            }
            assert(lower(self@, other@) == l.exp);
        }
        let ghost p = pow2(gap as nat);
        let ghost e = exact_sum(self@, other@);
        if h.mant == 0 {
            proof {
                assert(0 * p == 0) by (nonlinear_arith);
                if l.mant != 0 {
                    lemma_absorbed(l.mant as nat, 0, 0, one as nat);
                    assert(l.mant * pow2(0) == l.mant) by (nonlinear_arith)
                        requires
                            pow2(0) == 1,
                    ;
                }
            }
            return l;
        }
        if l.mant == 0 || gap > 70 {
            proof {
                let rest = if h.neg == l.neg {
                    l.mant as int
                } else {
                    -(l.mant as int)
                };
                if gap > 70 {
                    lemma_pow2_le(71, gap as nat);
                }
                lemma_absorbed(h.mant as nat, gap as nat, rest, one as nat);
                if h.neg {
                    assert(signed(h@) * p == -(h.mant * p)) by (nonlinear_arith)
                        requires
                            signed(h@) == -(h.mant as int),
                    ;
                    assert(e == -(h.mant * p + rest));
                } else {
                    assert(e == h.mant * p + rest);
                }
            }
            return h;
        }
        let mut big: u128 = h.mant as u128;
        let mut i: i128 = 0;
        assert(h.mant * pow2(0) == h.mant) by (nonlinear_arith)
            requires
                pow2(0) == 1,
        ;
        while i < gap
            invariant
                0 <= i <= gap <= 70,
                h.mant < 0x20_0000_0000_0000,
                big == h.mant * pow2(i as nat),
            decreases gap - i,
        {
            proof {
                lemma_pow2_values();
                lemma_pow2_le(i as nat, 71);
                lemma_pow2_unfold((i + 1) as nat);
                let q = pow2(i as nat);
                assert(h.mant * (2 * q) == 2 * (h.mant * q)) by (nonlinear_arith);
                assert(h.mant * q <= 0x20_0000_0000_0000 * 0x80_0000_0000_0000_0000)
                    by (nonlinear_arith)
                    requires
                        h.mant < 0x20_0000_0000_0000,
                        q <= 0x80_0000_0000_0000_0000,
                ;
            }
            big = big * 2;
            i += 1;
        }
        proof {
            lemma_pow2_le(gap as nat, 71);
            assert(h.mant * p <= 0x20_0000_0000_0000 * 0x80_0000_0000_0000_0000)
                by (nonlinear_arith)
                requires
                    h.mant < 0x20_0000_0000_0000,
                    p <= 0x80_0000_0000_0000_0000,
            ;
            if h.neg {
                assert(signed(h@) * p == -(h.mant * p)) by (nonlinear_arith)
                    requires
                        signed(h@) == -(h.mant as int),
                ;
            }
            assert(1 * one == one) by (nonlinear_arith);
        }
        let small: u128 = l.mant as u128;
        if h.neg == l.neg {
            Binary::scaled(h.neg, big + small, 1, l.exp, one)
        } else if big >= small {
            let neg = h.neg && big != small;
            Binary::scaled(neg, big - small, 1, l.exp, one)
        } else {
            Binary::scaled(l.neg, small - big, 1, l.exp, one)
        }
    }

    /// The difference of two numbers.
    pub fn minus(self, other: Binary, one: u64) -> (r: Binary)
        requires
            1 <= one <= DOUBLE,
            full(self@, one as nat),
            full(other@, one as nat),
            within(self@, FAR as int),
            within(other@, FAR as int),
        ensures
            r@ == difference(self@, other@, one as nat),
            full(r@, one as nat),
            forall|b: int|
                #![trigger within(self@, b), within(other@, b)]
                b >= 0 && within(self@, b) && within(other@, b) ==> within(r@, b + 200),
            r.neg == less(self@, other@),
    {
        let n = other.negated();
        proof {
            assert forall|b: int|
                #![trigger within(self@, b), within(other@, b)]
                within(other@, b) implies within(n@, b) by {}
        }
        self.plus(n, one)
    }

    /// Whether one number is less than another.
    pub fn is_less(self, other: Binary, one: u64) -> (r: bool)
        requires
            1 <= one <= DOUBLE,
            full(self@, one as nat),
            full(other@, one as nat),
            within(self@, FAR as int),
            within(other@, FAR as int),
        ensures
            r == less(self@, other@),
    {
        self.minus(other, one).neg
    }

    /// Whether two numbers differ by more than a step.
    pub fn is_apart(self, other: Binary, step: Binary, one: u64) -> (r: bool)
        requires
            1 <= one <= DOUBLE,
            full(self@, one as nat),
            full(other@, one as nat),
            full(step@, one as nat),
            within(self@, 10_000),
            within(other@, 10_000),
            within(step@, 10_000),
        ensures
            r == apart(self@, other@, step@, one as nat),
    {
        let d = self.minus(other, one);
        let size = Binary { neg: false, mant: d.mant, exp: d.exp };
        assert(within(d@, 10_200));
        step.is_less(size, one)
    }

    /// The product of two numbers.
    pub fn times(self, other: Binary, one: u64) -> (r: Binary)
        requires
            1 <= one <= DOUBLE,
            full(self@, one as nat),
            full(other@, one as nat),
            within(self@, FAR as int),
            within(other@, FAR as int),
        ensures
            r@ == product(self@, other@, one as nat),
            full(r@, one as nat),
            forall|b: int|
                #![trigger within(self@, b), within(other@, b)]
                b >= 0 && within(self@, b) && within(other@, b) ==> within(r@, 2 * b + 200),
            (r.mant == 0) == (self.mant == 0 || other.mant == 0),
    {
        let (a, b) = (self.mant, other.mant);
        proof {
            assert(a * b <= 0x20_0000_0000_0000 * 0x20_0000_0000_0000) by (nonlinear_arith)
                requires
                    a <= 0x20_0000_0000_0000u64,
                    b <= 0x20_0000_0000_0000u64,
            ;
            assert(0 <= a * b) by (nonlinear_arith);
            assert(1 * one == one) by (nonlinear_arith);
            let (x, y) = (a as int, b as int);
            assert((-x) * y == -(x * y) && x * (-y) == -(x * y) && (-x) * (-y) == x * y)
                by (nonlinear_arith);
            assert(a == 0 || b == 0 || a * b > 0) by (nonlinear_arith);
            assert(0 * y == 0 && x * 0 == 0) by (nonlinear_arith);
        }
        let n: u128 = a as u128 * b as u128;
        Binary::scaled(self.neg != other.neg && n != 0, n, 1, self.exp + other.exp, one)
    }

    /// The quotient of two numbers, of which the second is positive.
    pub fn over(self, other: Binary, one: u64) -> (r: Binary)
        requires
            1 <= one <= DOUBLE,
            full(self@, one as nat),
            full(other@, one as nat),
            within(self@, FAR as int),
            within(other@, FAR as int),
            other.mant != 0,
        ensures
            r@ == quotient(self@, other@, one as nat),
            full(r@, one as nat),
            forall|b: int|
                #![trigger within(self@, b), within(other@, b)]
                b >= 0 && within(self@, b) && within(other@, b) ==> within(r@, 2 * b + 200),
            (r.mant == 0) == (self.mant == 0),
    {
        let d: u64 = other.mant;
        assert(d * one <= 0x20_0000_0000_0000 * 0x10_0000_0000_0000) by (nonlinear_arith)
            requires
                d <= 0x20_0000_0000_0000u64,
                one <= 0x10_0000_0000_0000u64,
        ;
        Binary::scaled(self.neg, self.mant as u128, d as u128, self.exp - other.exp, one)
    }

    /// The number with a shorter mantissa.
    pub fn narrowed(self, one: u64) -> (r: Binary)
        requires
            1 <= one <= DOUBLE,
            self.mant == 0 ==> !self.neg,
            within(self@, FAR as int),
        ensures
            r@ == narrowed(self@, one as nat),
            full(r@, one as nat),
            forall|b: int| #![trigger within(self@, b)]
                b >= 0 && within(self@, b) ==> within(r@, b + 200),
    {
        assert(1 * one == one) by (nonlinear_arith);
        Binary::scaled(self.neg, self.mant as u128, 1, self.exp, one)
    }

    /// A fraction that stands for the size in parts of which one has `scale`, however
    /// it is rounded.
    fn fraction(self, scale: u64) -> (r: (u128, u128))
        requires
            1 <= scale <= 200_000,
        ensures
            r.1 >= 1,
            rounded(r.0 as nat, r.1 as nat) == parts(self@, scale as nat),
            (r.0 / r.1) as nat == whole_parts(self@, scale as nat),
            round_up(r.0 as nat, r.1 as nat) == parts_above(self@, scale as nat),
    {
        let (m, e) = (self.mant, self.exp);
        proof {
            lemma_pow2_values();
            assert(m * scale <= 0xffff_ffff_ffff_ffff * 200_000) by (nonlinear_arith)
                requires
                    m <= 0xffff_ffff_ffff_ffffu64,
                    scale <= 200_000,
            ;
            assert(0 <= m * scale) by (nonlinear_arith);
        }
        let n: u128 = m as u128 * scale as u128;
        if e >= 0 {
            let mut v: u128 = n;
            let mut i: i128 = 0;
            assert(n * pow2(0) == n) by (nonlinear_arith)
                requires
                    pow2(0) == 1,
            ;
            while i < e
                invariant
                    0 <= i <= e,
                    m == self.mant,
                    e == self.exp,
                    n == m * scale,
                    v == n * pow2(i as nat),
                decreases e - i,
            {
                proof {
                    lemma_pow2_unfold((i + 1) as nat);
                    let q = pow2(i as nat);
                    assert(n * (2 * q) == 2 * (n * q)) by (nonlinear_arith);
                    assert(down(e as int) == 1);
                }
                if v == 0 {
                    proof {
                        lemma_pow2_pos(i as nat);
                        let q = pow2(i as nat);
                        assert(n == 0) by (nonlinear_arith)
                            requires
                                n * q == 0,
                                q > 0,
                        ;
                        assert(0 * up(e as int) == 0) by (nonlinear_arith);
                    }
                    proof {
                        assert(self@.mant * (scale as nat) == 0);
                        assert(self@.mant * (scale as nat) * up(e as int) == 0);
                    }
                    return (0, 1);
                }
                if v > u128::MAX / 2 {
                    proof {
                        let q = pow2((i + 1) as nat);
                        lemma_pow2_le((i + 1) as nat, e as nat);
                        let f = pow2(e as nat);
                        assert(n * f >= n * q) by (nonlinear_arith)
                            requires
                                f >= q,
                                n >= 0,
                        ;
                        assert(n * f > u128::MAX);
                        assert(self@.mant * (scale as nat) == n);
                        let top = self@.mant * (scale as nat) * up(e as int);
                        assert(top == n * f);
                        assert(top / 1 == top && top % 1 == 0);
                    }
                    return (u128::MAX, 1);
                }
                v = v * 2;
                i += 1;
            }
            proof {
                let top = self@.mant * (scale as nat) * up(e as int);
                assert(up(e as int) == pow2(e as nat));
                assert(down(e as int) == 1);
                assert(self@.mant * (scale as nat) == n);
                assert(top == v);
                assert(top / 1 == top && top % 1 == 0);
            }
            (v, 1)
        } else if e < -100 {
            proof {
                lemma_pow2_le(101, (-e) as nat);
                lemma_pow2_adds(71, 30);
                lemma2_to64();
                let f = pow2((-e) as nat);
                assert(n * 1 == n) by (nonlinear_arith);
                lemma_division(n as int, f as int, 0, n as int);
                let top = self@.mant * (scale as nat) * up(e as int);
                assert(self@.mant * (scale as nat) == n);
                assert(up(e as int) == 1 && down(e as int) == f);
                assert(top == n);
                assert(top / f == 0 && top % f == n);
                assert(2 * n < f);
            }
            if n == 0 {
                (0, 1)
            } else {
                (1, 8)
            }
        } else {
            let mut f: u128 = 1;
            let mut i: i128 = 0;
            while i < -e
                invariant
                    0 <= i <= -e <= 100,
                    f == pow2(i as nat),
                decreases -e - i,
            {
                proof {
                    lemma_pow2_values();
                    lemma_pow2_unfold((i + 1) as nat);
                    lemma_pow2_le((i + 1) as nat, 127);
                }
                f = f * 2;
                i += 1;
            }
            proof {
                lemma_pow2_pos((-e) as nat);
                assert(n * 1 == n) by (nonlinear_arith);
                let top = self@.mant * (scale as nat) * up(e as int);
                assert(self@.mant * (scale as nat) == n);
                assert(up(e as int) == 1 && down(e as int) == f);
                assert(top == n);
                let (x, y) = (n as int, f as int);
                assert(0 <= x / y <= x) by (nonlinear_arith)
                    requires
                        x >= 0,
                        y >= 1,
                ;
            }
            (n, f)
        }
    }

    /// The size in parts of which one has `scale`, to the nearest whole part.
    pub fn parts(self, scale: u64) -> (r: u128)
        requires
            1 <= scale <= 200_000,
        ensures
            r as nat == parts(self@, scale as nat),
    {
        let (n, f) = self.fraction(scale);
        round_wide(n, f)
    }

    /// The whole parts of which one has `scale`.
    pub fn whole_parts(self, scale: u64) -> (r: u128)
        requires
            1 <= scale <= 200_000,
        ensures
            r as nat == whole_parts(self@, scale as nat),
    {
        let (n, f) = self.fraction(scale);
        n / f
    }

    /// The least number of whole parts that the number does not exceed.
    pub fn parts_above(self, scale: u64) -> (r: u128)
        requires
            1 <= scale <= 200_000,
        ensures
            r as nat == parts_above(self@, scale as nat),
    {
        let (n, f) = self.fraction(scale);
        if n % f == 0 {
            n / f
        } else {
            n / f + 1
        }
    }
}

// ── Order ────────────────────────────────────────────────────────────────────

/// The mantissa with its sign, as a multiple of two to the power `l`.
pub open spec fn multiple(a: Number, l: int) -> int {
    signed(a) * pow2((a.exp - l) as nat)
}

/// Numbers are ordered as their multiples of a power of two are.
proof fn lemma_less_by_multiples(a: Number, b: Number, l: int)
    requires
        l <= a.exp,
        l <= b.exp,
    ensures
        less(a, b) <==> multiple(a, l) < multiple(b, l),
{
    let n = negated(b);
    let m = lower(a, n);
    assert(signed(n) == -signed(b));
    let (p, q, r) = (
        pow2((a.exp - m) as nat),
        pow2((b.exp - m) as nat),
        pow2((m - l) as nat),
    );
    lemma_pow2_adds((a.exp - m) as nat, (m - l) as nat);
    lemma_pow2_adds((b.exp - m) as nat, (m - l) as nat);
    lemma_pow2_pos((m - l) as nat);
    let (x, y) = (signed(a), signed(b));
    assert((-y) * q == -(y * q)) by (nonlinear_arith);
    assert(x * (p * r) == (x * p) * r && y * (q * r) == (y * q) * r) by (nonlinear_arith);
    let (u, v) = (x * p, y * q);
    assert(u < v <==> u * r < v * r) by (nonlinear_arith)
        requires
            r > 0,
    ;
}

/// The least of three powers of two.
spec fn lowest(a: Number, b: Number, c: Number) -> int {
    if lower(a, b) <= c.exp {
        lower(a, b)
    } else {
        c.exp
    }
}

/// The order of numbers is total: what is not less than a number, which is not less
/// than a third, is not less than the third.
pub proof fn lemma_order(a: Number, b: Number, c: Number)
    ensures
        !less(a, a),
        less(a, b) ==> !less(b, a),
        !less(a, b) && !less(b, c) ==> !less(a, c),
{
    let l = lowest(a, b, c);
    lemma_less_by_multiples(a, a, l);
    lemma_less_by_multiples(a, b, l);
    lemma_less_by_multiples(b, a, l);
    lemma_less_by_multiples(b, c, l);
    lemma_less_by_multiples(a, c, l);
}

/// What has no sign is not less than zero.
pub proof fn lemma_not_below_zero(a: Number)
    requires
        !a.neg,
    ensures
        !less(a, single(0, 1)),
{
    let z = negated(single(0, 1));
    let p = pow2((a.exp - lower(a, z)) as nat);
    let q = pow2((z.exp - lower(a, z)) as nat);
    let m = a.mant;
    assert(m * p >= 0) by (nonlinear_arith)
        requires
            m >= 0,
            p >= 0,
    ;
    assert(0 * q == 0) by (nonlinear_arith);
}

// ── Numbers and fractions ────────────────────────────────────────────────────

/// The value of a number, mantissa times power of two, is greater than `n / d`.
pub open spec fn exceeds(a: Number, n: int, d: int) -> bool {
    let m = if a.neg {
        -(a.mant as int)
    } else {
        a.mant as int
    };
    if a.exp >= 0 {
        m * pow2(a.exp as nat) * d > n
    } else {
        m * d > n * pow2((-a.exp) as nat)
    }
}

/// The value of a number, mantissa times power of two, is less than `n / d`.
pub open spec fn falls_short(a: Number, n: int, d: int) -> bool {
    let m = if a.neg {
        -(a.mant as int)
    } else {
        a.mant as int
    };
    if a.exp >= 0 {
        m * pow2(a.exp as nat) * d < n
    } else {
        m * d < n * pow2((-a.exp) as nat)
    }
}

/// A power of two as a multiple of a lesser one.
proof fn lemma_shift(k: int, l: int)
    requires
        l <= k,
        l <= 0,
    ensures
        up(k) * pow2((-l) as nat) == pow2((k - l) as nat) * down(k),
        pow2((k - l) as nat) >= 1,
        pow2((-l) as nat) >= 1,
        up(k) >= 1,
        down(k) >= 1,
{
    lemma_pow2_values();
    lemma_pow2_pos((k - l) as nat);
    lemma_pow2_pos((-l) as nat);
    if k > 0 {
        lemma_pow2_adds(k as nat, (-l) as nat);
        lemma_pow2_pos(k as nat);
        let p = pow2((k - l) as nat);
        assert(p * 1 == p) by (nonlinear_arith);
    } else {
        lemma_pow2_adds((k - l) as nat, (-k) as nat);
        let q = pow2((-l) as nat);
        assert(1 * q == q) by (nonlinear_arith);
        if k < 0 {
            lemma_pow2_pos((-k) as nat);
        } else {
            assert(pow2((k - l) as nat) * 1 == pow2((k - l) as nat)) by (nonlinear_arith);
        }
    }
}

/// A number compared with a fraction, both as multiples of a power of two.
proof fn lemma_exceeds(a: Number, n: int, d: int, l: int)
    requires
        l <= a.exp,
        l <= 0,
    ensures
        exceeds(a, n, d) <==> multiple(a, l) * d > n * pow2((-l) as nat),
        falls_short(a, n, d) <==> multiple(a, l) * d < n * pow2((-l) as nat),
{
    let m = signed(a);
    lemma_shift(a.exp, l);
    let (p, q) = (pow2((a.exp - l) as nat), pow2((-l) as nat));
    if a.exp >= 0 {
        let u = pow2(a.exp as nat);
        lemma_pow2_adds(a.exp as nat, (-l) as nat);
        lemma_pow2_pos(a.exp as nat);
        assert(p == u * q);
        assert((m * (u * q)) * d == (m * u * d) * q) by (nonlinear_arith);
        let x = m * u * d;
        assert((x > n <==> x * q > n * q) && (x < n <==> x * q < n * q)) by (nonlinear_arith)
            requires
                q >= 1,
        ;
    } else {
        let v = pow2((-a.exp) as nat);
        lemma_pow2_adds((a.exp - l) as nat, (-a.exp) as nat);
        lemma_pow2_pos((-a.exp) as nat);
        assert(q == p * v);
        assert((m * p) * d == (m * d) * p && n * (p * v) == (n * v) * p) by (nonlinear_arith);
        let (x, y) = (m * d, n * v);
        assert((x > y <==> x * p > y * p) && (x < y <==> x * p < y * p)) by (nonlinear_arith)
            requires
                p >= 1,
        ;
    }
}

/// Some power of two leaves a number with a full mantissa.
proof fn lemma_power_exists(n: nat, d: nat, one: nat) -> (k: int)
    requires
        n > 0,
        d > 0,
        one > 0,
    ensures
        fits(n, d, one, k),
{
    let b = d * one;
    assert(b > 0) by (nonlinear_arith)
        requires
            b == d * one,
            d > 0,
            one > 0,
    ;
    lemma_pow2_values();
    if n >= b {
        assert(b * pow2(0) == b) by (nonlinear_arith)
            requires
                pow2(0) == 1,
        ;
        let j = lemma_power_above(n, b, 0);
        lemma_pow2_values();
        assert(up(j as int) == pow2(j) && down(j as int) == 1);
        assert(n * 1 == n) by (nonlinear_arith);
        j as int
    } else {
        assert(n * pow2(0) == n) by (nonlinear_arith)
            requires
                pow2(0) == 1,
        ;
        let j = lemma_power_below(n, b, 0);
        assert(up(-(j as int)) == 1);
        assert(down(-(j as int)) == pow2(j));
        assert(b * 1 == b) by (nonlinear_arith);
        -(j as int)
    }
}

/// Doubling `b` reaches a half of `n` at some time.
proof fn lemma_power_above(n: nat, b: nat, j: nat) -> (r: nat)
    requires
        b > 0,
        b * pow2(j) <= n,
    ensures
        b * pow2(r) <= n < 2 * (b * pow2(r)),
    decreases n - b * pow2(j),
{
    lemma_pow2_unfold(j + 1);
    lemma_pow2_pos(j);
    let p = pow2(j);
    assert(b * (2 * p) == 2 * (b * p)) by (nonlinear_arith);
    assert(b * p > 0) by (nonlinear_arith)
        requires
            b > 0,
            p > 0,
    ;
    if 2 * (b * p) <= n {
        lemma_power_above(n, b, j + 1)
    } else {
        j
    }
}

/// Doubling `n` reaches `b` at some time.
proof fn lemma_power_below(n: nat, b: nat, j: nat) -> (r: nat)
    requires
        n > 0,
        n * pow2(j) < b,
    ensures
        b <= n * pow2(r) < 2 * b,
        r > j,
    decreases b - n * pow2(j),
{
    lemma_pow2_unfold(j + 1);
    lemma_pow2_pos(j);
    let p = pow2(j);
    assert(n * (2 * p) == 2 * (n * p)) by (nonlinear_arith);
    assert(n * p > 0) by (nonlinear_arith)
        requires
            n > 0,
            p > 0,
    ;
    if n * pow2(j + 1) < b {
        lemma_power_below(n, b, j + 1)
    } else {
        j + 1
    }
}

/// The number nearest to a positive fraction, as a multiple of a power of two.
proof fn lemma_ratio_multiple(n: nat, d: nat, one: nat, l: int) -> (r: (int, nat))
    requires
        n > 0,
        d > 0,
        one > 0,
        l <= 0,
        l <= power_of(n, d, one),
    ensures
        r.0 == power_of(n, d, one),
        fits(n, d, one, r.0),
        r.1 == rounded(n * down(r.0), d * up(r.0)),
        one <= r.1 <= 2 * one,
        !ratio(n as int, d, one).neg,
        ratio(n as int, d, one).mant > 0,
        l <= ratio(n as int, d, one).exp,
        multiple(ratio(n as int, d, one), l) == r.1 * pow2((r.0 - l) as nat),
        d * one * pow2((r.0 - l) as nat) <= n * pow2((-l) as nat) < 2 * (d * one * pow2(
            (r.0 - l) as nat,
        )),
{
    let k0 = lemma_power_exists(n, d, one);
    lemma_power_of(n, d, one, k0);
    let k = power_of(n, d, one);
    let m = rounded(n * down(k), d * up(k));
    lemma_shift(k, l);
    let (u, v) = (up(k), down(k));
    let (p, q) = (pow2((k - l) as nat), pow2((-l) as nat));
    assert(one * (d * u) == d * one * u) by (nonlinear_arith);
    assert(d * u > 0) by (nonlinear_arith)
        requires
            d > 0,
            u >= 1,
    ;
    lemma_rounded_mantissa(n * v, d * u, one);
    let t = ratio(n as int, d, one);
    assert(size(n as int) == n);
    if m == 2 * one {
        lemma_pow2_unfold((k + 1 - l) as nat);
        assert(one * (2 * p) == (2 * one) * p) by (nonlinear_arith);
    }
    let x = d * one;
    assert(x * p <= n * q < 2 * (x * p)) by (nonlinear_arith)
        requires
            x * u <= n * v,
            n * v < 2 * (x * u),
            u * q == p * v,
            u >= 1,
            v >= 1,
            p >= 1,
            q >= 1,
    {
        assert((x * u) * q <= (n * v) * q);
        assert((x * u) * q == x * (u * q));
        assert(x * (p * v) == (x * p) * v);
        assert((n * v) * q == (n * q) * v);
        assert((x * p) * v <= (n * q) * v);
        assert(x * p <= n * q);
        assert((n * v) * q < (2 * (x * u)) * q);
        assert((2 * (x * u)) * q == (2 * (x * p)) * v);
        assert((n * q) * v < (2 * (x * p)) * v);
    }
    (k, m)
}

/// A quotient that is rounded lies between the whole numbers about it.
proof fn lemma_rounded_between(a: nat, b: nat, m: nat)
    requires
        b > 0,
    ensures
        m * b <= a ==> m <= rounded(a, b),
        a <= m * b ==> rounded(a, b) <= m,
{
    let (q, r) = (a / b, a % b);
    assert(a == q * b + r && 0 <= r < b) by (nonlinear_arith)
        requires
            b > 0,
            q == a / b,
            r == a % b,
    ;
    if m * b <= a {
        assert(m <= q) by (nonlinear_arith)
            requires
                m * b <= q * b + r,
                r < b,
                b > 0,
        ;
    }
    if a <= m * b {
        if r == 0 {
            assert(q <= m) by (nonlinear_arith)
                requires
                    q * b <= m * b,
                    b > 0,
            ;
        } else {
            assert(q < m) by (nonlinear_arith)
                requires
                    q * b + r <= m * b,
                    r > 0,
                    b > 0,
            ;
        }
    }
}

/// Rounding keeps the order: a number with a full mantissa that is at most a fraction
/// is at most the number that stands for the fraction, and one that is at least the
/// fraction is at least that number.
pub proof fn law_rounding_keeps_the_order(a: Number, n: int, d: nat, one: nat)
    requires
        n >= 0,
        d > 0,
        one > 0,
        full(a, one),
    ensures
        !exceeds(a, n, d as int) ==> !less(ratio(n, d, one), a),
        !falls_short(a, n, d as int) ==> !less(a, ratio(n, d, one)),
{
    let t = ratio(n, d, one);
    if n == 0 {
        lemma_against_zero(a, d, one);
    } else {
        let k0 = lemma_power_exists(n as nat, d, one);
        lemma_power_of(n as nat, d, one, k0);
        let k = k0;
        let l = if a.exp <= k {
            if a.exp <= 0 {
                a.exp
            } else {
                0
            }
        } else if k <= 0 {
            k
        } else {
            0
        };
        let (_, m) = lemma_ratio_multiple(n as nat, d, one, l);
        lemma_exceeds(a, n, d as int, l);
        lemma_less_by_multiples(t, a, l);
        lemma_less_by_multiples(a, t, l);
        lemma_shift(k, l);
        lemma_shift(a.exp, l);
        let (p, q, w) = (
            pow2((k - l) as nat),
            pow2((-l) as nat),
            pow2((a.exp - l) as nat),
        );
        let x = signed(a);
        let y = d as int;
        let o = one as int;
        let f = m as int;
        assert(multiple(a, l) == x * w);
        assert(f * p >= 0) by (nonlinear_arith)
            requires
                f >= 0,
                p >= 1,
        ;
        if x <= 0 {
            assert(x * w <= 0) by (nonlinear_arith)
                requires
                    x <= 0,
                    w >= 1,
            ;
            assert((x * w) * y <= 0) by (nonlinear_arith)
                requires
                    x * w <= 0,
                    y > 0,
            ;
            assert(n * q > 0) by (nonlinear_arith)
                requires
                    n > 0,
                    q >= 1,
            ;
        } else if a.exp < k {
            lemma_pow2_adds((a.exp - l) as nat, (k - a.exp) as nat);
            lemma_pow2_le(1, (k - a.exp) as nat);
            lemma_pow2_values();
            let g = pow2((k - a.exp) as nat);
            assert(x * w < f * p && (x * w) * y < y * o * p) by (nonlinear_arith)
                requires
                    x < 2 * o,
                    o <= f,
                    p == w * g,
                    g >= 2,
                    w >= 1,
                    y >= 1,
                    x > 0,
                    o > 0,
            {
                assert(w * g >= 2 * w);
                assert(o * p >= o * (2 * w));
                assert(x * w < (2 * o) * w);
                assert((2 * o) * w == o * (2 * w));
                assert(f * p >= o * p);
                assert((x * w) * y < (o * p) * y);
                assert((o * p) * y == y * o * p);
            }
        } else if a.exp > k {
            lemma_pow2_adds((k - l) as nat, (a.exp - k) as nat);
            lemma_pow2_le(1, (a.exp - k) as nat);
            lemma_pow2_values();
            let g = pow2((a.exp - k) as nat);
            assert(x * w >= f * p && (x * w) * y >= 2 * (y * o * p)) by (nonlinear_arith)
                requires
                    x >= o,
                    f <= 2 * o,
                    w == p * g,
                    g >= 2,
                    p >= 1,
                    y >= 1,
                    o > 0,
            {
                assert(p * g >= 2 * p);
                assert(x * w >= o * w);
                assert(o * w >= o * (2 * p));
                assert(o * (2 * p) == (2 * o) * p);
                assert((2 * o) * p >= f * p);
                assert((x * w) * y >= ((2 * o) * p) * y);
                assert(((2 * o) * p) * y == 2 * (y * o * p));
            }
        } else {
            let (u, v) = (up(k), down(k));
            let c = (n as nat) * v;
            let b = d * u;
            assert(b > 0) by (nonlinear_arith)
                requires
                    b == d * u,
                    d > 0,
                    u >= 1,
            ;
            lemma_rounded_between(c, b, x as nat);
            assert((x * w) * y <= n * q <==> x * (y * u) <= n * v) by (nonlinear_arith)
                requires
                    w == p,
                    u * q == p * v,
                    v >= 1,
                    q >= 1,
            {
                assert(((x * p) * y) * v == (x * y) * (p * v));
                assert((x * y) * (u * q) == (x * (y * u)) * q);
                assert((n * q) * v == (n * v) * q);
                assert((x * p) * y <= n * q <==> ((x * p) * y) * v <= (n * q) * v);
                assert(x * (y * u) <= n * v <==> (x * (y * u)) * q <= (n * v) * q);
            }
            assert((x * w) * y >= n * q <==> x * (y * u) >= n * v) by (nonlinear_arith)
                requires
                    w == p,
                    u * q == p * v,
                    v >= 1,
                    q >= 1,
            {
                assert(((x * p) * y) * v == (x * y) * (p * v));
                assert((x * y) * (u * q) == (x * (y * u)) * q);
                assert((n * q) * v == (n * v) * q);
                assert((x * p) * y >= n * q <==> ((x * p) * y) * v >= (n * q) * v);
                assert(x * (y * u) >= n * v <==> (x * (y * u)) * q >= (n * v) * q);
            }
            assert(x * w <= f * p <==> x <= f) by (nonlinear_arith)
                requires
                    w == p,
                    p >= 1,
            ;
            assert(x * w >= f * p <==> x >= f) by (nonlinear_arith)
                requires
                    w == p,
                    p >= 1,
            ;
        }
    }
}

/// The order of a number and zero.
proof fn lemma_against_zero(a: Number, d: nat, one: nat)
    requires
        d > 0,
    ensures
        ratio(0, d, one) == (Number { neg: false, mant: 0, exp: 0 }),
        exceeds(a, 0, d as int) <==> less(ratio(0, d, one), a),
        falls_short(a, 0, d as int) <==> less(a, ratio(0, d, one)),
{
    let z = ratio(0, d, one);
    let l = if a.exp <= 0 {
        a.exp
    } else {
        0
    };
    lemma_exceeds(a, 0, d as int, l);
    lemma_less_by_multiples(z, a, l);
    lemma_less_by_multiples(a, z, l);
    let q = pow2((-l) as nat);
    assert(0 * q == 0) by (nonlinear_arith);
    let (x, y) = (multiple(a, l), d as int);
    assert((x > 0 <==> x * y > 0) && (x < 0 <==> x * y < 0)) by (nonlinear_arith)
        requires
            y > 0,
    ;
}

/// Two numbers with full mantissas of which neither is less than the other are the same.
pub proof fn lemma_same_number(a: Number, b: Number, one: nat)
    requires
        one > 0,
        full(a, one),
        full(b, one),
        !less(a, b),
        !less(b, a),
    ensures
        a == b,
{
    let l = if a.exp <= b.exp {
        a.exp
    } else {
        b.exp
    };
    lemma_less_by_multiples(a, b, l);
    lemma_less_by_multiples(b, a, l);
    lemma_pow2_values();
    let (p, q) = (pow2((a.exp - l) as nat), pow2((b.exp - l) as nat));
    lemma_pow2_pos((a.exp - l) as nat);
    lemma_pow2_pos((b.exp - l) as nat);
    let (x, y) = (signed(a), signed(b));
    let o = one as int;
    assert(x * p == y * q);
    assert((x == 0 <==> x * p == 0) && (x > 0 <==> x * p > 0)) by (nonlinear_arith)
        requires
            p > 0,
    ;
    assert((y == 0 <==> y * q == 0) && (y > 0 <==> y * q > 0)) by (nonlinear_arith)
        requires
            q > 0,
    ;
    if x == 0 {
    } else if a.exp < b.exp {
        lemma_pow2_le(1, (b.exp - l) as nat);
        let (u, v) = (a.mant as int, b.mant as int);
        assert(u == v * q) by (nonlinear_arith)
            requires
                x * p == y * q,
                p == 1,
                (x == u && y == v) || (x == -u && y == -v),
        ;
        assert(v * q >= 2 * o) by (nonlinear_arith)
            requires
                v >= o,
                q >= 2,
                o > 0,
        ;
    } else if b.exp < a.exp {
        lemma_pow2_le(1, (a.exp - l) as nat);
        let (u, v) = (a.mant as int, b.mant as int);
        assert(u * p == v) by (nonlinear_arith)
            requires
                x * p == y * q,
                q == 1,
                (x == u && y == v) || (x == -u && y == -v),
        ;
        assert(u * p >= 2 * o) by (nonlinear_arith)
            requires
                u >= o,
                p >= 2,
                o > 0,
        ;
    } else {
        assert(x == y) by (nonlinear_arith)
            requires
                x * p == y * q,
                p == q,
                p > 0,
        ;
    }
}

/// A number of single precision against a limit that is given as a fraction. The one
/// number that stands for the limit counts as equal to it, on whichever side it lies.
pub proof fn law_limits_compare_by_value(a: Number, n: int, d: nat)
    requires
        n >= 0,
        d > 0,
        full(a, SINGLE as nat),
    ensures
        !exceeds(a, n, d as int) ==> !less(single(n, d), a),
        !falls_short(a, n, d as int) ==> !less(a, single(n, d)),
        exceeds(a, n, d as int) && a != single(n, d) ==> less(single(n, d), a),
        falls_short(a, n, d as int) && a != single(n, d) ==> less(a, single(n, d)),
        a == single(n, d) ==> !less(single(n, d), a) && !less(a, single(n, d)),
{
    let t = single(n, d);
    let one = SINGLE as nat;
    law_rounding_keeps_the_order(a, n, d, one);
    lemma_order(t, t, t);
    let l = if a.exp <= 0 {
        a.exp
    } else {
        0
    };
    lemma_exceeds(a, n, d as int, l);
    if n == 0 {
        lemma_against_zero(a, d, one);
    } else {
        let k = lemma_power_exists(n as nat, d, one);
        lemma_power_of(n as nat, d, one, k);
        let (_, _) = lemma_ratio_multiple(
            n as nat,
            d,
            one,
            if k <= 0 {
                k
            } else {
                0
            },
        );
    }
    assert(full(t, one));
    if a != t && !less(t, a) && !less(a, t) {
        lemma_same_number(a, t, one);
    }
}

// ── Single precision ─────────────────────────────────────────────────────────

/// A number of single precision. One that is too great is the greatest there is, and
/// one that is too small is zero.
#[derive(Debug, Clone, Copy, PartialEq, Eq)]
pub struct Single {
    held: Binary,
}

/// A number within the range of single precision.
pub open spec fn ranged(a: Number) -> Number {
    if a.exp > 10_000 {
        Number { neg: a.neg, mant: (2 * SINGLE - 1) as nat, exp: 10_000 }
    } else if a.exp < -10_000 {
        Number { neg: false, mant: 0, exp: 0 }
    } else {
        a
    }
}

/// The sum of two numbers of single precision.
pub open spec fn single_sum(a: Number, b: Number) -> Number {
    ranged(sum(a, b, SINGLE as nat))
}

/// The difference of two numbers of single precision.
pub open spec fn single_difference(a: Number, b: Number) -> Number {
    ranged(difference(a, b, SINGLE as nat))
}

/// The product of two numbers of single precision.
pub open spec fn single_product(a: Number, b: Number) -> Number {
    ranged(product(a, b, SINGLE as nat))
}

/// The quotient of two numbers of single precision.
pub open spec fn single_quotient(a: Number, b: Number) -> Number {
    ranged(quotient(a, b, SINGLE as nat))
}

/// The numbers that a list holds.
pub open spec fn numbers_of(s: Seq<Single>) -> Seq<Number> {
    Seq::new(s.len(), |i: int| s[i]@)
}

impl View for Single {
    type V = Number;

    closed spec fn view(&self) -> Number {
        self.held@
    }
}

impl Single {
    #[verifier::type_invariant]
    closed spec fn well_formed(self) -> bool {
        is_single(self.held@)
    }

    /// A number that is brought into range.
    fn ranged(b: Binary) -> (r: Single)
        requires
            full(b@, SINGLE as nat),
        ensures
            r@ == ranged(b@),
            is_single(b@) ==> r@ == b@,
    {
        let held = if b.exp > 10_000 {
            Binary { neg: b.neg, mant: 2 * SINGLE - 1, exp: 10_000 }
        } else if b.exp < -10_000 {
            Binary::zero()
        } else {
            b
        };
        Single { held }
    }

    /// A number that is held already.
    pub fn held(b: Binary) -> (r: Single)
        requires
            is_single(b@),
        ensures
            r@ == b@,
    {
        Single { held: b }
    }

    /// The number as it is held.
    pub fn get(&self) -> (r: Binary)
        ensures
            r@ == self@,
            is_single(r@),
    {
        proof {
            use_type_invariant(self);
        }
        self.held
    }

    /// The number nearest to `n / d`.
    pub fn of(n: i64, d: u64) -> (r: Single)
        requires
            0 < d,
        ensures
            r@ == single(n as int, d as nat),
    {
        let b = Binary::signed_single(n, d);
        assert(within(b@, 10_000));
        Single::ranged(b)
    }

    /// The number nearest to a whole number.
    pub fn whole(n: u64) -> (r: Single)
        ensures
            r@ == single(n as int, 1),
            (r@.mant == 0) == (n == 0),
    {
        let b = Binary::single(n, 1);
        assert(within(b@, 10_000));
        Single::ranged(b)
    }

    /// The sum of two numbers.
    pub fn plus(self, other: Single) -> (r: Single)
        ensures
            r@ == single_sum(self@, other@),
    {
        let (a, b) = (self.get(), other.get());
        Single::ranged(a.plus(b, SINGLE))
    }

    /// The difference of two numbers.
    pub fn minus(self, other: Single) -> (r: Single)
        ensures
            r@ == single_difference(self@, other@),
    {
        let (a, b) = (self.get(), other.get());
        Single::ranged(a.minus(b, SINGLE))
    }

    /// The product of two numbers.
    pub fn times(self, other: Single) -> (r: Single)
        ensures
            r@ == single_product(self@, other@),
    {
        let (a, b) = (self.get(), other.get());
        Single::ranged(a.times(b, SINGLE))
    }

    /// The quotient of two numbers, of which the second is positive.
    pub fn over(self, other: Single) -> (r: Single)
        requires
            other@.mant != 0,
        ensures
            r@ == single_quotient(self@, other@),
    {
        let (a, b) = (self.get(), other.get());
        Single::ranged(a.over(b, SINGLE))
    }

    /// Whether one number is less than another.
    pub fn is_less(self, other: Single) -> (r: bool)
        ensures
            r == less(self@, other@),
    {
        let (a, b) = (self.get(), other.get());
        a.is_less(b, SINGLE)
    }
}

// ── How far calculations stray ───────────────────────────────────────────────

/// The value of a number is `n / d` but for at most `e` parts in 2^24.
pub open spec fn near(a: Number, n: int, d: int, e: int) -> bool {
    &&& !a.neg
    &&& !exceeds(a, n * (0x100_0000 + e), d * 0x100_0000)
    &&& !falls_short(a, n * (0x100_0000 - e), d * 0x100_0000)
}

/// A product of greater factors is greater.
proof fn lemma_mul_le(a: int, b: int, c: int, d: int)
    requires
        0 <= a <= b,
        0 <= c <= d,
    ensures
        a * c <= b * d,
        0 <= a * c,
{
    assert(a * c <= b * d && 0 <= a * c) by (nonlinear_arith)
        requires
            0 <= a <= b,
            0 <= c <= d,
    ;
}

/// A common factor can be left out.
proof fn lemma_cancel(a: int, b: int, c: int)
    requires
        c > 0,
        a * c <= b * c,
    ensures
        a <= b,
{
    assert(a <= b) by (nonlinear_arith)
        requires
            c > 0,
            a * c <= b * c,
    ;
}

/// The power of two of a fraction of 64-bit numbers is small.
proof fn lemma_power_is_small(n: nat, d: nat, k: int)
    requires
        0 < n <= 0xffff_ffff_ffff_ffff,
        0 < d <= 0xffff_ffff_ffff_ffff,
        fits(n, d, SINGLE as nat, k),
    ensures
        -90 <= k <= 64,
{
    lemma_pow2_values();
    let one = SINGLE as nat;
    let x = d * one;
    assert(x >= 1 && x <= 0xffff_ffff_ffff_ffff * 0x80_0000) by (nonlinear_arith)
        requires
            x == d * one,
            0 < d <= 0xffff_ffff_ffff_ffff,
            one == 0x80_0000,
    ;
    if k > 64 {
        lemma_pow2_le(64, k as nat);
        lemma2_to64();
        let u = up(k);
        assert(x * u >= u) by (nonlinear_arith)
            requires
                x >= 1,
                u >= 0,
        ;
        assert(n * 1 == n) by (nonlinear_arith);
    }
    if k < -90 {
        lemma_pow2_le(91, (-k) as nat);
        lemma_pow2_adds(71, 20);
        lemma2_to64();
        let v = down(k);
        assert(n * v >= v) by (nonlinear_arith)
            requires
                n >= 1,
                v >= 0,
        ;
        assert(x * 1 == x) by (nonlinear_arith);
    }
}

/// A quotient that is rounded strays by half a unit at most.
proof fn lemma_rounded_close(a: nat, b: nat)
    requires
        b > 0,
    ensures
        2 * (rounded(a, b) * b) <= 2 * a + b,
        2 * (rounded(a, b) * b) + b >= 2 * a,
{
    let (q, r) = (a / b, a % b);
    assert(a == q * b + r && 0 <= r < b) by (nonlinear_arith)
        requires
            b > 0,
            q == a / b,
            r == a % b,
    ;
    assert((q + 1) * b == q * b + b) by (nonlinear_arith);
}

/// A rounded number as a multiple of a power of two strays by one part in 2^24.
proof fn lemma_scaled_close(n: nat, d: nat, e: int, l: int)
    requires
        0 < n <= 0xffff_ffff_ffff_ffff,
        0 < d <= 0xffff_ffff_ffff_ffff,
        l <= e - 100,
    ensures
        ({
            let r = scaled(n as int, d, e, SINGLE as nat);
            let z = pow2((e - l) as nat);
            &&& !r.neg
            &&& SINGLE <= r.mant < 2 * SINGLE
            &&& e - 90 <= r.exp <= e + 65
            &&& multiple(r, l) > 0
            &&& multiple(r, l) * d * 0x100_0000 <= n * z * 0x100_0001
            &&& multiple(r, l) * d * 0x100_0000 >= n * z * 0xff_ffff
        }),
{
    let one = SINGLE as nat;
    let k0 = lemma_power_exists(n, d, one);
    lemma_power_of(n, d, one, k0);
    lemma_power_is_small(n, d, k0);
    let k = k0;
    let j = e - l;
    lemma_shift(k, -j);
    let (u, v) = (up(k) as int, down(k) as int);
    let (z, p) = (pow2(j as nat) as int, pow2((k + j) as nat) as int);
    let m = rounded(n * down(k), d * up(k));
    let (nn, dd) = (n as int, d as int);
    assert(d * up(k) > 0) by (nonlinear_arith)
        requires
            d > 0,
            up(k) >= 1,
    ;
    assert(one * (d * up(k)) == d * one * up(k)) by (nonlinear_arith);
    lemma_rounded_mantissa(n * down(k), d * up(k), one);
    lemma_rounded_close(n * down(k), d * up(k));
    let r = scaled(n as int, d, e, one);
    assert(size(n as int) == n);
    let mm = m as int;
    if m == 2 * one {
        lemma_pow2_unfold((k + 1 + j) as nat);
        assert(one * (2 * p) == mm * p) by (nonlinear_arith)
            requires
                mm == 2 * one,
        ;
    }
    assert(multiple(r, l) == mm * p);
    let x = nn * v;
    let y = dd * u;
    assert(0x80_0000 * y <= x) by (nonlinear_arith)
        requires
            dd * 0x80_0000 * u <= nn * v,
            x == nn * v,
            y == dd * u,
    ;
    assert(2 * (mm * y) <= 2 * x + y && 2 * (mm * y) + y >= 2 * x);
    assert(mm * y * 0x100_0000 <= x * 0x100_0001 && mm * y * 0x100_0000 >= x * 0xff_ffff)
        by (nonlinear_arith)
        requires
            2 * (mm * y) <= 2 * x + y,
            2 * (mm * y) + y >= 2 * x,
            0x80_0000 * y <= x,
    ;
    let big = mm * p * dd * 0x100_0000;
    assert(big * v == (mm * y * 0x100_0000) * z) by (nonlinear_arith)
        requires
            u * z == p * v,
            y == dd * u,
            big == mm * p * dd * 0x100_0000,
    ;
    assert((nn * z * 0x100_0001) * v == (x * 0x100_0001) * z) by (nonlinear_arith)
        requires
            x == nn * v,
    ;
    assert((nn * z * 0xff_ffff) * v == (x * 0xff_ffff) * z) by (nonlinear_arith)
        requires
            x == nn * v,
    ;
    assert((mm * y * 0x100_0000) * z <= (x * 0x100_0001) * z && (mm * y * 0x100_0000) * z >= (x
        * 0xff_ffff) * z) by (nonlinear_arith)
        requires
            mm * y * 0x100_0000 <= x * 0x100_0001,
            mm * y * 0x100_0000 >= x * 0xff_ffff,
            z >= 1,
    ;
    lemma_cancel(big, nn * z * 0x100_0001, v);
    lemma_cancel(nn * z * 0xff_ffff, big, v);
    assert(mm * p > 0) by (nonlinear_arith)
        requires
            mm > 0,
            p >= 1,
    ;
}

/// What `near` says, as a comparison of multiples.
proof fn lemma_near(a: Number, n: int, d: int, e: int, l: int)
    requires
        l <= a.exp,
        l <= 0,
        !a.neg,
    ensures
        near(a, n, d, e) <==> {
            &&& multiple(a, l) * (d * 0x100_0000) <= (n * (0x100_0000 + e)) * pow2((-l) as nat)
            &&& multiple(a, l) * (d * 0x100_0000) >= (n * (0x100_0000 - e)) * pow2((-l) as nat)
        },
{
    lemma_exceeds(a, n * (0x100_0000 + e), d * 0x100_0000, l);
    lemma_exceeds(a, n * (0x100_0000 - e), d * 0x100_0000, l);
}

/// A fraction in single precision is near to the fraction.
pub proof fn law_fractions_are_near(n: u64, d: u64)
    requires
        n > 0,
        d > 0,
    ensures
        near(single(n as int, d as nat), n as int, d as int, 1),
        full(single(n as int, d as nat), SINGLE as nat),
        within(single(n as int, d as nat), 100),
        single(n as int, d as nat).mant > 0,
{
    let l = -200;
    lemma_scaled_close(n as nat, d as nat, 0, l);
    let r = single(n as int, d as nat);
    lemma_near(r, n as int, d as int, 1, l);
    let (m, q) = (multiple(r, l), pow2(200) as int);
    let (x, y) = (n as int, d as int);
    assert(m * (y * 0x100_0000) == m * y * 0x100_0000 && (x * 0x100_0001) * q == x * q * 0x100_0001
        && (x * 0xff_ffff) * q == x * q * 0xff_ffff) by (nonlinear_arith);
}

/// The factors of a product can be taken in any order.
proof fn lemma_same_product(a: int, b: int, c: int, d: int, e: int)
    ensures
        ((a * b) * c) * ((d * e) * c) == ((a * d) * (c * c)) * (b * e),
{
    assert(((a * b) * c) * ((d * e) * c) == ((a * d) * (c * c)) * (b * e)) by (nonlinear_arith);
}

/// The factors of a product can be taken in any order.
proof fn lemma_same_product_left(a: int, b: int, c: int, d: int, e: int, f: int)
    ensures
        ((a * b) * (c * b)) * ((d * e) * f) == ((a * ((c * d) * b)) * b * f) * e,
{
    let (p, q) = (a * c, b * b);
    assert((a * b) * (c * b) == p * q) by (nonlinear_arith)
        requires
            p == a * c,
            q == b * b,
    ;
    assert((p * q) * ((d * e) * f) == ((p * d) * (q * f)) * e) by (nonlinear_arith);
    assert((a * ((c * d) * b)) * b == (p * d) * q) by (nonlinear_arith)
        requires
            p == a * c,
            q == b * b,
    ;
    assert(((p * d) * q) * f == (p * d) * (q * f)) by (nonlinear_arith);
}

/// The factors of a product can be taken in any order.
proof fn lemma_same_product_right(a: int, b: int, c: int, d: int, e: int, f: int)
    ensures
        ((a * b) * c) * (d * (e * f)) == ((a * e) * d * f * c) * b,
{
    assert(((a * b) * c) * (d * (e * f)) == ((a * e) * d * f * c) * b) by (nonlinear_arith);
}

/// The factors of a product can be taken in any order.
proof fn lemma_same_product_both(a: int, b: int, c: int, d: int, e: int, f: int)
    ensures
        (a * b * c * d) * (e * f) == (((a * e) * b) * f) * (c * d),
{
    assert((a * b * c * d) * (e * f) == (((a * e) * b) * f) * (c * d)) by (nonlinear_arith);
}

/// A product in single precision is near to the product: the parts by which the factors
/// stray add up.
pub proof fn law_products_are_near(
    a: Number,
    n1: int,
    d1: int,
    e1: int,
    b: Number,
    n2: int,
    d2: int,
    e2: int,
)
    requires
        near(a, n1, d1, e1),
        near(b, n2, d2, e2),
        n1 > 0,
        d1 > 0,
        n2 > 0,
        d2 > 0,
        0 <= e1 <= 100,
        0 <= e2 <= 100,
        SINGLE <= a.mant < 2 * SINGLE,
        SINGLE <= b.mant < 2 * SINGLE,
        within(a, 2000),
        within(b, 2000),
    ensures
        near(single_product(a, b), n1 * n2, d1 * d2, e1 + e2 + 2),
        SINGLE <= single_product(a, b).mant < 2 * SINGLE,
        forall|x: int, y: int|
            within(a, x) && within(b, y) ==> #[trigger] within(single_product(a, b), x + y + 100)
                || x < 0 || y < 0,
{
    let w = 0x100_0000int;
    let (la, lb) = (-3000int, -3000int);
    let l = -6000int;
    lemma_near(a, n1, d1, e1, la);
    lemma_near(b, n2, d2, e2, lb);
    let (sa, sb) = (a.mant as int, b.mant as int);
    let e = a.exp + b.exp;
    assert(sa * sb > 0 && sa * sb < 0x100_0000 * 0x100_0000) by (nonlinear_arith)
        requires
            0 < sa < 0x100_0000,
            0 < sb < 0x100_0000,
    ;
    lemma_scaled_close((sa * sb) as nat, 1, e, l);
    let r = product(a, b, SINGLE as nat);
    assert(signed(a) * signed(b) == sa * sb);
    assert(single_product(a, b) == r);
    let big = multiple(r, l);
    let z = pow2((e - l) as nat) as int;
    let (x, y) = (pow2((a.exp - la) as nat) as int, pow2((b.exp - lb) as nat) as int);
    lemma_pow2_adds((a.exp - la) as nat, (b.exp - lb) as nat);
    lemma_pow2_adds((-la) as nat, (-lb) as nat);
    lemma_pow2_pos((-la) as nat);
    let qa = pow2(3000) as int;
    let q = pow2(6000) as int;
    assert(z == x * y && q == qa * qa);
    let (aa, bb) = (multiple(a, la), multiple(b, lb));
    assert(aa == sa * x && bb == sb * y);
    assert((sa * sb) * z == aa * bb) by (nonlinear_arith)
        requires
            z == x * y,
            aa == sa * x,
            bb == sb * y,
    ;
    lemma_pow2_pos((a.exp - la) as nat);
    lemma_pow2_pos((b.exp - lb) as nat);
    assert(aa > 0 && bb > 0) by (nonlinear_arith)
        requires
            aa == sa * x,
            bb == sb * y,
            sa > 0,
            sb > 0,
            x > 0,
            y > 0,
    ;
    let (n, d, f) = (n1 * n2, d1 * d2, e1 + e2 + 2);
    let (ua, ub) = (aa * (d1 * w), bb * (d2 * w));
    let (ha, hb) = ((n1 * (w + e1)) * qa, (n2 * (w + e2)) * qa);
    let (ka, kb) = ((n1 * (w - e1)) * qa, (n2 * (w - e2)) * qa);
    assert(ka >= 0 && kb >= 0 && n > 0 && d > 0) by (nonlinear_arith)
        requires
            ka == (n1 * (w - e1)) * qa,
            kb == (n2 * (w - e2)) * qa,
            n == n1 * n2,
            d == d1 * d2,
            n1 > 0,
            n2 > 0,
            d1 > 0,
            d2 > 0,
            e1 <= 100,
            e2 <= 100,
            w == 0x100_0000,
            qa > 0,
    ;
    lemma_mul_le(ka, ua, kb, ub);
    lemma_mul_le(ua, ha, ub, hb);
    let t = big * 1 * w;
    assert(t == big * w) by (nonlinear_arith)
        requires
            t == big * 1 * w,
    ;
    let ww = d * w * w;
    assert(ww > 0) by (nonlinear_arith)
        requires
            ww == d * w * w,
            d > 0,
            w > 0,
    ;
    let c = aa * bb;
    lemma_paired_products(aa, d1 * w, bb, d2 * w);
    lemma_paired_products(d1, w, d2, w);
    assert((d1 * d2) * (w * w) == ww) by (nonlinear_arith)
        requires
            ww == d * w * w,
            d == d1 * d2,
    ;
    assert(c * ww == ua * ub);
    assert(t <= c * 0x100_0001 && t >= c * 0xff_ffff);
    assert(t * ww <= (c * 0x100_0001) * ww && t * ww >= (c * 0xff_ffff) * ww) by (nonlinear_arith)
        requires
            t <= c * 0x100_0001,
            t >= c * 0xff_ffff,
            ww > 0,
    ;
    assert((c * 0x100_0001) * ww == (ua * ub) * 0x100_0001 && (c * 0xff_ffff) * ww == (ua * ub)
        * 0xff_ffff) by (nonlinear_arith)
        requires
            c * ww == ua * ub,
    ;
    let nq = n * q;
    assert(nq > 0) by (nonlinear_arith)
        requires
            nq == n * q,
            n > 0,
            q == qa * qa,
            qa > 0,
    ;
    lemma_same_product(n1, w + e1, qa, n2, w + e2);
    lemma_same_product(n1, w - e1, qa, n2, w - e2);
    assert(((w + e1) * (w + e2)) * 0x100_0001 <= (w + f) * (w * w)) by (nonlinear_arith)
        requires
            w == 0x100_0000,
            f == e1 + e2 + 2,
            0 <= e1 <= 100,
            0 <= e2 <= 100,
    ;
    assert(((w - e1) * (w - e2)) * 0xff_ffff >= (w - f) * (w * w)) by (nonlinear_arith)
        requires
            w == 0x100_0000,
            f == e1 + e2 + 2,
            0 <= e1 <= 100,
            0 <= e2 <= 100,
    ;
    let (gu, gd) = ((w + e1) * (w + e2), (w - e1) * (w - e2));
    assert((nq * gu) * 0x100_0001 <= nq * ((w + f) * (w * w))) by (nonlinear_arith)
        requires
            gu * 0x100_0001 <= (w + f) * (w * w),
            nq > 0,
    ;
    assert((nq * gd) * 0xff_ffff >= nq * ((w - f) * (w * w))) by (nonlinear_arith)
        requires
            gd * 0xff_ffff >= (w - f) * (w * w),
            nq > 0,
    ;
    let (left, high, low) = (big * (d * w), (n * (w + f)) * q, (n * (w - f)) * q);
    assert(t * ww == left * (w * w)) by (nonlinear_arith)
        requires
            t == big * w,
            ww == d * w * w,
            left == big * (d * w),
    ;
    assert(nq * ((w + f) * (w * w)) == high * (w * w) && nq * ((w - f) * (w * w)) == low * (w * w))
        by (nonlinear_arith)
        requires
            nq == n * q,
            high == (n * (w + f)) * q,
            low == (n * (w - f)) * q,
    ;
    assert(w * w > 0) by (nonlinear_arith)
        requires
            w == 0x100_0000,
    ;
    lemma_cancel(left, high, w * w);
    lemma_cancel(low, left, w * w);
    lemma_near(r, n, d, f, l);
}

/// A quotient in single precision is near to the quotient: the parts by which the two
/// numbers stray add up.
pub proof fn law_quotients_are_near(
    a: Number,
    n1: int,
    d1: int,
    e1: int,
    b: Number,
    n2: int,
    d2: int,
    e2: int,
)
    requires
        near(a, n1, d1, e1),
        near(b, n2, d2, e2),
        n1 > 0,
        d1 > 0,
        n2 > 0,
        d2 > 0,
        0 <= e1 <= 100,
        0 <= e2 <= 100,
        SINGLE <= a.mant < 2 * SINGLE,
        SINGLE <= b.mant < 2 * SINGLE,
        within(a, 2000),
        within(b, 2000),
    ensures
        near(single_quotient(a, b), n1 * d2, d1 * n2, e1 + e2 + 2),
        SINGLE <= single_quotient(a, b).mant < 2 * SINGLE,
        forall|x: int, y: int|
            within(a, x) && within(b, y) ==> #[trigger] within(single_quotient(a, b), x + y + 100)
                || x < 0 || y < 0,
{
    let w = 0x100_0000int;
    let (la, lb) = (-3000int, -3000int);
    let l = -6000int;
    lemma_near(a, n1, d1, e1, la);
    lemma_near(b, n2, d2, e2, lb);
    let (sa, sb) = (a.mant as int, b.mant as int);
    let e = a.exp - b.exp;
    lemma_scaled_close(sa as nat, sb as nat, e, l);
    let r = quotient(a, b, SINGLE as nat);
    assert(signed(a) == sa);
    assert(single_quotient(a, b) == r);
    let big = multiple(r, l);
    let z = pow2((e - l) as nat) as int;
    let (x, y) = (pow2((a.exp - la) as nat) as int, pow2((b.exp - lb) as nat) as int);
    let qa = pow2(3000) as int;
    let q = pow2(6000) as int;
    lemma_pow2_adds((e - l) as nat, (b.exp - lb) as nat);
    lemma_pow2_adds((a.exp - la) as nat, 6000);
    lemma_pow2_pos(3000);
    lemma_pow2_pos(6000);
    lemma_pow2_pos((a.exp - la) as nat);
    lemma_pow2_pos((b.exp - lb) as nat);
    assert(z * y == x * q);
    let (aa, bb) = (multiple(a, la), multiple(b, lb));
    assert(aa == sa * x && bb == sb * y);
    assert(aa > 0 && bb > 0) by (nonlinear_arith)
        requires
            aa == sa * x,
            bb == sb * y,
            sa > 0,
            sb > 0,
            x > 0,
            y > 0,
    ;
    let t = big * w;
    assert(big * sb * w <= sa * z * 0x100_0001 && big * sb * w >= sa * z * 0xff_ffff);
    assert(t * bb <= (aa * q) * 0x100_0001 && t * bb >= (aa * q) * 0xff_ffff) by (nonlinear_arith)
        requires
            big * sb * w <= sa * z * 0x100_0001,
            big * sb * w >= sa * z * 0xff_ffff,
            t == big * w,
            bb == sb * y,
            aa == sa * x,
            z * y == x * q,
            y > 0,
    {
        assert(t * bb == (big * sb * w) * y);
        assert((sa * z * 0x100_0001) * y == (sa * (z * y)) * 0x100_0001);
        assert((sa * z * 0xff_ffff) * y == (sa * (z * y)) * 0xff_ffff);
        assert(sa * (x * q) == aa * q);
        assert((big * sb * w) * y <= (sa * z * 0x100_0001) * y);
        assert((big * sb * w) * y >= (sa * z * 0xff_ffff) * y);
    }
    let (n, d, f) = (n1 * d2, d1 * n2, e1 + e2 + 2);
    let (ua, ub) = (aa * (d1 * w), bb * (d2 * w));
    let (ha, ka) = ((n1 * (w + e1)) * qa, (n1 * (w - e1)) * qa);
    let (hb, kb) = ((n2 * (w + e2)) * qa, (n2 * (w - e2)) * qa);
    assert(ka > 0 && kb > 0 && n > 0 && d > 0 && d1 * d2 > 0) by (nonlinear_arith)
        requires
            ka == (n1 * (w - e1)) * qa,
            kb == (n2 * (w - e2)) * qa,
            n == n1 * d2,
            d == d1 * n2,
            n1 > 0,
            n2 > 0,
            d1 > 0,
            d2 > 0,
            e1 <= 100,
            e2 <= 100,
            w == 0x100_0000,
            qa > 0,
    ;
    assert(big > 0 && t > 0) by (nonlinear_arith)
        requires
            big > 0,
            t == big * w,
            w == 0x100_0000,
    ;
    let dw = d1 * d2 * w * w;
    assert(dw > 0) by (nonlinear_arith)
        requires
            dw == d1 * d2 * w * w,
            d1 * d2 > 0,
            w == 0x100_0000,
    ;
    // The greater bound.
    let td = t * (d1 * w);
    assert(td > 0) by (nonlinear_arith)
        requires
            td == t * (d1 * w),
            t > 0,
            d1 > 0,
            w == 0x100_0000,
    ;
    let qw = q * (d2 * w);
    assert(qw > 0) by (nonlinear_arith)
        requires
            qw == q * (d2 * w),
            q > 0,
            d2 > 0,
            w == 0x100_0000,
    ;
    assert(td * ub == (t * bb) * dw && (ua * qw) == (aa * q) * dw) by (nonlinear_arith)
        requires
            td == t * (d1 * w),
            ub == bb * (d2 * w),
            ua == aa * (d1 * w),
            qw == q * (d2 * w),
            dw == d1 * d2 * w * w,
    ;
    assert((t * bb) * dw <= ((aa * q) * 0x100_0001) * dw && (t * bb) * dw >= ((aa * q) * 0xff_ffff)
        * dw) by (nonlinear_arith)
        requires
            t * bb <= (aa * q) * 0x100_0001,
            t * bb >= (aa * q) * 0xff_ffff,
            dw > 0,
    ;
    let c = aa * q;
    assert((c * 0x100_0001) * dw == (c * dw) * 0x100_0001 && (c * 0xff_ffff) * dw == (c * dw)
        * 0xff_ffff) by (nonlinear_arith);
    assert(td * ub <= (ua * qw) * 0x100_0001);
    assert(td * ub >= (ua * qw) * 0xff_ffff);
    lemma_mul_le(td, td, kb, ub);
    lemma_mul_le(td, td, ub, hb);
    lemma_mul_le(ua, ha, qw, qw);
    lemma_mul_le(ka, ua, qw, qw);
    assert(td * kb <= (ha * qw) * 0x100_0001);
    assert(td * hb >= (ka * qw) * 0xff_ffff);
    let (left, high, low) = (big * (d * w), (n * (w + f)) * q, (n * (w - f)) * q);
    let s = w * w * qa;
    assert(s > 0) by (nonlinear_arith)
        requires
            s == w * w * qa,
            w == 0x100_0000,
            qa > 0,
    ;
    let nn = n * q * s;
    assert(nn > 0) by (nonlinear_arith)
        requires
            nn == n * q * s,
            n > 0,
            q > 0,
            s > 0,
    ;
    lemma_same_product_left(big, w, d1, n2, w - e2, qa);
    lemma_same_product_left(big, w, d1, n2, w + e2, qa);
    lemma_same_product_right(n1, w + e1, qa, q, d2, w);
    lemma_same_product_right(n1, w - e1, qa, q, d2, w);
    let g = n * q * w * qa;
    assert(g > 0) by (nonlinear_arith)
        requires
            g == n * q * w * qa,
            n > 0,
            q > 0,
            qa > 0,
            w == 0x100_0000,
    ;
    assert((w + e1) * 0x100_0001 <= (w + f) * (w - e2)) by (nonlinear_arith)
        requires
            w == 0x100_0000,
            f == e1 + e2 + 2,
            0 <= e1 <= 100,
            0 <= e2 <= 100,
    ;
    assert((w - e1) * 0xff_ffff >= (w - f) * (w + e2)) by (nonlinear_arith)
        requires
            w == 0x100_0000,
            f == e1 + e2 + 2,
            0 <= e1 <= 100,
            0 <= e2 <= 100,
    ;
    assert((g * (w + e1)) * 0x100_0001 <= g * ((w + f) * (w - e2))) by (nonlinear_arith)
        requires
            (w + e1) * 0x100_0001 <= (w + f) * (w - e2),
            g > 0,
    ;
    assert((g * (w - e1)) * 0xff_ffff >= g * ((w - f) * (w + e2))) by (nonlinear_arith)
        requires
            (w - e1) * 0xff_ffff >= (w - f) * (w + e2),
            g > 0,
    ;
    let k = w * qa;
    assert(k > 0) by (nonlinear_arith)
        requires
            k == w * qa,
            w == 0x100_0000,
            qa > 0,
    ;
    assert((left * w * qa) * (w - e2) == (left * (w - e2)) * k && (left * w * qa) * (w + e2) == (left
        * (w + e2)) * k) by (nonlinear_arith)
        requires
            k == w * qa,
    ;
    lemma_same_product_both(n, q, w, qa, w + f, w - e2);
    lemma_same_product_both(n, q, w, qa, w - f, w + e2);
    lemma_cancel(left * (w - e2), high * (w - e2), k);
    lemma_cancel(low * (w + e2), left * (w + e2), k);
    lemma_cancel(left, high, w - e2);
    lemma_cancel(low, left, w + e2);
    lemma_near(r, n, d, f, l);
}

/// A fraction that a number with a full mantissa has as its value is held exactly.
pub proof fn law_exact_fractions_are_kept(a: Number, n: int, d: nat, one: nat)
    requires
        n >= 0,
        d > 0,
        one > 0,
        full(a, one),
        !exceeds(a, n, d as int),
        !falls_short(a, n, d as int),
    ensures
        ratio(n, d, one) == a,
{
    law_rounding_keeps_the_order(a, n, d, one);
    if n == 0 {
        lemma_against_zero(a, d, one);
    } else {
        let k = lemma_power_exists(n as nat, d, one);
        lemma_power_of(n as nat, d, one, k);
        let (_, _) = lemma_ratio_multiple(
            n as nat,
            d,
            one,
            if k <= 0 {
                k
            } else {
                0
            },
        );
    }
    lemma_same_number(a, ratio(n, d, one), one);
}

/// A whole number below 2^24 is held exactly in single precision.
pub proof fn law_whole_numbers_are_exact(v: u64)
    requires
        v < 0x100_0000,
    ensures
        near(single(v as int, 1), v as int, 1, 0),
        !exceeds(single(v as int, 1), v as int, 1),
        !falls_short(single(v as int, 1), v as int, 1),
        full(single(v as int, 1), SINGLE as nat),
        within(single(v as int, 1), 100),
        v > 0 ==> SINGLE <= single(v as int, 1).mant < 2 * SINGLE,
        single(v as int, 1).exp <= 0,
{
    let a = single(v as int, 1);
    let one = SINGLE as nat;
    if v == 0 {
        lemma_against_zero(a, 1, one);
        lemma_exceeds(a, 0, 1, 0);
        lemma_near(a, 0, 1, 0, 0);
        let (x, y) = (multiple(a, 0), pow2(0));
        assert(x == 0) by {
            lemma_pow2_values();
            assert(0 * 1 == 0);
        }
    } else {
        let n = v as nat;
        let k = lemma_power_exists(n, 1, one);
        lemma_power_of(n, 1, one, k);
        lemma_power_is_small(n, 1, k);
        let l = -100int;
        lemma_pow2_values();
        assert(1 * one == one) by (nonlinear_arith);
        if k > 0 {
            lemma_pow2_le(1, k as nat);
            let u = up(k);
            assert(one * u >= 2 * one) by (nonlinear_arith)
                requires
                    u >= 2,
                    one >= 0,
            ;
            assert(n * 1 == n) by (nonlinear_arith);
        }
        assert(up(k) == 1);
        let m = n * down(k);
        assert(1nat * up(k) == 1) by (nonlinear_arith)
            requires
                up(k) == 1,
        ;
        assert(m / 1 == m && m % 1 == 0);
        assert(rounded(m, 1) == m);
        assert(one * 1 == one) by (nonlinear_arith);
        assert(m < 2 * one);
        assert(a.mant == m && a.exp == k);
        lemma_shift(k, l);
        let (p, q) = (pow2((k - l) as nat), pow2(100));
        let d = down(k);
        assert(multiple(a, l) == m * p);
        assert(m * p == n * q) by (nonlinear_arith)
            requires
                m == n * d,
                1 * q == p * d,
        ;
        lemma_exceeds(a, v as int, 1, l);
        lemma_near(a, v as int, 1, 0, l);
        let (x, y) = (multiple(a, l), n as int);
        assert(x * (1 * 0x100_0000) == (y * 0x100_0000) * q) by (nonlinear_arith)
            requires
                x == y * q,
        ;
    }
}

/// The difference of two whole numbers below 2^24 is exact in single precision.
pub proof fn law_whole_differences_are_exact(t: u64, i: u64)
    requires
        i <= t < 0x100_0000,
    ensures
        single_difference(single(t as int, 1), single(i as int, 1)) == single((t - i) as int, 1),
{
    let one = SINGLE as nat;
    let (a, b, s) = (single(t as int, 1), single(i as int, 1), single((t - i) as int, 1));
    law_whole_numbers_are_exact(t);
    law_whole_numbers_are_exact(i);
    law_whole_numbers_are_exact((t - i) as u64);
    let n = negated(b);
    let e = lower(a, n);
    let l = e;
    lemma_exceeds(a, t as int, 1, l);
    lemma_exceeds(b, i as int, 1, l);
    let q = pow2((-l) as nat) as int;
    lemma_pow2_pos((-l) as nat);
    let x = exact_sum(a, n);
    assert(signed(n) == -signed(b));
    let (y, z) = (signed(b), pow2((b.exp - l) as nat) as int);
    assert((-y) * z == -(y * z)) by (nonlinear_arith);
    assert(multiple(a, l) * 1 == multiple(a, l) && multiple(b, l) * 1 == multiple(b, l));
    let (tt, ii) = (t as int, i as int);
    assert(x == (tt - ii) * q) by (nonlinear_arith)
        requires
            x == tt * q - ii * q,
    ;
    // The sum is the number that stands for the difference, but for a power of two.
    let c = if s.mant == 0 {
        s
    } else {
        Number { neg: false, mant: s.mant, exp: s.exp - e }
    };
    assert(x >= 0) by (nonlinear_arith)
        requires
            x == (tt - ii) * q,
            tt >= ii,
            q > 0,
    ;
    if t == i {
        assert(x == 0) by (nonlinear_arith)
            requires
                x == (tt - ii) * q,
                tt == ii,
        ;
        assert(difference(a, b, one) == s);
    } else {
        let v = tt - ii;
        let low = if s.exp <= e {
            s.exp
        } else {
            e
        };
        lemma_exceeds(s, v, 1, low);
        let g = low - e;
        lemma_exceeds(c, x, 1, g);
        let (ps, pq) = (pow2((s.exp - low) as nat) as int, pow2((-low) as nat) as int);
        assert(multiple(s, low) == s.mant * ps);
        assert(multiple(c, g) == s.mant * ps) by {
            assert(c.exp - g == s.exp - low);
        }
        lemma_pow2_adds((-e) as nat, (e - low) as nat);
        let pg = pow2((-g) as nat) as int;
        assert(pq == q * pg);
        let m = multiple(s, low);
        assert(m * 1 == m);
        assert(m == v * pq);
        assert(v * (q * pg) == (v * q) * pg) by (nonlinear_arith);
        assert(!exceeds(c, x, 1) && !falls_short(c, x, 1));
        law_exact_fractions_are_kept(c, x, 1, one);
        assert(size(x) == x);
        let (m2, k2) = nearest(x as nat, 1, one);
        assert(ratio(x, 1, one).mant == m2);
        assert(difference(a, b, one) == s);
    }
    assert(ranged(s) == s);
}

/// A few parts in 2^24 are less than one part in a million.
pub proof fn law_near_is_within(a: Number, n: int, d: int, e: int)
    requires
        near(a, n, d, e),
        n > 0,
        d > 0,
        0 <= e <= 16,
    ensures
        !exceeds(a, n * 1_000_001, d * 1_000_000),
        !falls_short(a, n * 999_999, d * 1_000_000),
{
    let w = 0x100_0000int;
    assert((n * (w + e)) * (d * 1_000_000) <= (n * 1_000_001) * (d * w)) by (nonlinear_arith)
        requires
            n > 0,
            d > 0,
            0 <= e <= 16,
            w == 0x100_0000,
    {
        assert((w + e) * 1_000_000 <= 1_000_001 * w);
        let c = n * d;
        assert(c > 0);
        assert((n * (w + e)) * (d * 1_000_000) == c * ((w + e) * 1_000_000));
        assert((n * 1_000_001) * (d * w) == c * (1_000_001 * w));
    }
    assert((n * (w - e)) * (d * 1_000_000) >= (n * 999_999) * (d * w)) by (nonlinear_arith)
        requires
            n > 0,
            d > 0,
            0 <= e <= 16,
            w == 0x100_0000,
    {
        assert((w - e) * 1_000_000 >= 999_999 * w);
        let c = n * d;
        assert(c > 0);
        assert((n * (w - e)) * (d * 1_000_000) == c * ((w - e) * 1_000_000));
        assert((n * 999_999) * (d * w) == c * (999_999 * w));
    }
    assert(d * w > 0 && d * 1_000_000 > 0);
    lemma_greater_fraction(a, n * (w + e), d * w, n * 1_000_001, d * 1_000_000);
    lemma_smaller_fraction(a, n * (w - e), d * w, n * 999_999, d * 1_000_000);
}

/// What does not exceed a fraction does not exceed a greater one.
pub proof fn lemma_greater_fraction(a: Number, n: int, d: int, p: int, q: int)
    requires
        d > 0,
        q > 0,
        n * q <= p * d,
        !exceeds(a, n, d),
    ensures
        !exceeds(a, p, q),
{
    let l = if a.exp <= 0 {
        a.exp
    } else {
        0
    };
    lemma_exceeds(a, n, d, l);
    lemma_exceeds(a, p, q, l);
    let (m, z) = (multiple(a, l), pow2((-l) as nat) as int);
    lemma_pow2_pos((-l) as nat);
    assert(m * q <= p * z) by (nonlinear_arith)
        requires
            m * d <= n * z,
            n * q <= p * d,
            d > 0,
            q > 0,
            z > 0,
    {
        assert((m * d) * q <= (n * z) * q);
        assert((n * z) * q == (n * q) * z);
        assert((n * q) * z <= (p * d) * z);
        assert((m * q) * d <= (p * z) * d);
    }
}

/// What does not fall short of a fraction does not fall short of a smaller one.
pub proof fn lemma_smaller_fraction(a: Number, n: int, d: int, p: int, q: int)
    requires
        d > 0,
        q > 0,
        n * q >= p * d,
        !falls_short(a, n, d),
    ensures
        !falls_short(a, p, q),
{
    let l = if a.exp <= 0 {
        a.exp
    } else {
        0
    };
    lemma_exceeds(a, n, d, l);
    lemma_exceeds(a, p, q, l);
    let (m, z) = (multiple(a, l), pow2((-l) as nat) as int);
    lemma_pow2_pos((-l) as nat);
    assert(m * q >= p * z) by (nonlinear_arith)
        requires
            m * d >= n * z,
            n * q >= p * d,
            d > 0,
            q > 0,
            z > 0,
    {
        assert((m * d) * q >= (n * z) * q);
        assert((n * z) * q == (n * q) * z);
        assert((n * q) * z >= (p * d) * z);
        assert((m * q) * d >= (p * z) * d);
    }
}

/// A lesser number does not exceed what a greater one does not exceed.
pub proof fn lemma_between(a: Number, b: Number, n: int, d: int)
    requires
        less(a, b),
        d > 0,
        !exceeds(b, n, d),
    ensures
        !exceeds(a, n, d),
{
    let l = if a.exp <= b.exp && a.exp <= 0 {
        a.exp
    } else if b.exp <= 0 {
        b.exp
    } else {
        0
    };
    lemma_exceeds(a, n, d, l);
    lemma_exceeds(b, n, d, l);
    lemma_less_by_multiples(a, b, l);
    let (x, y) = (multiple(a, l), multiple(b, l));
    assert(x * d <= y * d) by (nonlinear_arith)
        requires
            x < y,
            d > 0,
    ;
}

/// Nothing stays nothing, whatever it is divided or multiplied by.
pub proof fn lemma_zero_products(d: Number, a: Number, b: Number)
    ensures
        single_quotient(single(0, 1), d) == single(0, 1),
        single_product(single(0, 1), a) == single(0, 1),
        single_product(single_product(single_quotient(single(0, 1), d), a), b) == single(0, 1),
{
    let (x, y) = (signed(a), signed(b));
    assert(0 * x == 0 && 0 * y == 0) by (nonlinear_arith);
}

/// The sum of two numbers that are near to fractions is near to the sum of these.
pub proof fn law_sums_are_near(
    a: Number,
    n1: int,
    d1: int,
    b: Number,
    n2: int,
    d2: int,
    e: int,
)
    requires
        near(a, n1, d1, e),
        near(b, n2, d2, e),
        n1 > 0,
        d1 > 0,
        n2 > 0,
        d2 > 0,
        0 <= e <= 100,
        SINGLE <= a.mant < 2 * SINGLE,
        SINGLE <= b.mant < 2 * SINGLE,
        within(a, 2000),
        within(b, 2000),
        -38 <= a.exp - b.exp <= 38,
    ensures
        near(single_sum(a, b), n1 * d2 + n2 * d1, d1 * d2, e + 2),
        SINGLE <= single_sum(a, b).mant < 2 * SINGLE,
        within(a, 200) && within(b, 200) ==> within(single_sum(a, b), 300),
{
    let w = 0x100_0000int;
    let l = -3000int;
    lemma_near(a, n1, d1, e, l);
    lemma_near(b, n2, d2, e, l);
    let (sa, sb) = (a.mant as int, b.mant as int);
    let lo = lower(a, b);
    let (x, y) = (pow2((a.exp - lo) as nat) as int, pow2((b.exp - lo) as nat) as int);
    lemma_pow2_le((a.exp - lo) as nat, 38);
    lemma_pow2_le((b.exp - lo) as nat, 38);
    lemma_pow2_pos((a.exp - lo) as nat);
    lemma_pow2_pos((b.exp - lo) as nat);
    lemma_pow2_adds(19, 19);
    lemma2_to64();
    let v = exact_sum(a, b);
    assert(pow2(38) == 0x40_0000_0000) by (nonlinear_arith)
        requires
            pow2(38) == pow2(19) * pow2(19),
            pow2(19) == 0x8_0000,
    ;
    assert(0 < sa * x < 0x4000_0000_0000_0000) by (nonlinear_arith)
        requires
            0 < sa < 0x100_0000,
            0 < x <= 0x40_0000_0000,
    ;
    assert(0 < sb * y < 0x4000_0000_0000_0000) by (nonlinear_arith)
        requires
            0 < sb < 0x100_0000,
            0 < y <= 0x40_0000_0000,
    ;
    assert(v == sa * x + sb * y);
    lemma_scaled_close(v as nat, 1, lo, l);
    let r = sum(a, b, SINGLE as nat);
    assert(single_sum(a, b) == r);
    let big = multiple(r, l);
    let z = pow2((lo - l) as nat) as int;
    lemma_pow2_adds((a.exp - lo) as nat, (lo - l) as nat);
    lemma_pow2_adds((b.exp - lo) as nat, (lo - l) as nat);
    let (aa, bb) = (multiple(a, l), multiple(b, l));
    assert(aa == sa * (x * z) && bb == sb * (y * z));
    let c = aa + bb;
    assert(v * z == c) by (nonlinear_arith)
        requires
            v == sa * x + sb * y,
            aa == sa * (x * z),
            bb == sb * (y * z),
            c == aa + bb,
    ;
    let q = pow2(3000) as int;
    lemma_pow2_pos(3000);
    let (n, d) = (n1 * d2 + n2 * d1, d1 * d2);
    assert(d > 0 && n > 0) by (nonlinear_arith)
        requires
            d == d1 * d2,
            n == n1 * d2 + n2 * d1,
            n1 > 0,
            n2 > 0,
            d1 > 0,
            d2 > 0,
    ;
    let (ua, ub) = (aa * (d1 * w), bb * (d2 * w));
    let (ha, hb) = ((n1 * (w + e)) * q, (n2 * (w + e)) * q);
    let (ka, kb) = ((n1 * (w - e)) * q, (n2 * (w - e)) * q);
    let cd = c * (d * w);
    lemma_moved_factor(aa, d1, d2, w);
    lemma_moved_factor(bb, d2, d1, w);
    assert(d2 * d1 == d) by (nonlinear_arith)
        requires
            d == d1 * d2,
    ;
    let wd = d * w;
    assert((aa + bb) * wd == aa * wd + bb * wd) by (nonlinear_arith);
    assert(cd == ua * d2 + ub * d1);
    lemma_sum_of_products(n1, d1, n2, d2, w + e, q);
    lemma_sum_of_products(n1, d1, n2, d2, w - e, q);
    assert(ha * d2 + hb * d1 == (n * (w + e)) * q);
    assert(ka * d2 + kb * d1 == (n * (w - e)) * q);
    assert(ka * d2 <= ua * d2 && ua * d2 <= ha * d2 && kb * d1 <= ub * d1 && ub * d1 <= hb * d1)
        by (nonlinear_arith)
        requires
            ka <= ua <= ha,
            kb <= ub <= hb,
            d1 > 0,
            d2 > 0,
    ;
    let t = big * w;
    assert(big * 1 * 0x100_0000 == t) by (nonlinear_arith)
        requires
            t == big * w,
            w == 0x100_0000,
    ;
    assert(t <= c * 0x100_0001 && t >= c * 0xff_ffff);
    let dw = d * w;
    assert(dw > 0) by (nonlinear_arith)
        requires
            dw == d * w,
            d > 0,
            w > 0,
    ;
    assert(t * dw <= cd * 0x100_0001 && t * dw >= cd * 0xff_ffff) by (nonlinear_arith)
        requires
            t <= c * 0x100_0001,
            t >= c * 0xff_ffff,
            cd == c * dw,
            dw > 0,
    ;
    let nq = n * q;
    assert(nq > 0) by (nonlinear_arith)
        requires
            nq == n * q,
            n > 0,
            q > 0,
    ;
    let f = e + 2;
    assert((w + e) * 0x100_0001 <= (w + f) * w && (w - e) * 0xff_ffff >= (w - f) * w)
        by (nonlinear_arith)
        requires
            w == 0x100_0000,
            f == e + 2,
            0 <= e <= 100,
    ;
    assert(((n * (w + e)) * q) * 0x100_0001 <= ((n * (w + f)) * q) * w) by (nonlinear_arith)
        requires
            (w + e) * 0x100_0001 <= (w + f) * w,
            nq == n * q,
            nq > 0,
    {
        let (g, h) = ((w + e) * 0x100_0001, (w + f) * w);
        assert(nq * g <= nq * h);
        assert(((n * (w + e)) * q) * 0x100_0001 == nq * g);
        assert(((n * (w + f)) * q) * w == nq * h);
    }
    assert(((n * (w - e)) * q) * 0xff_ffff >= ((n * (w - f)) * q) * w) by (nonlinear_arith)
        requires
            (w - e) * 0xff_ffff >= (w - f) * w,
            nq == n * q,
            nq > 0,
    {
        let (g, h) = ((w - e) * 0xff_ffff, (w - f) * w);
        assert(nq * g >= nq * h);
        assert(((n * (w - e)) * q) * 0xff_ffff == nq * g);
        assert(((n * (w - f)) * q) * w == nq * h);
    }
    let (left, high, low) = (big * dw, (n * (w + f)) * q, (n * (w - f)) * q);
    assert(t * dw == left * w) by (nonlinear_arith)
        requires
            t == big * w,
            left == big * dw,
    ;
    lemma_cancel(left, high, w);
    lemma_cancel(low, left, w);
    lemma_near(r, n, d, f, l);
}

/// The product of two products.
proof fn lemma_paired_products(a: int, p: int, b: int, q: int)
    ensures
        (a * p) * (b * q) == (a * b) * (p * q),
{
    let x = b * q;
    assert((a * p) * x == (a * x) * p) by (nonlinear_arith);
    assert(a * (b * q) == (a * b) * q) by (nonlinear_arith);
    let y = a * b;
    assert((y * q) * p == y * (p * q)) by (nonlinear_arith);
}

/// A factor that is moved out of a product.
proof fn lemma_moved_factor(a: int, x: int, y: int, w: int)
    ensures
        a * ((x * y) * w) == (a * (x * w)) * y,
{
    let (p, q) = (x * y, x * w);
    assert(p * w == q * y) by (nonlinear_arith)
        requires
            p == x * y,
            q == x * w,
    ;
    assert(a * (q * y) == (a * q) * y) by (nonlinear_arith);
}

/// A common factor of two products.
proof fn lemma_sum_of_products(n1: int, d1: int, n2: int, d2: int, s: int, q: int)
    ensures
        ((n1 * s) * q) * d2 + ((n2 * s) * q) * d1 == ((n1 * d2 + n2 * d1) * s) * q,
{
    let t = s * q;
    assert(((n1 * s) * q) * d2 == (n1 * d2) * t) by (nonlinear_arith)
        requires
            t == s * q,
    ;
    assert(((n2 * s) * q) * d1 == (n2 * d1) * t) by (nonlinear_arith)
        requires
            t == s * q,
    ;
    let (x, y) = (n1 * d2, n2 * d1);
    assert(x * t + y * t == ((x + y) * s) * q) by (nonlinear_arith)
        requires
            t == s * q,
    ;
}

/// Nothing added to a number leaves it as it is.
pub proof fn law_adding_nothing_changes_nothing(a: Number)
    requires
        !a.neg,
        SINGLE <= a.mant < 2 * SINGLE,
        within(a, 2000),
    ensures
        single_sum(a, single(0, 1)) == a,
        single_sum(single(0, 1), a) == a,
{
    let z = single(0, 1);
    let one = SINGLE as nat;
    let lo = lower(a, z);
    let k = a.exp - lo;
    let x = a.mant * pow2(k as nat);
    let c = Number { neg: false, mant: a.mant, exp: k };
    lemma_pow2_pos(k as nat);
    lemma_pow2_values();
    assert(x > 0) by (nonlinear_arith)
        requires
            x == a.mant * pow2(k as nat),
            a.mant > 0,
            pow2(k as nat) > 0,
    ;
    lemma_exceeds(c, x as int, 1, 0);
    let m = multiple(c, 0);
    assert(m == x);
    assert(m * 1 == m && x * 1 == x);
    law_exact_fractions_are_kept(c, x as int, 1, one);
    let (p, q) = (pow2((z.exp - lo) as nat) as int, signed(z));
    assert(q * p == 0) by (nonlinear_arith)
        requires
            q == 0,
    ;
    assert(exact_sum(a, z) == x);
    assert(exact_sum(z, a) == x);
    assert(size(x as int) == x);
    assert(sum(a, z, one) == a);
    assert(sum(z, a, one) == a);
}

/// A number of single precision between 1/2048 and 1.
proof fn lemma_exponent_of_a_part(a: Number)
    requires
        !a.neg,
        SINGLE <= a.mant < 2 * SINGLE,
        within(a, 2000),
        !falls_short(a, 1, 2048),
        !exceeds(a, 2, 1),
    ensures
        -36 <= a.exp <= 0,
{
    let l = -3000int;
    lemma_exceeds(a, 1, 2048, l);
    lemma_exceeds(a, 2, 1, l);
    lemma2_to64();
    let q = pow2(3000) as int;
    let m = a.mant as int;
    let p = pow2((a.exp - l) as nat) as int;
    assert(multiple(a, l) == m * p);
    if a.exp < -36 {
        lemma_pow2_le((a.exp - l) as nat, 2963);
        lemma_pow2_adds(2963, 37);
        let b = pow2(2963) as int;
        lemma_pow2_pos(2963);
        assert(pow2(37) == 0x20_0000_0000) by {
            lemma_pow2_adds(32, 5);
        }
        assert((m * p) * 2048 < 1 * q) by (nonlinear_arith)
            requires
                0 < m < 0x100_0000,
                0 < p <= b,
                q == b * 0x20_0000_0000,
        {
            assert(m * p <= 0x100_0000 * b);
        }
    }
    if a.exp > 0 {
        lemma_pow2_le(3000, (a.exp - l) as nat);
        lemma_pow2_pos(3000);
        assert((m * p) * 1 > 2 * q) by (nonlinear_arith)
            requires
                m >= 0x80_0000,
                p >= q,
                q > 0,
        ;
    }
}

/// A time of whole seconds and thousandths of a second, in seconds.
pub proof fn law_times_are_near(secs: u64, ms: u64, part: Number)
    requires
        secs < 0x100_0000,
        ms < 1000,
        secs + ms > 0,
        part == single_quotient(single(ms * 1_000_000, 1), single(1_000_000_000, 1)),
    ensures
        near(single_sum(single(secs as int, 1), part), secs * 1000 + ms, 1000, 6),
        SINGLE <= single_sum(single(secs as int, 1), part).mant < 2 * SINGLE,
        within(single_sum(single(secs as int, 1), part), 300),
{
    let h: int = 100;
    let a = single(secs as int, 1);
    let all = single_sum(a, part);
    law_whole_numbers_are_exact(secs);
    let t = (secs * 1000 + ms) as int;
    if ms == 0 {
        lemma_zero_products(single(1_000_000_000, 1), a, a);
        law_adding_nothing_changes_nothing(a);
        lemma_other_fraction(a, secs as int, 1, 0, t, 1000, 6);
    } else {
        law_fractions_are_near((ms * 1_000_000) as u64, 1);
        law_fractions_are_near(1_000_000_000, 1);
        let (x, y) = (single(ms * 1_000_000, 1), single(1_000_000_000, 1));
        law_quotients_are_near(x, ms * 1_000_000, 1, 1, y, 1_000_000_000, 1, 1);
        assert(within(part, h + h + 100));
        lemma_other_fraction(part, (ms * 1_000_000) * 1, 1_000_000_000, 4, ms as int, 1000, 4);
        law_near_is_within(part, ms as int, 1000, 4);
        lemma_smaller_fraction(part, ms * 999_999, 1_000_000_000, 1, 2048);
        lemma_greater_fraction(part, ms * 1_000_001, 1_000_000_000, 2, 1);
        lemma_exponent_of_a_part(part);
        if secs == 0 {
            law_adding_nothing_changes_nothing(part);
            lemma_other_fraction(part, ms as int, 1000, 4, t, 1000, 6);
        } else {
            lemma_other_fraction(a, secs as int, 1, 0, secs as int, 1, 4);
            lemma_smaller_fraction(a, secs as int, 1, 1, 1);
            lemma_exponent_of_a_whole(a);
            law_sums_are_near(a, secs as int, 1, part, ms as int, 1000, 4);
            assert(secs * 1000 + ms * 1 == t);
        }
    }
}

/// A whole number below 2^24, in single precision.
pub proof fn lemma_exponent_of_a_whole(a: Number)
    requires
        !a.neg,
        SINGLE <= a.mant < 2 * SINGLE,
        a.exp <= 0,
        within(a, 2000),
        !falls_short(a, 1, 1),
    ensures
        -36 <= a.exp <= 0,
{
    lemma_smaller_fraction(a, 1, 1, 1, 2048);
    if a.exp < -36 {
        let l = -3000int;
        lemma_exceeds(a, 1, 2048, l);
        lemma2_to64();
        let q = pow2(3000) as int;
        let m = a.mant as int;
        let p = pow2((a.exp - l) as nat) as int;
        lemma_pow2_le((a.exp - l) as nat, 2963);
        lemma_pow2_adds(2963, 37);
        let b = pow2(2963) as int;
        lemma_pow2_pos(2963);
        assert(pow2(37) == 0x20_0000_0000) by {
            lemma_pow2_adds(32, 5);
        }
        assert((m * p) * 2048 < 1 * q) by (nonlinear_arith)
            requires
                0 < m < 0x100_0000,
                0 < p <= b,
                q == b * 0x20_0000_0000,
        {
            assert(m * p <= 0x100_0000 * b);
        }
    }
}

/// What is near to a fraction is near to the same fraction written otherwise.
pub proof fn lemma_other_fraction(a: Number, n: int, d: int, e: int, p: int, q: int, f: int)
    requires
        near(a, n, d, e),
        n >= 0,
        d > 0,
        q > 0,
        n * q == p * d,
        0 <= e <= f <= 0x100_0000,
    ensures
        near(a, p, q, f),
{
    let w = 0x100_0000int;
    assert(p >= 0) by (nonlinear_arith)
        requires
            n * q == p * d,
            n >= 0,
            q > 0,
            d > 0,
    ;
    assert((n * (w + e)) * (q * w) <= (p * (w + f)) * (d * w)) by (nonlinear_arith)
        requires
            n * q == p * d,
            n >= 0,
            q > 0,
            w > 0,
            e <= f,
    {
        let c = n * q;
        assert(c >= 0);
        assert((n * (w + e)) * (q * w) == c * ((w + e) * w));
        assert((p * (w + f)) * (d * w) == c * ((w + f) * w));
        assert((w + e) * w <= (w + f) * w);
    }
    assert((n * (w - e)) * (q * w) >= (p * (w - f)) * (d * w)) by (nonlinear_arith)
        requires
            n * q == p * d,
            n >= 0,
            q > 0,
            w > 0,
            e <= f,
    {
        let c = n * q;
        assert(c >= 0);
        assert((n * (w - e)) * (q * w) == c * ((w - e) * w));
        assert((p * (w - f)) * (d * w) == c * ((w - f) * w));
        assert((w - e) * w >= (w - f) * w);
    }
    assert(d * w > 0 && q * w > 0);
    lemma_greater_fraction(a, n * (w + e), d * w, p * (w + f), q * w);
    lemma_smaller_fraction(a, n * (w - e), d * w, p * (w - f), q * w);
}

/// A number that stands for a whole number does not reach a greater one.
pub proof fn lemma_no_number_between(a: Number, n: int, m: int)
    requires
        0 < n < m,
        !exceeds(a, n, 1),
    ensures
        falls_short(a, m, 1),
{
    let l = if a.exp <= 0 {
        a.exp
    } else {
        0
    };
    lemma_exceeds(a, n, 1, l);
    lemma_exceeds(a, m, 1, l);
    let (x, z) = (multiple(a, l), pow2((-l) as nat) as int);
    lemma_pow2_pos((-l) as nat);
    assert(x * 1 < m * z) by (nonlinear_arith)
        requires
            x * 1 <= n * z,
            n < m,
            z > 0,
    ;
}

/// A number in parts is the nearest whole number of parts, half a part away at most.
pub proof fn law_parts_are_the_nearest(a: Binary, scale: u64, r: u128)
    requires
        call_ensures(Binary::parts, (a, scale), r),
        !a.neg,
        scale > 0,
        r < u128::MAX,
    ensures
        !exceeds(a@, 2 * r + 1, 2 * scale),
        !falls_short(a@, 2 * r - 1, 2 * scale),
{
    let n = a@;
    let m = n.mant as int;
    let (u, b) = (up(n.exp) as int, down(n.exp) as int);
    let s = scale as int;
    if n.exp >= 0 {
        lemma_pow2_pos(n.exp as nat);
    } else {
        lemma_pow2_pos((-n.exp) as nat);
    }
    let x = n.mant * scale as nat * up(n.exp);
    lemma_rounded_close(x, down(n.exp));
    let q = rounded(x, down(n.exp)) as int;
    assert(q == r);
    assert(m * u * (2 * s) == 2 * x) by (nonlinear_arith)
        requires
            x == m * s * u,
    ;
    assert((2 * q + 1) * b == 2 * (q * b) + b && (2 * q - 1) * b == 2 * (q * b) - b)
        by (nonlinear_arith);
    lemma_pow2_values();
    if n.exp >= 0 {
        assert(b == 1);
        assert(u == pow2(n.exp as nat));
        assert(q * b == q && (2 * q + 1) * b == 2 * q + 1 && (2 * q - 1) * b == 2 * q - 1);
        assert(m * u * (2 * s) <= 2 * q + 1 && m * u * (2 * s) >= 2 * q - 1);
    } else {
        assert(u == 1 && m * u == m);
        assert(b == pow2((-n.exp) as nat));
        assert(m * (2 * s) <= (2 * q + 1) * b && m * (2 * s) >= (2 * q - 1) * b);
    }
}

} // verus!
