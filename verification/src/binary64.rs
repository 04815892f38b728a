//! Arithmetic of binary64 values, rounded to the nearest value and, halfway
//! between two, to the even one.
//!
//! Every finite binary64 value is a whole multiple of the smallest positive one.
//! A value is spoken of as that multiple: its units. One is two to the power of
//! `ONE_SHIFT` units.

use vstd::prelude::*;

use crate::bits::F64Bits;
use crate::bits::INFINITY_64;
use crate::bits::SIGN_64;

verus! {

// ── Powers of two ────────────────────────────────────────────────────────────

/// Two to the power of `e`.
pub open spec fn two(e: int) -> int
    decreases e,
{
    if e <= 0 {
        1
    } else {
        2 * two(e - 1)
    }
}

pub proof fn lemma_two_positive(e: int)
    ensures
        two(e) > 0,
    decreases e,
{
    if e > 0 {
        lemma_two_positive(e - 1);
    }
}

pub proof fn lemma_two_adds(a: int, b: int)
    requires
        a >= 0,
        b >= 0,
    ensures
        two(a + b) == two(a) * two(b),
    decreases b,
{
    if b > 0 {
        lemma_two_adds(a, b - 1);
        let x = two(a);
        let y = two(b - 1);
        assert(2 * (x * y) == x * (2 * y)) by (nonlinear_arith);
    }
}

pub proof fn lemma_two_grows(a: int, b: int)
    requires
        0 <= a <= b,
    ensures
        two(a) <= two(b),
        a < b ==> 2 * two(a) <= two(b),
    decreases b - a,
{
    if a < b {
        lemma_two_grows(a, b - 1);
        lemma_two_positive(b - 1);
    }
}

proof fn lemma_two_values()
    ensures
        two(52) == 0x10_0000_0000_0000,
        two(53) == 0x20_0000_0000_0000,
        two(63) == 0x8000_0000_0000_0000,
        two(64) == 0x1_0000_0000_0000_0000,
        two(120) == 0x100_0000_0000_0000_0000_0000_0000_0000,
        two(127) == 0x8000_0000_0000_0000_0000_0000_0000_0000,
{
    reveal_with_fuel(two, 5);
    assert(two(4) == 16);
    lemma_two_adds(4, 4);
    assert(two(8) == 0x100);
    lemma_two_adds(8, 8);
    assert(two(16) == 0x1_0000);
    lemma_two_adds(16, 16);
    assert(two(32) == 0x1_0000_0000);
    lemma_two_adds(32, 16);
    assert(two(48) == 0x1_0000_0000_0000);
    lemma_two_adds(48, 4);
    lemma_two_adds(48, 8);
    assert(two(56) == 0x100_0000_0000_0000);
    lemma_two_adds(32, 32);
    assert(two(64) == 2 * two(63));
    lemma_two_adds(64, 56);
    lemma_two_adds(64, 63);
}

/// Two to the power of `e`.
fn power(e: u32) -> (r: u128)
    requires
        e <= 127,
    ensures
        r == two(e as int),
        r > 0,
{
    let mut r: u128 = 1;
    let mut i: u32 = 0;
    while i < e
        invariant
            i <= e,
            e <= 127,
            r == two(i as int),
        decreases e - i,
    {
        proof {
            lemma_two_values();
            lemma_two_grows(i as int + 1, 127);
        }
        r = r * 2;
        i = i + 1;
    }
    proof {
        lemma_two_positive(e as int);
    }
    r
}

// ── Rounding ─────────────────────────────────────────────────────────────────

/// The integer nearest to `a / b`; of two that are as near, the even one.
pub open spec fn nearest_int(a: int, b: int) -> int {
    let q = a / b;
    let r = a % b;
    if 2 * r < b || (2 * r == b && q % 2 == 0) {
        q
    } else {
        q + 1
    }
}

/// How many bits of `a / b` lie beyond the 53 that a value holds.
pub open spec fn excess_bits(a: int, b: int) -> int
    decreases a - b,
{
    if b <= 0 || a < b * 0x20_0000_0000_0000 {
        0
    } else {
        1 + excess_bits(a, 2 * b)
    }
}

/// The units of the value nearest to `a / b` units; `a` is not negative.
pub open spec fn nearest_size(a: int, b: int) -> int {
    let j = excess_bits(a, b);
    nearest_int(a, b * two(j)) * two(j)
}

/// The units of the value nearest to `a / b` units.
pub open spec fn nearest(a: int, b: int) -> int {
    if a < 0 {
        -nearest_size(-a, b)
    } else {
        nearest_size(a, b)
    }
}

proof fn lemma_two_53()
    ensures
        two(53) == 0x20_0000_0000_0000,
        two(52) == 0x10_0000_0000_0000,
{
    lemma_two_values();
}

proof fn lemma_excess(a: int, b: int, j: int)
    requires
        b > 0,
        a >= 0,
        j >= 0,
        a < b * two(53 + j),
        j == 0 || a >= b * two(52 + j),
    ensures
        excess_bits(a, b) == j,
    decreases j,
{
    lemma_two_53();
    if j > 0 {
        lemma_two_grows(53, 52 + j);
        let t = two(52 + j);
        assert(b * t >= b * two(53)) by (nonlinear_arith)
            requires
                t >= two(53),
                b > 0,
        ;
        assert((2 * b) * two(53 + (j - 1)) == b * two(53 + j)) by (nonlinear_arith)
            requires
                two(53 + j) == 2 * two(52 + j),
                53 + (j - 1) == 52 + j,
        ;
        if j > 1 {
            assert((2 * b) * two(52 + (j - 1)) == b * two(52 + j)) by (nonlinear_arith)
                requires
                    two(52 + j) == 2 * two(51 + j),
                    52 + (j - 1) == 51 + j,
            ;
        }
        lemma_excess(a, 2 * b, j - 1);
    }
}

proof fn lemma_excess_bounds(a: int, b: int)
    requires
        b > 0,
        a >= 0,
    ensures
        excess_bits(a, b) >= 0,
        a < b * two(53 + excess_bits(a, b)),
        excess_bits(a, b) == 0 || a >= b * two(52 + excess_bits(a, b)),
    decreases a - b,
{
    lemma_two_53();
    if a >= b * two(53) {
        assert(a >= 2 * b) by (nonlinear_arith)
            requires
                a >= b * two(53),
                two(53) == 0x20_0000_0000_0000,
                b > 0,
        ;
        lemma_excess_bounds(a, 2 * b);
        let k = excess_bits(a, 2 * b);
        assert((2 * b) * two(53 + k) == b * two(54 + k)) by (nonlinear_arith)
            requires
                two(54 + k) == 2 * two(53 + k),
        ;
        if k > 0 {
            assert((2 * b) * two(52 + k) == b * two(53 + k)) by (nonlinear_arith)
                requires
                    two(53 + k) == 2 * two(52 + k),
            ;
        }
    }
}

proof fn lemma_nearest_int_scaled(a: int, b: int, c: int)
    requires
        b > 0,
        c > 0,
        a >= 0,
    ensures
        nearest_int(a * c, b * c) == nearest_int(a, b),
{
    let q = a / b;
    let r = a % b;
    vstd::arithmetic::div_mod::lemma_fundamental_div_mod(a, b);
    assert(a * c == q * (b * c) + r * c && 0 <= r * c < b * c && b * c > 0) by (nonlinear_arith)
        requires
            a == b * q + r,
            0 <= r < b,
            c > 0,
    ;
    vstd::arithmetic::div_mod::lemma_fundamental_div_mod_converse(a * c, b * c, q, r * c);
    assert((2 * (r * c) < b * c) == (2 * r < b)) by (nonlinear_arith)
        requires
            c > 0,
    ;
    assert((2 * (r * c) == b * c) == (2 * r == b)) by (nonlinear_arith)
        requires
            c > 0,
    ;
}

proof fn lemma_nearest_scaled(a: int, b: int, c: int)
    requires
        b > 0,
        c > 0,
        a >= 0,
    ensures
        nearest_size(a * c, b * c) == nearest_size(a, b),
{
    let j = excess_bits(a, b);
    lemma_excess_bounds(a, b);
    lemma_two_positive(j);
    let hi = two(53 + j);
    let lo = two(52 + j);
    let t = two(j);
    assert(b * c > 0 && a * c >= 0 && a * c < (b * c) * hi) by (nonlinear_arith)
        requires
            a < b * hi,
            a >= 0,
            b > 0,
            c > 0,
    ;
    if j > 0 {
        assert(a * c >= (b * c) * lo) by (nonlinear_arith)
            requires
                a >= b * lo,
                c > 0,
        ;
    }
    lemma_excess(a * c, b * c, j);
    assert((b * c) * t == (b * t) * c && b * t > 0) by (nonlinear_arith)
        requires
            b > 0,
            t > 0,
    ;
    lemma_nearest_int_scaled(a, b * t, c);
}

// ── Bit patterns ─────────────────────────────────────────────────────────────

/// The units of a value whose magnitude bits are these: the lower 52 bits, with
/// one more in front unless the exponent is 0, as often as the exponent says.
pub open spec fn units_of_magnitude(bits: int) -> int {
    let exponent = bits / 0x10_0000_0000_0000;
    let fraction = bits % 0x10_0000_0000_0000;
    if exponent == 0 {
        fraction
    } else {
        (fraction + 0x10_0000_0000_0000) * two(exponent - 1)
    }
}

/// How many bits the last bit of a value stands above one unit.
pub open spec fn scale_of_magnitude(bits: int) -> int {
    let exponent = bits / 0x10_0000_0000_0000;
    if exponent == 0 {
        0
    } else {
        exponent - 1
    }
}

/// The units of a finite value.
pub open spec fn units(x: F64Bits) -> int {
    if x.bits >= SIGN_64 {
        -units_of_magnitude(x.magnitude())
    } else {
        units_of_magnitude(x.magnitude())
    }
}

/// How many bits the last bit of a value stands above one unit.
pub open spec fn scale(x: F64Bits) -> int {
    scale_of_magnitude(x.magnitude())
}

/// Whether a value is 0, or its last bit stands between `lo` and `hi` bits above
/// one unit.
pub open spec fn sized(x: F64Bits, lo: int, hi: int) -> bool {
    x.is_finite() && (units(x) == 0 || lo <= scale(x) <= hi)
}

proof fn lemma_encoded(m: int, j: int)
    requires
        0 <= j <= 2044,
        0x10_0000_0000_0000 <= m <= 0x20_0000_0000_0000,
    ensures
        ({
            let bits = j * 0x10_0000_0000_0000 + m;
            &&& 0 < bits < INFINITY_64
            &&& units_of_magnitude(bits) == m * two(j)
            &&& j <= scale_of_magnitude(bits) <= j + 1
        }),
{
    let bits = j * 0x10_0000_0000_0000 + m;
    if m < 0x20_0000_0000_0000 {
        assert(bits / 0x10_0000_0000_0000 == j + 1);
        assert(bits % 0x10_0000_0000_0000 == m - 0x10_0000_0000_0000);
    } else {
        assert(bits / 0x10_0000_0000_0000 == j + 2);
        assert(bits % 0x10_0000_0000_0000 == 0);
        assert(0x10_0000_0000_0000 * (2 * two(j)) == 0x20_0000_0000_0000 * two(j));
    }
}

/// Sign, mantissa and scale of a finite value.
fn split(x: F64Bits) -> (r: (bool, u64, u32))
    requires
        x.is_finite(),
    ensures
        r.0 == (x.bits >= SIGN_64),
        r.1 < 0x20_0000_0000_0000,
        r.2 == scale(x),
        r.2 <= 2045,
        r.2 > 0 ==> r.1 >= 0x10_0000_0000_0000,
        units_of_magnitude(x.magnitude()) == r.1 * two(r.2 as int),
        (r.1 == 0) == (units(x) == 0),
{
    let m: u64 = x.magnitude_bits();
    let exponent: u64 = m / 0x10_0000_0000_0000;
    let fraction: u64 = m % 0x10_0000_0000_0000;
    if exponent == 0 {
        (x.bits >= SIGN_64, fraction, 0)
    } else {
        proof {
            let t = two(exponent - 1);
            lemma_two_positive(exponent - 1);
            assert((fraction + 0x10_0000_0000_0000) * t > 0) by (nonlinear_arith)
                requires
                    t > 0,
                    fraction >= 0,
            ;
        }
        (x.bits >= SIGN_64, fraction + 0x10_0000_0000_0000, (exponent - 1) as u32)
    }
}

/// The value with these magnitude bits and this sign.
fn signed(negative: bool, bits: u64) -> (r: F64Bits)
    requires
        bits < INFINITY_64,
    ensures
        r.is_finite(),
        r.magnitude() == bits,
        units(r) == if negative {
            -units_of_magnitude(bits as int)
        } else {
            units_of_magnitude(bits as int)
        },
{
    if negative {
        F64Bits { bits: bits + SIGN_64 }
    } else {
        F64Bits { bits }
    }
}

/// The value nearest to `n / d` times two to the power of `s` units, as magnitude
/// bits.
fn round_size(n: u128, d: u64, s: u32) -> (r: u64)
    requires
        0 < d <= 0x20_0000_0000_0000,
        n < 0x100_0000_0000_0000_0000_0000_0000_0000,
        n > 0 ==> 128 <= s <= 1900,
    ensures
        r < INFINITY_64,
        units_of_magnitude(r as int) == nearest_size(n * two(s as int), d as int),
        n == 0 ==> r == 0,
        n > 0 ==> s - 106 <= scale_of_magnitude(r as int) <= s + 68,
        n > 0 && d == 1 ==> s - 53 <= scale_of_magnitude(r as int),
{
    let ghost si = s as int;
    let ghost ni = n as int;
    let ghost di = d as int;
    if n == 0 {
        assert(ni * two(si) == 0) by (nonlinear_arith)
            requires
                ni == 0,
        ;
        assert(excess_bits(0, di) == 0);
        assert(nearest_int(0, di * two(0)) == 0);
        return 0;
    }
    let mut num: u128 = n;
    let mut t: u32 = 0;
    while num < (d as u128) * 0x10_0000_0000_0000
        invariant
            0 < d <= 0x20_0000_0000_0000,
            di == d,
            ni == n,
            0 < ni,
            num < 0x100_0000_0000_0000_0000_0000_0000_0000,
            num == ni * two(t as int),
            t == 0 || ni * two(t - 1) < di * 0x10_0000_0000_0000,
            t <= 106,
        decreases 107 - t,
    {
        proof {
            let p = two(t as int);
            lemma_two_positive(t as int);
            assert(ni * p >= p) by (nonlinear_arith)
                requires
                    ni >= 1,
                    p > 0,
            ;
            lemma_two_values();
            lemma_two_adds(52, 53);
            if t >= 105 {
                lemma_two_grows(105, t as int);
            }
            assert(ni * (2 * p) == 2 * (ni * p)) by (nonlinear_arith);
            assert(num > 0);
        }
        num = num * 2;
        t = t + 1;
    }
    proof {
        lemma_two_values();
        lemma_two_adds(52, 53);
        if t > 0 {
            let p = two(t - 1);
            lemma_two_positive(t - 1);
            assert(ni * p >= p) by (nonlinear_arith)
                requires
                    ni >= 1,
                    p > 0,
            ;
            if t - 1 >= 105 {
                lemma_two_grows(105, t - 1);
            }
            if d == 1 && t - 1 >= 52 {
                lemma_two_grows(52, t - 1);
            }
        }
    }
    let e: u32 = s - t;
    let mut den: u128 = d as u128;
    let mut k: u32 = 0;
    assert(di * two(0) == di);
    while num >= den * 0x20_0000_0000_0000
        invariant
            0 < d <= 0x20_0000_0000_0000,
            di == d,
            num < 0x100_0000_0000_0000_0000_0000_0000_0000,
            0 < den <= 0x10_0000_0000_0000_0000,
            den == di * two(k as int),
            num >= den * 0x10_0000_0000_0000,
            k <= 67,
        decreases 68 - k,
    {
        proof {
            let p = two(k as int);
            assert(di * (2 * p) == 2 * (di * p)) by (nonlinear_arith);
            lemma_two_positive(k as int);
            assert(di * p >= p) by (nonlinear_arith)
                requires
                    di >= 1,
                    p > 0,
            ;
            lemma_two_values();
            lemma_two_adds(53, 67);
            assert(two(120) == two(53) * two(67));
            if k >= 67 {
                assert(p * 0x20_0000_0000_0000 >= 0x100_0000_0000_0000_0000_0000_0000_0000);
            }
        }
        den = den * 2;
        k = k + 1;
    }
    let q: u128 = num / den;
    let rest: u128 = num % den;
    let up: bool = 2 * rest > den || (2 * rest == den && q % 2 == 1);
    let m: u128 = if up {
        q + 1
    } else {
        q
    };
    let j: u32 = e + k;
    proof {
        let num_i = num as int;
        let den_i = den as int;
        vstd::arithmetic::div_mod::lemma_fundamental_div_mod(num_i, den_i);
        let qi = q as int;
        assert(0x10_0000_0000_0000 <= qi < 0x20_0000_0000_0000) by (nonlinear_arith)
            requires
                num_i == den_i * qi + rest,
                0 <= rest < den_i,
                den_i * 0x10_0000_0000_0000 <= num_i < den_i * 0x20_0000_0000_0000,
        ;
        assert(m == nearest_int(num_i, den_i));
        let a = ni * two(si);
        let te = two(e as int);
        let tk = two(k as int);
        let tt = two(t as int);
        lemma_two_positive(e as int);
        lemma_two_positive(k as int);
        lemma_two_adds(t as int, e as int);
        assert(a == num_i * te) by (nonlinear_arith)
            requires
                a == ni * two(si),
                two(si) == tt * te,
                num_i == ni * tt,
        ;
        lemma_two_adds(k as int, e as int);
        assert(di * two(j as int) == den_i * te) by (nonlinear_arith)
            requires
                two(j as int) == tk * te,
                den_i == di * tk,
        ;
        lemma_two_adds(53, j as int);
        lemma_two_adds(52, j as int);
        lemma_two_53();
        let dj = di * two(j as int);
        assert(a < di * two(53 + j)) by (nonlinear_arith)
            requires
                a == num_i * te,
                num_i < den_i * 0x20_0000_0000_0000,
                te > 0,
                di * two(j as int) == den_i * te,
                two(53 + j) == 0x20_0000_0000_0000 * two(j as int),
        ;
        assert(a >= di * two(52 + j)) by (nonlinear_arith)
            requires
                a == num_i * te,
                num_i >= den_i * 0x10_0000_0000_0000,
                te > 0,
                di * two(j as int) == den_i * te,
                two(52 + j) == 0x10_0000_0000_0000 * two(j as int),
        ;
        assert(a >= 0) by (nonlinear_arith)
            requires
                a == num_i * te,
                num_i >= 0,
                te > 0,
        ;
        lemma_excess(a, di, j as int);
        lemma_nearest_int_scaled(num_i, den_i, te);
        lemma_encoded(m as int, j as int);
    }
    (j as u64) * 0x10_0000_0000_0000 + m as u64
}

// ── Operations ───────────────────────────────────────────────────────────────

/// One is two to this power units.
pub const ONE_SHIFT: u32 = 1074;

/// The units of one.
pub open spec fn one() -> int {
    two(ONE_SHIFT as int)
}

/// The value nearest to an integer.
pub open spec fn float_of(n: int) -> int {
    nearest(n * one(), 1)
}

/// The value nearest to a quotient; `y` is positive.
pub open spec fn quotient(x: int, y: int) -> int {
    nearest(x * one(), y)
}

/// The value nearest to a product.
pub open spec fn product(x: int, y: int) -> int {
    nearest(x * y, one())
}

/// The value nearest to a sum.
pub open spec fn sum(x: int, y: int) -> int {
    nearest(x + y, 1)
}

/// Converts an integer.
pub fn from_int(n: i64) -> (r: F64Bits)
    ensures
        units(r) == float_of(n as int),
        sized(r, 1021, 1142),
        (units(r) > 0) == (n > 0),
        (units(r) < 0) == (n < 0),
{
    let size: u128 = if n < 0 {
        (-(n as i128)) as u128
    } else {
        n as u128
    };
    let bits: u64 = round_size(size, 1, ONE_SHIFT);
    proof {
        let o = one();
        lemma_two_positive(ONE_SHIFT as int);
        assert(n < 0 ==> n * o < 0 && size * o == -(n * o)) by (nonlinear_arith)
            requires
                o > 0,
                n < 0 ==> size == -n,
        ;
        assert(n >= 0 ==> n * o >= 0) by (nonlinear_arith)
            requires
                o > 0,
        ;
        let e = bits as int / 0x10_0000_0000_0000;
        if n != 0 {
            let t = two(e - 1);
            lemma_two_positive(e - 1);
            let f = bits as int % 0x10_0000_0000_0000 + 0x10_0000_0000_0000;
            assert(f * t > 0) by (nonlinear_arith)
                requires
                    f > 0,
                    t > 0,
            ;
        }
    }
    signed(n < 0, bits)
}

/// Divides by a positive value, where the quotient is neither too small nor too large
/// for all 53 bits.
pub fn divide(x: F64Bits, y: F64Bits) -> (r: F64Bits)
    requires
        x.is_finite(),
        y.is_finite(),
        units(y) > 0,
        units(x) != 0 ==> -946 <= scale(x) - scale(y) <= 826,
    ensures
        units(r) == quotient(units(x), units(y)),
        sized(r, scale(x) - scale(y) + 968, scale(x) - scale(y) + 1142),
        units(x) == 0 ==> units(r) == 0,
{
    let (neg, mx, jx) = split(x);
    let (_, my, jy) = split(y);
    if mx == 0 {
        proof {
            assert(0 * one() == 0);
            lemma_nothing(units(y));
        }
        return signed(false, 0);
    }
    let s: u32 = jx + ONE_SHIFT - jy;
    let bits: u64 = round_size(mx as u128, my, s);
    proof {
        let a = mx * two(s as int);
        let c = two(jy as int);
        let o = one();
        let ux = units_of_magnitude(x.magnitude());
        lemma_two_positive(jy as int);
        lemma_two_positive(jx as int);
        lemma_two_positive(s as int);
        lemma_two_positive(ONE_SHIFT as int);
        lemma_two_adds(s as int, jy as int);
        lemma_two_adds(jx as int, ONE_SHIFT as int);
        assert(a * c == ux * o) by (nonlinear_arith)
            requires
                a == mx * two(s as int),
                two(s as int) * c == two(jx as int) * o,
                ux == mx * two(jx as int),
        ;
        assert(a >= 0) by (nonlinear_arith)
            requires
                a == mx * two(s as int),
                two(s as int) > 0,
        ;
        lemma_nearest_scaled(a, my as int, c);
        assert(ux * o > 0 && (-ux) * o == -(ux * o)) by (nonlinear_arith)
            requires
                ux == mx * two(jx as int),
                mx > 0,
                two(jx as int) > 0,
                o > 0,
        ;
    }
    signed(neg, bits)
}

proof fn lemma_nothing(b: int)
    requires
        b > 0,
    ensures
        nearest(0, b) == 0,
{
    assert(excess_bits(0, b) == 0);
    assert(b * two(0) == b);
    assert(0int / b == 0 && 0int % b == 0) by (nonlinear_arith)
        requires
            b > 0,
    ;
}

/// Multiplies, where the product is neither too small nor too large for all 53 bits.
pub fn multiply(x: F64Bits, y: F64Bits) -> (r: F64Bits)
    requires
        x.is_finite(),
        y.is_finite(),
        units(x) != 0 && units(y) != 0 ==> 1202 <= scale(x) + scale(y) <= 2974,
    ensures
        units(r) == product(units(x), units(y)),
        sized(r, scale(x) + scale(y) - 1127, scale(x) + scale(y) - 1006),
        units(x) == 0 || units(y) == 0 ==> units(r) == 0,
{
    let (nx, mx, jx) = split(x);
    let (ny, my, jy) = split(y);
    if mx == 0 || my == 0 {
        proof {
            let ux = units(x);
            let uy = units(y);
            assert(ux * uy == 0) by (nonlinear_arith)
                requires
                    ux == 0 || uy == 0,
            ;
            lemma_two_positive(ONE_SHIFT as int);
            lemma_nothing(one());
        }
        return signed(false, 0);
    }
    let s: u32 = jx + jy - ONE_SHIFT;
    assert(0 < mx * my < 0x100_0000_0000_0000_0000_0000_0000_0000) by (nonlinear_arith)
        requires
            0 < mx < 0x20_0000_0000_0000,
            0 < my < 0x20_0000_0000_0000,
    ;
    let n: u128 = (mx as u128) * (my as u128);
    let bits: u64 = round_size(n, 1, s);
    proof {
        let a = n * two(s as int);
        let c = one();
        let ux = units_of_magnitude(x.magnitude());
        let uy = units_of_magnitude(y.magnitude());
        lemma_two_positive(jx as int);
        lemma_two_positive(jy as int);
        lemma_two_positive(s as int);
        lemma_two_positive(ONE_SHIFT as int);
        lemma_two_adds(s as int, ONE_SHIFT as int);
        lemma_two_adds(jx as int, jy as int);
        let px = two(jx as int);
        let py = two(jy as int);
        assert(n == mx * my);
        assert(ux * uy == (mx * my) * (px * py)) by (nonlinear_arith)
            requires
                ux == mx * px,
                uy == my * py,
        ;
        assert(a * c == ux * uy) by (nonlinear_arith)
            requires
                a == n * two(s as int),
                two(s as int) * c == px * py,
                ux * uy == (mx * my) * (px * py),
                n == mx * my,
        ;
        assert(a >= 0) by (nonlinear_arith)
            requires
                a == n * two(s as int),
                n > 0,
                two(s as int) > 0,
        ;
        lemma_nearest_scaled(a, 1, c);
        assert(1 * c == c);
        assert(ux > 0 && uy > 0 && ux * uy > 0) by (nonlinear_arith)
            requires
                ux == mx * px,
                uy == my * py,
                mx > 0,
                my > 0,
                px > 0,
                py > 0,
        ;
        assert((-ux) * uy == -(ux * uy) && ux * (-uy) == -(ux * uy) && (-ux) * (-uy) == ux * uy)
            by (nonlinear_arith);
    }
    signed(nx != ny, bits)
}

proof fn lemma_nearest_keeps(m: int, j: int, rest: int)
    requires
        0x10_0000_0000_0000 <= m < 0x20_0000_0000_0000,
        j >= 2,
        -two(j - 2) < rest < two(j - 2),
    ensures
        m * two(j) + rest > 0,
        nearest_size(m * two(j) + rest, 1) == m * two(j),
{
    let t = two(j);
    let h = two(j - 1);
    let f = two(j - 2);
    assert(t == 2 * h && h == 2 * f);
    lemma_two_positive(j - 2);
    let a = m * t + rest;
    lemma_two_53();
    lemma_two_adds(53, j);
    lemma_two_adds(52, j);
    assert(m * t + t <= 0x20_0000_0000_0000 * t) by (nonlinear_arith)
        requires
            m + 1 <= 0x20_0000_0000_0000,
            t > 0,
    ;
    assert(m * t >= 0x10_0000_0000_0000 * t) by (nonlinear_arith)
        requires
            m >= 0x10_0000_0000_0000,
            t > 0,
    ;
    if rest >= 0 {
        lemma_excess(a, 1, j);
        vstd::arithmetic::div_mod::lemma_fundamental_div_mod_converse(a, t, m, rest);
        assert(1 * t == t);
    } else if m > 0x10_0000_0000_0000 {
        assert(m * t >= 0x10_0000_0000_0000 * t + t) by (nonlinear_arith)
            requires
                m >= 0x10_0000_0000_0000 + 1,
                t > 0,
        ;
        lemma_excess(a, 1, j);
        assert((m - 1) * t + t == m * t) by (nonlinear_arith);
        vstd::arithmetic::div_mod::lemma_fundamental_div_mod_converse(a, t, m - 1, t + rest);
        assert(1 * t == t);
    } else {
        lemma_two_adds(53, j - 1);
        lemma_two_adds(52, j - 1);
        assert(0x20_0000_0000_0000 * h == m * t);
        lemma_excess(a, 1, j - 1);
        vstd::arithmetic::div_mod::lemma_fundamental_div_mod_converse(
            a,
            h,
            0x1f_ffff_ffff_ffff,
            h + rest,
        );
        assert(1 * h == h);
    }
}

/// Adds values that are neither too small nor too large for the sum to hold all 53
/// bits.
pub fn plus(x: F64Bits, y: F64Bits) -> (r: F64Bits)
    requires
        x.is_finite(),
        y.is_finite(),
        units(x) != 0 ==> 128 <= scale(x) <= 1836,
        units(y) != 0 ==> 128 <= scale(y) <= 1836,
    ensures
        units(r) == sum(units(x), units(y)),
        forall|lo: int, hi: int|
            #![trigger sized(x, lo, hi), sized(y, lo, hi)]
            sized(x, lo, hi) && sized(y, lo, hi) && lo <= hi ==> sized(r, lo - 53, hi + 68),
{
    let (_, mx, jx) = split(x);
    let (_, my, jy) = split(y);
    if mx == 0 && my == 0 {
        proof {
            lemma_nothing(1);
        }
        return signed(false, 0);
    }
    if my == 0 || (mx != 0 && jx >= jy) {
        plus_smaller(x, y)
    } else {
        assert(sum(units(x), units(y)) == sum(units(y), units(x)));
        plus_smaller(y, x)
    }
}

/// Adds a value that is 0 or has no larger scale.
fn plus_smaller(x: F64Bits, y: F64Bits) -> (r: F64Bits)
    requires
        x.is_finite(),
        y.is_finite(),
        units(x) != 0,
        128 <= scale(x) <= 1836,
        units(y) != 0 ==> 128 <= scale(y) <= scale(x),
    ensures
        units(r) == sum(units(x), units(y)),
        r.is_finite(),
        units(y) == 0 ==> r == x,
        units(r) == 0 || units(y) == 0 || scale(y) - 53 <= scale(r) <= scale(x) + 68,
{
    let (nx, mx, jx) = split(x);
    let (ny, my, jy) = split(y);
    let ghost tx = two(jx as int);
    let ghost ux = units_of_magnitude(x.magnitude());
    let ghost uy = units_of_magnitude(y.magnitude());
    if my == 0 || jx - jy > 60 {
        proof {
            let f = two(jx - 2);
            lemma_two_positive(jx - 2);
            if my == 0 {
                assert(uy == 0);
            } else {
                let ty = two(jy as int);
                lemma_two_positive(jy as int);
                lemma_two_53();
                lemma_two_adds(53, jy as int);
                lemma_two_grows(53 + jy, jx - 2);
                assert(0 < my * ty < 0x20_0000_0000_0000 * ty) by (nonlinear_arith)
                    requires
                        0 < my < 0x20_0000_0000_0000,
                        ty > 0,
                ;
            }
            let rest = if nx == ny {
                uy
            } else {
                -uy
            };
            lemma_nearest_keeps(mx as int, jx as int, rest);
        }
        return x;
    }
    let p: u128 = power(jx - jy);
    proof {
        lemma_two_values();
        lemma_two_grows(jx - jy, 60);
        lemma_two_grows(60, 63);
        reveal_with_fuel(two, 4);
        assert(two(63) == 8 * two(60));
        assert(0 < mx * p < 0x20_0000_0000_0000 * 0x1000_0000_0000_0001) by (nonlinear_arith)
            requires
                0 < mx < 0x20_0000_0000_0000,
                0 < p <= 0x1000_0000_0000_0000,
        ;
        lemma_two_adds(jx - jy, jy as int);
        lemma_two_positive(jy as int);
    }
    let a: i128 = ((mx as u128) * p) as i128;
    let b: i128 = my as i128;
    let total: i128 = if nx == ny {
        a + b
    } else {
        a - b
    };
    let below: bool = total < 0;
    let size: u128 = if below {
        (-total) as u128
    } else {
        total as u128
    };
    let bits: u64 = round_size(size, 1, jy);
    let negative: bool = size != 0 && below != nx;
    proof {
        let ty = two(jy as int);
        let all = if nx == ny {
            ux + uy
        } else {
            ux - uy
        };
        assert(ux == a * ty) by (nonlinear_arith)
            requires
                ux == mx * tx,
                tx == p * ty,
                a == mx * p,
        ;
        assert(all == total * ty) by (nonlinear_arith)
            requires
                ux == a * ty,
                uy == b * ty,
                nx == ny ==> all == ux + uy && total == a + b,
                nx != ny ==> all == ux - uy && total == a - b,
        ;
        assert(total < 0 ==> all < 0 && size * ty == -all) by (nonlinear_arith)
            requires
                all == total * ty,
                ty > 0,
                total < 0 ==> size == -total,
        ;
        assert(total > 0 ==> all > 0) by (nonlinear_arith)
            requires
                all == total * ty,
                ty > 0,
        ;
        assert(total == 0 ==> all == 0) by (nonlinear_arith)
            requires
                all == total * ty,
        ;
        assert(units(x) + units(y) == if nx {
            -all
        } else {
            all
        });
        lemma_nothing(1);
    }
    signed(negative, bits)
}

/// `x / y` rounded to the nearest integer, halves away from zero.
pub open spec fn rounded(x: int, y: int) -> int {
    if x >= 0 {
        (2 * x + y) / (2 * y)
    } else {
        -((2 * (-x) + y) / (2 * y))
    }
}

/// A quotient is off by at most a half from the integer that it is rounded to, and where
/// it is off by exactly a half it is rounded away from zero.
pub proof fn law_rounding_to_integers(x: int, y: int)
    requires
        y > 0,
    ensures
        -y <= 2 * (x - rounded(x, y) * y) <= y,
        2 * (x - rounded(x, y) * y) == y ==> x < 0,
        2 * (x - rounded(x, y) * y) == -y ==> x > 0,
        rounded(-x, y) == -rounded(x, y),
{
    let a = if x >= 0 {
        x
    } else {
        -x
    };
    let n = 2 * a + y;
    let d = 2 * y;
    let q = n / d;
    vstd::arithmetic::div_mod::lemma_fundamental_div_mod(n, d);
    vstd::arithmetic::div_mod::lemma_mod_bound(n, d);
    assert(d * q == 2 * (q * y)) by (nonlinear_arith)
        requires
            d == 2 * y,
    ;
    assert((-q) * y == -(q * y)) by (nonlinear_arith);
    if x == 0 {
        assert(q == 0) by (nonlinear_arith)
            requires
                n == y,
                d == 2 * y,
                y > 0,
                q == n / d,
        ;
    }
}

/// A number, or the nearest of the numbers that 64 bits with a sign hold.
pub open spec fn saturated(n: int) -> int {
    if n > i64::MAX {
        i64::MAX as int
    } else if n < i64::MIN {
        i64::MIN as int
    } else {
        n
    }
}

/// The integer that a value is rounded to, halves away from zero.
pub open spec fn whole(x: int) -> int {
    saturated(rounded(x, one()))
}

proof fn lemma_rounded_scaled(a: int, b: int, c: int)
    requires
        a >= 0,
        b > 0,
        c > 0,
    ensures
        rounded(a * c, b * c) == rounded(a, b),
{
    let x = 2 * a + b;
    let y = 2 * b;
    let q = x / y;
    let r = x % y;
    vstd::arithmetic::div_mod::lemma_fundamental_div_mod(x, y);
    assert(x * c == q * (y * c) + r * c && 0 <= r * c < y * c) by (nonlinear_arith)
        requires
            x == y * q + r,
            0 <= r < y,
            c > 0,
    ;
    vstd::arithmetic::div_mod::lemma_fundamental_div_mod_converse(x * c, y * c, q, r * c);
    assert(2 * (a * c) + b * c == x * c && 2 * (b * c) == y * c && a * c >= 0) by (nonlinear_arith)
        requires
            x == 2 * a + b,
            y == 2 * b,
            a >= 0,
            c > 0,
    ;
}

/// Rounds to the nearest integer, halves away from zero, and as far as 64 bits
/// with a sign reach.
pub fn round_to_int(x: F64Bits) -> (r: i64)
    requires
        x.is_finite(),
    ensures
        r == whole(units(x)),
{
    let (negative, m, j) = split(x);
    let ghost ux = units_of_magnitude(x.magnitude());
    let ghost tj = two(j as int);
    proof {
        lemma_two_positive(j as int);
        lemma_two_positive(ONE_SHIFT as int);
        lemma_two_values();
        assert(ux >= 0) by (nonlinear_arith)
            requires
                ux == m * tj,
                tj > 0,
                m >= 0,
        ;
        assert(negative ==> rounded(-ux, one()) == -rounded(ux, one())) by {
            if ux == 0 {
                lemma_rounded_nothing(one());
            }
        }
    }
    let size: u128 = if j >= ONE_SHIFT {
        let up: u32 = j - ONE_SHIFT;
        let p: u128 = if up >= 64 {
            power(64)
        } else {
            power(up)
        };
        proof {
            lemma_two_adds(up as int, ONE_SHIFT as int);
            let q = two(up as int);
            lemma_two_positive(up as int);
            assert(ux == (m * q) * one()) by (nonlinear_arith)
                requires
                    ux == m * tj,
                    tj == q * one(),
            ;
            assert(m * q >= 0) by (nonlinear_arith)
                requires
                    q > 0,
                    m >= 0,
            ;
            lemma_rounded_scaled(m * q, 1, one());
            assert(1 * one() == one());
            let w = m * q;
            assert((2 * w + 1) / 2 == w);
            assert(rounded(w, 1) == w);
            lemma_two_grows(
                if up >= 64 {
                    64
                } else {
                    up as int
                },
                if up >= 64 {
                    up as int
                } else {
                    64
                },
            );
            assert(0 <= m * p < 0x20_0000_0000_0000 * 0x1_0000_0000_0000_0001) by (nonlinear_arith)
                requires
                    0 <= m < 0x20_0000_0000_0000,
                    0 < p <= 0x1_0000_0000_0000_0000,
            ;
            if up >= 64 {
                assert(m >= 0x10_0000_0000_0000);
                assert(m * p >= 0x10_0000_0000_0000 * 0x1_0000_0000_0000_0000) by (nonlinear_arith)
                    requires
                        m >= 0x10_0000_0000_0000,
                        p == 0x1_0000_0000_0000_0000,
                ;
                assert(m * q >= m * p) by (nonlinear_arith)
                    requires
                        q >= p,
                        m >= 0,
                ;
            }
        }
        (m as u128) * p
    } else {
        let down: u32 = ONE_SHIFT - j;
        proof {
            lemma_two_adds(down as int, j as int);
            lemma_two_positive(down as int);
            let d = two(down as int);
            assert(one() == d * tj);
            lemma_rounded_scaled(m as int, d, tj);
        }
        if down >= 64 {
            proof {
                lemma_two_grows(64, down as int);
                let d = two(down as int);
                assert((2 * m + d) / (2 * d) == 0) by (nonlinear_arith)
                    requires
                        0 <= 2 * m < d,
                ;
            }
            0
        } else {
            let d: u128 = power(down);
            proof {
                lemma_two_grows(down as int, 64);
            }
            (2 * (m as u128) + d) / (2 * d)
        }
    };
    assert(size as int == rounded(ux, one()) || (size > i64::MAX + 1 && rounded(ux, one()) > i64::MAX
        + 1));
    if negative {
        if size > 0x8000_0000_0000_0000 {
            i64::MIN
        } else {
            (-(size as i128)) as i64
        }
    } else {
        if size > 0x7fff_ffff_ffff_ffff {
            i64::MAX
        } else {
            size as i64
        }
    }
}

proof fn lemma_rounded_nothing(b: int)
    requires
        b > 0,
    ensures
        rounded(0, b) == 0,
{
    assert(b / (2 * b) == 0) by (nonlinear_arith)
        requires
            b > 0,
    ;
}

// ── Grid lines ───────────────────────────────────────────────────────────────

/// A number, or the nearest of the numbers that 32 bits with a sign hold.
pub open spec fn saturated_32(n: int) -> int {
    if n > i32::MAX {
        i32::MAX as int
    } else if n < i32::MIN {
        i32::MIN as int
    } else {
        n
    }
}

/// Half of a value, rounded down to an integer of 32 bits; 0 for what is not a
/// number.
pub open spec fn half_floor(x: F64Bits) -> int {
    if x.is_nan() {
        0
    } else if x.is_finite() {
        saturated_32(nearest(units(x), 2) / one())
    } else if x.bits >= SIGN_64 {
        i32::MIN as int
    } else {
        i32::MAX as int
    }
}

/// A value lies in the cell of two that its half rounded down names, as far as 32 bits
/// reach: half of it is at least the number of the cell and less than the next.
pub proof fn law_cells_hold_their_values(x: F64Bits)
    requires
        x.is_finite(),
        i32::MIN < half_floor(x) < i32::MAX,
    ensures
        half_floor(x) * one() <= nearest(units(x), 2) < (half_floor(x) + 1) * one(),
{
    let v = nearest(units(x), 2);
    let c = one();
    lemma_two_positive(ONE_SHIFT as int);
    vstd::arithmetic::div_mod::lemma_fundamental_div_mod(v, c);
    vstd::arithmetic::div_mod::lemma_mod_bound(v, c);
    let q = v / c;
    assert(!x.is_nan());
    assert(half_floor(x) == q);
    assert(c * q == q * c && (q + 1) * c == q * c + c) by (nonlinear_arith);
}

proof fn lemma_floor(v: int, q: int, r: int, c: int)
    requires
        c > 0,
        v == q * c + r,
        0 <= r < c,
    ensures
        v / c == q,
        (-v) / c == if r == 0 {
            -q
        } else {
            -q - 1
        },
{
    vstd::arithmetic::div_mod::lemma_fundamental_div_mod_converse(v, c, q, r);
    if r == 0 {
        assert(-v == (-q) * c) by (nonlinear_arith)
            requires
                v == q * c,
        ;
        vstd::arithmetic::div_mod::lemma_fundamental_div_mod_converse(-v, c, -q, 0);
    } else {
        assert(-v == (-q - 1) * c + (c - r)) by (nonlinear_arith)
            requires
                v == q * c + r,
        ;
        vstd::arithmetic::div_mod::lemma_fundamental_div_mod_converse(-v, c, -q - 1, c - r);
    }
}

/// Half of a value, rounded down to an integer of 32 bits.
pub fn floor_of_half(x: F64Bits) -> (r: i32)
    ensures
        r == half_floor(x),
{
    if x.not_a_number() {
        return 0;
    }
    if x.magnitude_bits() == INFINITY_64 {
        return if x.bits >= SIGN_64 {
            i32::MIN
        } else {
            i32::MAX
        };
    }
    let (negative, m, j) = split(x);
    let ghost ux = units_of_magnitude(x.magnitude());
    let ghost c = one();
    proof {
        lemma_two_positive(ONE_SHIFT as int);
        lemma_two_positive(j as int);
        assert(ux >= 0) by (nonlinear_arith)
            requires
                ux == m * two(j as int),
                m >= 0,
                two(j as int) > 0,
        ;
        assert(nearest(0, 2) == 0) by {
            lemma_nothing(2);
        }
    }
    // The size of half the value: `q` and, where `left`, something below one more.
    let mut q: u64 = 0;
    let left: bool;
    if j == 0 {
        left = m >= 2;
        proof {
            lemma_two_values();
            lemma_two_grows(53, 1074);
            let h = nearest_size(ux, 2);
            assert(ux == m) by (nonlinear_arith)
                requires
                    ux == m * two(0),
                    two(0) == 1,
            ;
            assert(excess_bits(ux, 2) == 0);
            assert(two(0) == 1 && 2 * two(0) == 2);
            let z = nearest_int(m as int, 2);
            assert(z * two(0) == z) by (nonlinear_arith)
                requires
                    two(0) == 1,
            ;
            assert(h == z);
            lemma_floor(h, 0, h, c);
        }
    } else {
        let d: u32 = if j >= 1075 {
            0
        } else {
            1075 - j
        };
        let ghost h = m * two(j - 1);
        proof {
            lemma_two_positive(j - 1);
            assert(is_value(h));
            law_values_are_kept(h, 2);
            assert(ux == h * 2) by (nonlinear_arith)
                requires
                    ux == m * two(j as int),
                    two(j as int) == 2 * two(j - 1),
                    h == m * two(j - 1),
            ;
            assert(h > 0) by (nonlinear_arith)
                requires
                    h == m * two(j - 1),
                    m > 0,
                    two(j - 1) > 0,
            ;
        }
        if d == 0 {
            q = 0xffff_ffff;
            left = false;
            proof {
                lemma_two_grows(1074, j - 1);
                lemma_two_adds(1074, j - 1 - 1074);
                let z = m * two(j - 1 - 1074);
                lemma_two_positive(j - 1 - 1074);
                assert(h == z * c) by (nonlinear_arith)
                    requires
                        h == m * two(j - 1),
                        two(j - 1) == c * two(j - 1 - 1074),
                        z == m * two(j - 1 - 1074),
                ;
                assert(z >= m) by (nonlinear_arith)
                    requires
                        z == m * two(j - 1 - 1074),
                        two(j - 1 - 1074) >= 1,
                        m >= 0,
                ;
                lemma_floor(h, z, 0, c);
            }
        } else {
            let ghost t = two(j - 1);
            proof {
                lemma_two_adds(d as int, j - 1);
            }
            if d >= 64 {
                left = true;
                proof {
                    lemma_two_values();
                    lemma_two_grows(64, d as int);
                    let p = two(d as int);
                    assert(h < c) by (nonlinear_arith)
                        requires
                            h == m * t,
                            c == p * t,
                            m < p,
                            t > 0,
                    ;
                    lemma_floor(h, 0, h, c);
                }
            } else {
                let p: u128 = power(d);
                q = ((m as u128) / p) as u64;
                let rest: u128 = (m as u128) % p;
                left = rest > 0;
                proof {
                    let pi = p as int;
                    let mi = m as int;
                    let qi = mi / pi;
                    let ri = mi % pi;
                    vstd::arithmetic::div_mod::lemma_fundamental_div_mod(mi, pi);
                    assert(0 <= qi <= mi) by (nonlinear_arith)
                        requires
                            mi == pi * qi + ri,
                            0 <= ri < pi,
                            mi >= 0,
                            pi > 0,
                    ;
                    assert(h == qi * c + ri * t && 0 <= ri * t < c && (ri * t == 0) == (ri == 0))
                        by (nonlinear_arith)
                        requires
                            h == mi * t,
                            c == pi * t,
                            mi == pi * qi + ri,
                            0 <= ri < pi,
                            t > 0,
                    ;
                    lemma_floor(h, qi, ri * t, c);
                }
            }
        }
    }
    assert(q > i32::MAX || nearest_size(ux, 2) / c == q);
    if negative {
        if q > 0x7fff_ffff {
            i32::MIN
        } else if left {
            (-(q as i64) - 1) as i32
        } else {
            (-(q as i64)) as i32
        }
    } else {
        if q > 0x7fff_ffff {
            i32::MAX
        } else {
            q as i32
        }
    }
}

// ── Order ────────────────────────────────────────────────────────────────────

proof fn lemma_next_magnitude(bits: int)
    requires
        bits >= 0,
    ensures
        units_of_magnitude(bits) < units_of_magnitude(bits + 1),
{
    let e = bits / 0x10_0000_0000_0000;
    let f = bits % 0x10_0000_0000_0000;
    if f + 1 < 0x10_0000_0000_0000 {
        assert((bits + 1) / 0x10_0000_0000_0000 == e);
        assert((bits + 1) % 0x10_0000_0000_0000 == f + 1);
        if e > 0 {
            let t = two(e - 1);
            lemma_two_positive(e - 1);
            assert((f + 0x10_0000_0000_0000) * t < (f + 1 + 0x10_0000_0000_0000) * t)
                by (nonlinear_arith)
                requires
                    t > 0,
            ;
        }
    } else {
        assert((bits + 1) / 0x10_0000_0000_0000 == e + 1);
        assert((bits + 1) % 0x10_0000_0000_0000 == 0);
        lemma_two_positive(e - 1);
        if e > 0 {
            let t = two(e - 1);
            assert(two(e) == 2 * t);
            assert((f + 0x10_0000_0000_0000) * t < 0x10_0000_0000_0000 * (2 * t))
                by (nonlinear_arith)
                requires
                    t > 0,
                    f < 0x10_0000_0000_0000,
            ;
        }
    }
}

proof fn lemma_magnitudes_grow(a: int, b: int)
    requires
        0 <= a < b,
    ensures
        units_of_magnitude(a) < units_of_magnitude(b),
    decreases b - a,
{
    lemma_next_magnitude(b - 1);
    if a < b - 1 {
        lemma_magnitudes_grow(a, b - 1);
    }
}

/// The rank of a bit pattern orders finite values as the numbers that they are.
pub proof fn law_rank_follows_value(x: F64Bits, y: F64Bits)
    requires
        x.is_finite(),
        y.is_finite(),
    ensures
        x.rank() < y.rank() <==> units(x) < units(y),
        x.rank() == y.rank() <==> units(x) == units(y),
{
    let a = x.magnitude();
    let b = y.magnitude();
    if a < b {
        lemma_magnitudes_grow(a, b);
    }
    if b < a {
        lemma_magnitudes_grow(b, a);
    }
    if a > 0 {
        lemma_magnitudes_grow(0, a);
    }
    if b > 0 {
        lemma_magnitudes_grow(0, b);
    }
    assert(units_of_magnitude(0) == 0);
}

proof fn lemma_nearest_int_grows(a: int, b: int, c: int)
    requires
        0 <= a <= b,
        c > 0,
    ensures
        nearest_int(a, c) <= nearest_int(b, c),
{
    vstd::arithmetic::div_mod::lemma_div_is_ordered(a, b, c);
    vstd::arithmetic::div_mod::lemma_fundamental_div_mod(a, c);
    vstd::arithmetic::div_mod::lemma_fundamental_div_mod(b, c);
    let q = a / c;
    if q == b / c {
        assert(a % c <= b % c);
    }
}

proof fn lemma_nearest_size_grows(a: int, b: int, c: int)
    requires
        0 <= a <= b,
        c > 0,
    ensures
        0 <= nearest_size(a, c) <= nearest_size(b, c),
{
    let i = excess_bits(a, c);
    let j = excess_bits(b, c);
    lemma_excess_bounds(a, c);
    lemma_excess_bounds(b, c);
    lemma_two_positive(i);
    lemma_two_positive(j);
    let ti = two(i);
    let tj = two(j);
    assert(c * ti > 0 && c * tj > 0) by (nonlinear_arith)
        requires
            c > 0,
            ti > 0,
            tj > 0,
    ;
    lemma_two_53();
    lemma_two_adds(53, i);
    lemma_two_adds(52, j);
    let p = nearest_int(a, c * ti);
    let q = nearest_int(b, c * tj);
    assert(0 <= a / (c * ti)) by {
        vstd::arithmetic::div_mod::lemma_div_is_ordered(0, a, c * ti);
        assert(0int / (c * ti) == 0) by (nonlinear_arith)
            requires
                c * ti > 0,
        ;
    }
    assert(p * ti >= 0) by (nonlinear_arith)
        requires
            p >= 0,
            ti > 0,
    ;
    if i == j {
        lemma_nearest_int_grows(a, b, c * ti);
        assert(p * ti <= q * ti) by (nonlinear_arith)
            requires
                p <= q,
                ti > 0,
        ;
    } else if i > j {
        lemma_two_grows(53 + j, 52 + i);
        let lo = two(53 + j);
        let hi = two(52 + i);
        assert(c * lo <= c * hi) by (nonlinear_arith)
            requires
                lo <= hi,
                c > 0,
        ;
        assert(false);
    } else {
        let d = c * ti;
        let e = c * tj;
        assert(c * two(53 + i) == 0x20_0000_0000_0000 * d) by (nonlinear_arith)
            requires
                two(53 + i) == 0x20_0000_0000_0000 * ti,
                d == c * ti,
        ;
        assert(c * two(52 + j) == 0x10_0000_0000_0000 * e) by (nonlinear_arith)
            requires
                two(52 + j) == 0x10_0000_0000_0000 * tj,
                e == c * tj,
        ;
        vstd::arithmetic::div_mod::lemma_fundamental_div_mod(a, d);
        vstd::arithmetic::div_mod::lemma_fundamental_div_mod(b, e);
        let qa = a / d;
        let qb = b / e;
        assert(qa < 0x20_0000_0000_0000) by (nonlinear_arith)
            requires
                d * qa <= a,
                a < 0x20_0000_0000_0000 * d,
                d > 0,
        ;
        assert(qb >= 0x10_0000_0000_0000) by (nonlinear_arith)
            requires
                b < e * qb + e,
                b >= 0x10_0000_0000_0000 * e,
                e > 0,
        ;
        lemma_two_grows(i, j);
        assert(p * ti <= 0x20_0000_0000_0000 * ti) by (nonlinear_arith)
            requires
                p <= 0x20_0000_0000_0000,
                ti > 0,
        ;
        assert(0x10_0000_0000_0000 * tj <= q * tj) by (nonlinear_arith)
            requires
                q >= 0x10_0000_0000_0000,
                tj > 0,
        ;
    }
}

/// A sum of at least one unit is positive.
pub proof fn lemma_sum_is_positive(x: int, y: int)
    requires
        x + y > 0,
    ensures
        sum(x, y) > 0,
{
    law_rounding_keeps_order(1, x + y, 1);
    assert(excess_bits(1, 1) == 0);
    assert(1int / 1 == 1 && 1int % 1 == 0);
    assert(nearest_int(1, 1 * two(0)) == 1);
}

/// A value converted from an integer has the sign of the integer.
pub proof fn lemma_float_sign(n: int)
    ensures
        (float_of(n) > 0) == (n > 0),
        (float_of(n) < 0) == (n < 0),
{
    let o = one();
    lemma_two_positive(ONE_SHIFT as int);
    let m = if n < 0 {
        -n
    } else {
        n
    };
    assert(n != 0 ==> m * o >= 1) by (nonlinear_arith)
        requires
            n != 0 ==> m >= 1,
            o >= 1,
    ;
    assert(n * o == if n < 0 {
        -(m * o)
    } else {
        m * o
    }) by (nonlinear_arith)
        requires
            m == if n < 0 {
                -n
            } else {
                n
            },
    ;
    if n == 0 {
        assert(n * o == 0) by (nonlinear_arith)
            requires
                n == 0,
        ;
        lemma_nothing(1);
    } else {
        lemma_sum_is_positive(m * o, 0);
    }
}

/// Rounding keeps the order of two quotients with the same denominator.
pub proof fn law_rounding_keeps_order(a: int, b: int, c: int)
    requires
        a <= b,
        c > 0,
    ensures
        nearest(a, c) <= nearest(b, c),
{
    if a >= 0 {
        lemma_nearest_size_grows(a, b, c);
    } else if b < 0 {
        lemma_nearest_size_grows(-b, -a, c);
    } else {
        lemma_nearest_size_grows(0, -a, c);
        lemma_nearest_size_grows(0, b, c);
    }
}

// ── What rounding means ──────────────────────────────────────────────────────

/// The units of a value of at most 53 bits.
pub open spec fn is_value(v: int) -> bool {
    exists|m: int, j: int|
        #![trigger m * two(j)]
        0 <= m < 0x20_0000_0000_0000 && j >= 0 && (v == m * two(j) || v == -(m * two(j)))
}

/// How far `v` units are from `a / b` units, times `b`.
pub open spec fn off_by(v: int, a: int, b: int) -> int {
    if v * b < a {
        a - v * b
    } else {
        v * b - a
    }
}

proof fn lemma_nearest_multiple(a: int, c: int, z: int)
    requires
        a >= 0,
        c > 0,
    ensures
        off_by(nearest_int(a, c), a, c) <= off_by(z, a, c),
{
    let q = a / c;
    let r = a % c;
    vstd::arithmetic::div_mod::lemma_fundamental_div_mod(a, c);
    assert(c * q == q * c && (q + 1) * c == q * c + c) by (nonlinear_arith);
    if z <= q {
        assert(z * c <= q * c) by (nonlinear_arith)
            requires
                z <= q,
                c > 0,
        ;
    } else {
        assert(z * c >= (q + 1) * c) by (nonlinear_arith)
            requires
                z >= q + 1,
                c > 0,
        ;
    }
}

proof fn lemma_nearest_size_is_nearest(a: int, b: int, m: int, j: int)
    requires
        a >= 0,
        b > 0,
        0 <= m < 0x20_0000_0000_0000,
        j >= 0,
    ensures
        off_by(nearest_size(a, b), a, b) <= off_by(m * two(j), a, b),
{
    let k = excess_bits(a, b);
    let t = two(k);
    lemma_excess_bounds(a, b);
    lemma_two_positive(k);
    lemma_two_positive(j);
    let c = b * t;
    assert(c > 0) by (nonlinear_arith)
        requires
            b > 0,
            t > 0,
            c == b * t,
    ;
    let n = nearest_int(a, c);
    assert((n * t) * b == n * c) by (nonlinear_arith)
        requires
            c == b * t,
    ;
    let v = m * two(j);
    if j >= k {
        let z = m * two(j - k);
        lemma_two_adds(j - k, k);
        assert(v * b == z * c) by (nonlinear_arith)
            requires
                v == m * two(j),
                two(j) == two(j - k) * t,
                z == m * two(j - k),
                c == b * t,
        ;
        lemma_nearest_multiple(a, c, z);
    } else {
        lemma_two_53();
        lemma_two_adds(52, k);
        lemma_two_grows(j, k);
        let z = 0x10_0000_0000_0000int;
        lemma_nearest_multiple(a, c, z);
        assert(v * b <= z * c) by (nonlinear_arith)
            requires
                v == m * two(j),
                m < 0x20_0000_0000_0000,
                two(j) > 0,
                2 * two(j) <= t,
                c == b * t,
                b > 0,
                z == 0x10_0000_0000_0000int,
        ;
        assert(z * c == b * two(52 + k)) by (nonlinear_arith)
            requires
                two(52 + k) == z * t,
                c == b * t,
        ;
    }
}

/// No value is nearer than the one that rounding gives.
pub proof fn law_no_value_is_nearer(a: int, b: int, v: int)
    requires
        b > 0,
        is_value(v),
    ensures
        off_by(nearest(a, b), a, b) <= off_by(v, a, b),
{
    let (m, j) = choose|m: int, j: int|
        #![trigger m * two(j)]
        0 <= m < 0x20_0000_0000_0000 && j >= 0 && (v == m * two(j) || v == -(m * two(j)));
    let w = m * two(j);
    lemma_two_positive(j);
    assert(w >= 0) by (nonlinear_arith)
        requires
            w == m * two(j),
            m >= 0,
            two(j) > 0,
    ;
    let size = if a < 0 {
        -a
    } else {
        a
    };
    lemma_nearest_size_is_nearest(size, b, m, j);
    let n = nearest_size(size, b);
    assert((-n) * b == -(n * b) && (-w) * b == -(w * b) && w * b >= 0) by (nonlinear_arith)
        requires
            w >= 0,
            b > 0,
    ;
}

/// Rounding a value gives the value itself.
pub proof fn law_values_are_kept(v: int, b: int)
    requires
        b > 0,
        is_value(v),
    ensures
        nearest(v * b, b) == v,
{
    law_no_value_is_nearer(v * b, b, v);
    let n = nearest(v * b, b);
    assert(n * b == v * b ==> n == v) by (nonlinear_arith)
        requires
            b > 0,
    ;
}

/// Integers of at most 53 bits are converted exactly.
pub proof fn law_small_integers_are_exact(n: int)
    requires
        -0x20_0000_0000_0000 < n < 0x20_0000_0000_0000,
    ensures
        float_of(n) == n * one(),
{
    let m = if n < 0 {
        -n
    } else {
        n
    };
    assert(n * one() == m * two(ONE_SHIFT as int) || n * one() == -(m * two(ONE_SHIFT as int)))
        by (nonlinear_arith)
        requires
            one() == two(ONE_SHIFT as int),
            n == m || n == -m,
    ;
    assert(is_value(n * one()));
    law_values_are_kept(n * one(), 1);
}

/// What is computed is a value again: at most 53 bits, and the sign.
pub proof fn law_rounding_gives_values(a: int, b: int)
    requires
        b > 0,
    ensures
        is_value(nearest(a, b)),
{
    let size = if a < 0 {
        -a
    } else {
        a
    };
    let j = excess_bits(size, b);
    lemma_excess_bounds(size, b);
    lemma_two_positive(j);
    lemma_two_53();
    lemma_two_adds(53, j);
    let t = two(j);
    let c = b * t;
    assert(c > 0 && size < 0x20_0000_0000_0000 * c) by (nonlinear_arith)
        requires
            b > 0,
            t > 0,
            c == b * t,
            size < b * two(53 + j),
            two(53 + j) == 0x20_0000_0000_0000 * t,
    ;
    let n = nearest_int(size, c);
    let q = size / c;
    vstd::arithmetic::div_mod::lemma_fundamental_div_mod(size, c);
    assert(0 <= q < 0x20_0000_0000_0000) by (nonlinear_arith)
        requires
            size == c * q + size % c,
            0 <= size % c < c,
            0 <= size < 0x20_0000_0000_0000 * c,
            c > 0,
    ;
    if n == 0x20_0000_0000_0000 {
        let half = 0x10_0000_0000_0000int;
        assert(n * t == half * two(j + 1)) by (nonlinear_arith)
            requires
                n == 2 * half,
                two(j + 1) == 2 * t,
        ;
    } else {
        assert(nearest_size(size, b) == n * two(j));
    }
}

} // verus!
