//! Font units to thousandths of an em, with the rounding of double-precision
//! arithmetic: `(value * (1000.0 / units_per_em)).round()`.
use vstd::prelude::*;

verus! {

/// Two to the power fifty-two: the least mantissa of a normalized double.
pub const MANTISSA_MIN: u128 = 0x10_0000_0000_0000;

/// Two to the power fifty-three.
pub const MANTISSA_END: u128 = 0x20_0000_0000_0000;

/// The integer nearest to a fraction, the even one of two that are equally near.
pub open spec fn nearest(n: nat, d: nat) -> nat {
    let q = n / d;
    let r = n % d;
    if 2 * r > d || (2 * r == d && q % 2 == 1) {
        q + 1
    } else {
        q
    }
}

/// Doubles numerator and denominator until the numerator reaches `target`.
pub open spec fn normalized(n: nat, d: nat, target: nat) -> (nat, nat)
    decreases (if n < target { target - n } else { 0 }),
{
    if n == 0 || n >= target {
        (n, d)
    } else {
        normalized(2 * n, 2 * d, target)
    }
}

/// The least doubling of `d` that brings `p` below two to the fifty-three times it.
pub open spec fn covering(p: nat, d: nat) -> nat
    decreases p - d,
{
    if d == 0 || p < MANTISSA_END * d {
        d
    } else {
        covering(p, 2 * d)
    }
}

/// The magnitude of a value scaled by a thousand and divided by `upem`: the
/// factor and the product are rounded to doubles, the result to the nearest
/// integer, halves upwards.
pub open spec fn scaled_magnitude(value: nat, upem: nat) -> nat {
    let (n, d) = normalized(1000, 1, MANTISSA_MIN as nat * upem);
    let product = value * nearest(n, upem);
    let unit = covering(product, 1);
    (2 * (nearest(product, unit) * unit) + d) / (2 * d)
}

/// A value in font units scaled to thousandths of an em.
pub open spec fn scaled(value: int, upem: nat) -> int {
    if value < 0 {
        -(scaled_magnitude((-value) as nat, upem) as int)
    } else {
        scaled_magnitude(value as nat, upem) as int
    }
}

fn round_fraction(n: u128, d: u128) -> (r: u128)
    requires
        0 < d < 0x1_0000_0000_0000_0000_0000,
        n < 0x1_0000_0000_0000_0000_0000,
    ensures
        r == nearest(n as nat, d as nat),
        r <= n / d + 1,
        r * d <= n + d,
{
    let q: u128 = n / d;
    let rest: u128 = n % d;
    assert(q * d + rest == n && rest < d) by (nonlinear_arith)
        requires
            q == n / d,
            rest == n % d,
            d > 0,
    ;
    assert((q + 1) * d == q * d + d) by (nonlinear_arith);
    if 2 * rest > d || (2 * rest == d && q % 2 == 1) {
        q + 1
    } else {
        q
    }
}

/// Scales a magnitude in font units.
pub fn scale_magnitude(value: u16, upem: u16) -> (r: u64)
    requires
        upem > 0,
    ensures
        r == scaled_magnitude(value as nat, upem as nat),
        r <= 0x1000_0000,
{
    let target: u128 = MANTISSA_MIN * upem as u128;
    let mut n: u128 = 1000;
    let mut d: u128 = 1;
    while n < target
        invariant
            0 < upem,
            target == MANTISSA_MIN * upem,
            n == 1000 * d,
            d >= 1,
            n < MANTISSA_END * upem,
            normalized(1000, 1, target as nat) == normalized(n as nat, d as nat, target as nat),
        decreases (if n < target { target - n } else { 0 }),
    {
        n = 2 * n;
        d = 2 * d;
    }
    let m: u128 = round_fraction(n, upem as u128);
    assert(m <= MANTISSA_END) by {
        assert(n / (upem as u128) < MANTISSA_END) by (nonlinear_arith)
            requires
                n < MANTISSA_END * upem,
                upem > 0,
        ;
    }
    assert(value as u128 * m <= 0xffff * MANTISSA_END) by (nonlinear_arith)
        requires
            m <= MANTISSA_END,
            value <= 0xffff,
    ;
    let product: u128 = value as u128 * m;
    let mut unit: u128 = 1;
    while product >= MANTISSA_END * unit
        invariant
            unit >= 1,
            unit <= 0x2_0000,
            product <= 0xffff * MANTISSA_END,
            covering(product as nat, 1) == covering(product as nat, unit as nat),
        decreases product - unit,
    {
        unit = 2 * unit;
    }
    let q: u128 = round_fraction(product, unit);
    assert(q * unit <= product + unit);
    proof {
        lemma_small(value as int, m as int, n as int, d as int, upem as int, q * unit, unit as int);
    }
    let r: u128 = (2 * (q * unit) + d) / (2 * d);
    r as u64
}

proof fn lemma_small(value: int, m: int, n: int, d: int, upem: int, w: int, unit: int)
    requires
        0 <= value <= 0xffff,
        0 < upem,
        n == 1000 * d,
        d >= 1,
        0 <= m <= n / upem + 1,
        n >= MANTISSA_MIN * upem,
        0 <= w <= value * m + unit,
        unit <= 0x2_0000,
    ensures
        (2 * w + d) / (2 * d) <= 0x1000_0000,
{
    assert(n / upem <= n) by (nonlinear_arith)
        requires
            upem > 0,
            n >= 0,
    ;
    assert(n >= MANTISSA_MIN) by (nonlinear_arith)
        requires
            n >= MANTISSA_MIN * upem,
            upem > 0,
    ;
    assert(value * m <= 0xffff * (1000 * d + 1)) by (nonlinear_arith)
        requires
            0 <= value <= 0xffff,
            0 <= m <= 1000 * d + 1,
    ;
    assert((2 * w + d) / (2 * d) <= 0x1000_0000) by (nonlinear_arith)
        requires
            w <= 0xffff * (1000 * d + 1) + 0x2_0000,
            d >= 0x100_0000,
            w >= 0,
    ;
}

/// Scales a signed value in font units.
pub fn scale(value: i32, upem: u16) -> (r: i64)
    requires
        upem > 0,
        -0xffff <= value <= 0xffff,
    ensures
        r == scaled(value as int, upem as nat),
{
    if value < 0 {
        -(scale_magnitude((-value) as u16, upem) as i64)
    } else {
        scale_magnitude(value as u16, upem) as i64
    }
}

} // verus!
