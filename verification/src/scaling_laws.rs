//! What scaling gives: the nearest thousandth of an em.
use vstd::prelude::*;

use crate::scaling::{covering, nearest, normalized, scaled, scaled_magnitude, MANTISSA_END, MANTISSA_MIN};

verus! {

proof fn lemma_nearest(n: nat, d: nat)
    requires
        d > 0,
    ensures
        -(d as int) <= 2 * (nearest(n, d) * d) - 2 * n <= d,
        nearest(n, d) <= n / d + 1,
{
    let (q, r) = (n / d, n % d);
    assert(n == q * d + r && r < d) by (nonlinear_arith)
        requires
            q == n / d,
            r == n % d,
            d > 0,
    ;
    assert((q + 1) * d == q * d + d) by (nonlinear_arith);
}

proof fn lemma_normalized(d: nat, target: nat)
    requires
        d >= 1,
        1000 * d < target,
    ensures
        normalized(1000 * d, d, target).0 == 1000 * normalized(1000 * d, d, target).1,
        target <= normalized(1000 * d, d, target).0 < 2 * target,
    decreases target - 1000 * d,
{
    let e: nat = 2 * d;
    assert((2 * (1000 * d)) as nat == (1000 * e) as nat);
    assert(normalized(1000 * d, d, target) == normalized(1000 * e, e, target));
    if 1000 * e < target {
        lemma_normalized(e, target);
    } else {
        assert(normalized(1000 * e, e, target) == ((1000 * e) as nat, e));
    }
}

proof fn lemma_covering(p: nat, d: nat)
    requires
        d >= 1,
    ensures
        covering(p, d) >= 1,
        covering(p, d) == d || MANTISSA_END * covering(p, d) <= 2 * p,
    decreases p - d,
{
    if p >= MANTISSA_END * d {
        lemma_covering(p, 2 * d);
        assert(MANTISSA_END * (2 * d) == 2 * (MANTISSA_END * d)) by (nonlinear_arith);
    }
}

proof fn lemma_bound(f: nat, n: nat, u: nat, v: nat)
    requires
        0 < u <= 0xffff,
        v <= 0xffff,
        n < 2 * (MANTISSA_MIN * u),
        f <= n / u + 1,
    ensures
        v * f <= 0xffff * 0x20_0000_0000_0001,
{
    assert(n / u < 0x20_0000_0000_0000) by (nonlinear_arith)
        requires
            n < 2 * (0x10_0000_0000_0000 * u),
            u > 0,
    ;
    assert(v * f <= 0xffff * 0x20_0000_0000_0001) by (nonlinear_arith)
        requires
            v <= 0xffff,
            f <= 0x20_0000_0000_0001,
    ;
}

/// A value in font units becomes the nearest number of thousandths of an em: it is off by
/// half of one at most.
pub proof fn law_scaling_is_nearest(value: nat, upem: nat)
    requires
        value <= 0xffff,
        0 < upem <= 0xffff,
    ensures
        -(upem as int) <= 2 * (scaled_magnitude(value, upem) * upem - 1000 * value) <= upem,
{
    let target = MANTISSA_MIN as nat * upem;
    assert(target >= MANTISSA_MIN) by (nonlinear_arith)
        requires
            target == MANTISSA_MIN as nat * upem,
            upem > 0,
    ;
    lemma_normalized(1, target);
    let (n, d) = normalized(1000, 1, target);
    let f = nearest(n, upem);
    lemma_nearest(n, upem);
    let p = value * f;
    lemma_bound(f, n, upem, value);
    let c = covering(p, 1);
    lemma_covering(p, 1);
    assert(c <= 0x2_0000);
    lemma_nearest(p, c);
    let r = nearest(p, c) * c;
    let s = scaled_magnitude(value, upem);
    assert(d > 0x400_0000_0000);
    assert(s == (2 * r + d) / (2 * d));
    assert(2 * d * s <= 2 * r + d && 2 * r + d < 2 * d * s + 2 * d) by (nonlinear_arith)
        requires
            s == (2 * r + d) / (2 * d),
            d > 0,
    ;
    lemma_combine(s as int, d as int, r as int, p as int, f as int, n as int, c as int, value as int, upem as int);
}

proof fn lemma_combine(s: int, d: int, r: int, p: int, f: int, n: int, c: int, v: int, u: int)
    requires
        0 <= v <= 0xffff,
        0 < u <= 0xffff,
        d > 0x400_0000_0000,
        1 <= c <= 0x2_0000,
        n == 1000 * d,
        p == v * f,
        -u <= 2 * (f * u) - 2 * n <= u,
        -c <= 2 * r - 2 * p <= c,
        -d <= 2 * d * s - 2 * r <= d,
    ensures
        -u <= 2 * (s * u - 1000 * v) <= u,
{
    let (a, b, e) = (2 * d * s - 2 * r, 2 * r - 2 * p, 2 * (f * u) - 2 * n);
    let x = s * u - 1000 * v;
    assert(2 * d * x == u * a + u * b + v * e) by (nonlinear_arith)
        requires
            a == 2 * d * s - 2 * r,
            b == 2 * r - 2 * p,
            e == 2 * (f * u) - 2 * n,
            x == s * u - 1000 * v,
            p == v * f,
            n == 1000 * d,
    ;
    assert(-(u * d) <= u * a <= u * d) by (nonlinear_arith)
        requires
            -d <= a <= d,
            u > 0,
    ;
    assert(-(0xffff * 0x2_0000) <= u * b <= 0xffff * 0x2_0000) by (nonlinear_arith)
        requires
            -0x2_0000 <= b <= 0x2_0000,
            0 < u <= 0xffff,
    ;
    assert(-(0xffff * 0xffff) <= v * e <= 0xffff * 0xffff) by (nonlinear_arith)
        requires
            -0xffff <= e <= 0xffff,
            0 <= v <= 0xffff,
    ;
    if 2 * x > u {
        assert(2 * d * x >= d * (u + 1)) by (nonlinear_arith)
            requires
                2 * x >= u + 1,
                d > 0,
        ;
        assert(d * (u + 1) == u * d + d) by (nonlinear_arith);
    }
    if 2 * x < -u {
        assert(2 * d * x <= -(d * (u + 1))) by (nonlinear_arith)
            requires
                2 * x <= -(u + 1),
                d > 0,
        ;
        assert(d * (u + 1) == u * d + d) by (nonlinear_arith);
    }
}

/// A value below zero is scaled as its magnitude.
pub proof fn law_scaling_keeps_the_sign(value: int, upem: nat)
    ensures
        value > 0 ==> scaled(-value, upem) == -scaled(value, upem),
        value >= 0 ==> scaled(value, upem) >= 0,
{
}

} // verus!
