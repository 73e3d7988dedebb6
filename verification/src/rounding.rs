//! Quotients are the nearest numbers that the double format has.
use vstd::prelude::*;

use vstd::arithmetic::power2::{
    lemma2_to64, lemma2_to64_rest, lemma_pow2_adds, lemma_pow2_pos, lemma_pow2_strictly_increases,
    lemma_pow2_unfold, pow2,
};

use crate::float::{
    doublings, half_even_is_nearest, halvings, lemma_doublings, lemma_halvings,
    lemma_rounded_increases, lemma_rounded_is_moderate, lemma_significand, quotient, rounded,
    significand, Double, DOUBLE_HIDDEN,
};

verus! {

/// How far two numbers are apart.
pub open spec fn distance(a: nat, b: nat) -> nat {
    if a <= b {
        (b - a) as nat
    } else {
        (a - b) as nat
    }
}

/// Every number of the format is a multiple of a power of two, or small beside
/// it.
proof fn lemma_units(x: Double, c: nat) -> (m: nat)
    ensures
        x.units() == m * pow2(c) || x.units() < DOUBLE_HIDDEN * pow2(c),
{
    let hidden = DOUBLE_HIDDEN as nat;
    let exponent = x.magnitude() / hidden;
    let fraction = x.magnitude() % hidden;
    lemma_pow2_pos(c);
    if exponent == 0 {
        assert(fraction < hidden * pow2(c)) by (nonlinear_arith)
            requires
                fraction < hidden,
                pow2(c) > 0,
        ;
        0
    } else {
        let e = (exponent - 1) as nat;
        let whole = (hidden + fraction) as nat;
        lemma_pow2_pos(e);
        if e >= c {
            let rest = (e - c) as nat;
            lemma_pow2_adds(rest, c);
            assert(whole * (pow2(rest) * pow2(c)) == (whole * pow2(rest)) * pow2(c))
                by (nonlinear_arith);
            whole * pow2(rest)
        } else {
            lemma_pow2_unfold(e + 1);
            if e + 1 < c {
                lemma_pow2_strictly_increases(e + 1, c);
            }
            assert(whole * pow2(e) < hidden * pow2(c)) by (nonlinear_arith)
                requires
                    whole < 2 * hidden,
                    2 * pow2(e) <= pow2(c),
                    pow2(e) > 0,
            ;
            0
        }
    }
}

/// The number whose significand is the nearest one is nearest itself, for a
/// quotient between one and two.
proof fn lemma_nearest(n: nat, d: nat, c: nat, x: Double)
    requires
        0 < d <= n < 2 * d,
    ensures
        distance(significand(n, d) * pow2(c) * d, n * DOUBLE_HIDDEN as nat * pow2(c)) <= distance(
            x.units() * d,
            n * DOUBLE_HIDDEN as nat * pow2(c),
        ),
{
    let hidden = DOUBLE_HIDDEN as nat;
    let p = pow2(c);
    let s = significand(n, d);
    let t = n * hidden;
    let u = x.units();
    lemma_pow2_pos(c);
    half_even_is_nearest(t, d);
    lemma_significand(n, d);
    let m = lemma_units(x, c);
    assert(s * p * d == (s * d) * p) by (nonlinear_arith);
    if u == m * p {
        assert(u * d == (m * d) * p) by (nonlinear_arith)
            requires
                u == m * p,
        ;
        lemma_nearest_whole(t, d, s, m);
        lemma_distance_scaled(s * d, t, p);
        lemma_distance_scaled(m * d, t, p);
        lemma_scaled_order(distance(s * d, t), distance(m * d, t), p);
    } else {
        assert(hidden * d <= t) by (nonlinear_arith)
            requires
                d <= n,
                t == n * hidden,
        ;
        lemma_nearest_whole(t, d, s, hidden);
        lemma_distance_scaled(s * d, t, p);
        lemma_distance_scaled(hidden * d, t, p);
        lemma_scaled_order(distance(s * d, t), distance(hidden * d, t), p);
        assert(u * d <= (hidden * d) * p) by (nonlinear_arith)
            requires
                u < hidden * p,
        ;
        assert((hidden * d) * p <= t * p) by (nonlinear_arith)
            requires
                hidden * d <= t,
        ;
    }
}

proof fn lemma_nearest_whole(t: nat, d: nat, s: nat, m: nat)
    requires
        d > 0,
        2 * t <= (2 * s + 1) * d,
        2 * t + d >= 2 * s * d,
    ensures
        distance(s * d, t) <= distance(m * d, t),
{
    if m > s {
        assert(m * d >= s * d + d) by (nonlinear_arith)
            requires
                m >= s + 1,
        ;
    } else if m < s {
        assert(m * d + d <= s * d) by (nonlinear_arith)
            requires
                m + 1 <= s,
        ;
    }
    assert((2 * s + 1) * d == 2 * (s * d) + d) by (nonlinear_arith);
    assert(2 * s * d == 2 * (s * d)) by (nonlinear_arith);
}

proof fn lemma_distance_scaled(a: nat, b: nat, p: nat)
    ensures
        distance(a * p, b * p) == distance(a, b) * p,
{
    if a <= b {
        assert(a * p <= b * p) by (nonlinear_arith)
            requires
                a <= b,
        ;
        assert(b * p - a * p == (b - a) * p) by (nonlinear_arith);
    } else {
        assert(b * p <= a * p) by (nonlinear_arith)
            requires
                b <= a,
        ;
        assert(a * p - b * p == (a - b) * p) by (nonlinear_arith);
        if p == 0 {
            assert(a * p == 0 && b * p == 0) by (nonlinear_arith)
                requires
                    p == 0,
            ;
        }
    }
}

proof fn lemma_scaled_order(a: nat, b: nat, p: nat)
    requires
        a <= b,
    ensures
        a * p <= b * p,
{
    assert(a * p <= b * p) by (nonlinear_arith)
        requires
            a <= b,
    ;
}

/// What a number stands for whose bits hold a whole significand.
proof fn lemma_assembled(c: nat, s: nat)
    requires
        c <= 2000,
        DOUBLE_HIDDEN <= s <= 2 * DOUBLE_HIDDEN,
    ensures
        (Double { bits: (c * DOUBLE_HIDDEN + s) as u64 }).units() == s * pow2(c),
{
    let hidden = DOUBLE_HIDDEN as nat;
    let bits = c * hidden + s;
    let x = Double { bits: bits as u64 };
    assert(x.magnitude() == bits);
    if s < 2 * hidden {
        assert(bits / hidden == c + 1 && bits % hidden == s - hidden) by (nonlinear_arith)
            requires
                bits == c * hidden + s,
                hidden <= s < 2 * hidden,
                hidden > 0,
        ;
    } else {
        assert(bits / hidden == c + 2 && bits % hidden == 0) by (nonlinear_arith)
            requires
                bits == c * hidden + s,
                s == 2 * hidden,
                hidden > 0,
        ;
        lemma_pow2_unfold(c + 1);
        assert(hidden * (2 * pow2(c)) == s * pow2(c)) by (nonlinear_arith)
            requires
                s == 2 * hidden,
        ;
    }
}

/// A power of two that a number of machine size reaches is a small one.
proof fn lemma_small_power(k: nat, b: nat, n: nat)
    requires
        0 < b,
        b * pow2(k) <= n,
        n <= 4 * u64::MAX,
    ensures
        k < 66,
{
    lemma2_to64();
    lemma_pow2_pos(k);
    assert(pow2(k) <= n) by (nonlinear_arith)
        requires
            0 < b,
            b * pow2(k) <= n,
    ;
    lemma_pow2_unfold(65);
    lemma_pow2_unfold(66);
    if k > 66 {
        lemma_pow2_strictly_increases(66, k);
    }
}

/// No number of the double format is nearer to a quotient than the one that
/// stands for it. The quotient is that of the two numbers as doubles; both
/// distances are multiplied by its divisor and counted in the smallest numbers
/// of the format.
pub proof fn quotient_is_nearest(a: u64, b: u64, x: Double)
    requires
        b > 0,
    ensures
        ({
            let exact = rounded(a as nat) * pow2(1074);
            let divisor = rounded(b as nat);
            distance(quotient(a, b).units() * divisor, exact) <= distance(
                x.units() * divisor,
                exact,
            )
        }),
{
    let hidden = DOUBLE_HIDDEN as nat;
    let n = rounded(a as nat);
    let d = rounded(b as nat);
    let q = quotient(a, b);
    let u = x.units();
    lemma_rounded_increases(1, b as nat);
    lemma_rounded_is_moderate(a as nat);
    lemma_rounded_is_moderate(b as nat);
    lemma2_to64_rest();
    if n == 0 {
        assert(q.magnitude() == 0);
        assert(q.units() == 0);
        assert(0 * d == 0 && 0 * pow2(1074) == 0);
    } else if n >= d {
        let k = doublings(n, d);
        let c = 1022 + k;
        lemma_doublings(n, d);
        lemma_small_power(k, d, n);
        let top = d * pow2(k);
        let s = significand(n, top);
        lemma_pow2_pos(k);
        lemma_significand(n, top);
        lemma_assembled(c, s);
        lemma_nearest(n, top, c, x);
        lemma_pow2_adds(1022, 52);
        lemma_pow2_adds(1022, k);
        let exact = n * pow2(1074);
        let p = pow2(c);
        assert(n * hidden * p == exact * pow2(k)) by (nonlinear_arith)
            requires
                exact == n * pow2(1074),
                pow2(1074) == pow2(1022) * hidden,
                p == pow2(1022) * pow2(k),
        ;
        assert(s * p * top == (s * p * d) * pow2(k)) by (nonlinear_arith)
            requires
                top == d * pow2(k),
        ;
        assert(u * top == (u * d) * pow2(k)) by (nonlinear_arith)
            requires
                top == d * pow2(k),
        ;
        lemma_distance_scaled(s * p * d, exact, pow2(k));
        lemma_distance_scaled(u * d, exact, pow2(k));
        let near = distance(s * p * d, exact);
        let far = distance(u * d, exact);
        assert(near <= far) by (nonlinear_arith)
            requires
                near * pow2(k) <= far * pow2(k),
                pow2(k) > 0,
        ;
    } else {
        let k = halvings(n, d);
        lemma_halvings(n, d);
        lemma_small_power(k, n, 2 * d);
        let c = (1022 - k) as nat;
        let raised = n * pow2(k);
        let s = significand(raised, d);
        lemma_significand(raised, d);
        lemma_assembled(c, s);
        lemma_nearest(raised, d, c, x);
        lemma_pow2_adds(1022, 52);
        lemma_pow2_adds(c, k);
        assert(raised * hidden * pow2(c) == n * pow2(1074)) by (nonlinear_arith)
            requires
                raised == n * pow2(k),
                pow2(1074) == pow2(1022) * hidden,
                pow2(1022) == pow2(c) * pow2(k),
        ;
    }
}

} // verus!
