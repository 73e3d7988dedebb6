//! Floating-point numbers in whole numbers: the bits of the IEEE 754 formats,
//! the values that they stand for, and the few operations that are needed.
use vstd::prelude::*;
use vstd::string::StrSliceExecFns;
use vstd::string::StringExecFns;

use vstd::arithmetic::div_mod::{lemma_div_multiples_vanish_quotient, lemma_truncate_middle};
use vstd::arithmetic::power2::{
    lemma2_to64, lemma2_to64_rest, lemma_pow2_adds, lemma_pow2_pos, lemma_pow2_strictly_increases,
    lemma_pow2_unfold, pow2,
};

use crate::text::{decimal, decimal_text_wide};

verus! {

/// The quotient of two whole numbers as the nearest whole number; of two that
/// are equally near, the even one.
pub open spec fn half_even(n: nat, d: nat) -> nat {
    let quotient = n / d;
    let rest = n % d;
    if 2 * rest > d || (2 * rest == d && quotient % 2 == 1) {
        quotient + 1
    } else {
        quotient
    }
}

fn round_half_even(n: u128, d: u128) -> (out: u128)
    requires
        0 < d < 0x4000_0000_0000_0000_0000_0000_0000_0000,
        n < 0x4000_0000_0000_0000_0000_0000_0000_0000,
    ensures
        out == half_even(n as nat, d as nat),
{
    let quotient: u128 = n / d;
    let rest: u128 = n % d;
    assert(quotient <= n) by (nonlinear_arith)
        requires
            d > 0,
            quotient == n / d,
    ;
    if 2 * rest > d || (2 * rest == d && quotient % 2 == 1) {
        quotient + 1
    } else {
        quotient
    }
}

/// A common factor does not change the nearest whole number.
proof fn lemma_half_even_scaled(n: nat, d: nat, c: nat)
    requires
        d > 0,
        c > 0,
    ensures
        c * d > 0,
        half_even(c * n, c * d) == half_even(n, d),
{
    lemma_div_multiples_vanish_quotient(c as int, n as int, d as int);
    lemma_truncate_middle(n as int, c as int, d as int);
    let rest = n % d;
    assert((2 * (c * rest) > c * d) == (2 * rest > d)) by (nonlinear_arith)
        requires
            c > 0,
    ;
    assert((2 * (c * rest) == c * d) == (2 * rest == d)) by (nonlinear_arith)
        requires
            c > 0,
    ;
}

/// The nearest whole number is at most half away.
pub proof fn half_even_is_nearest(n: nat, d: nat)
    requires
        d > 0,
    ensures
        2 * n <= (2 * half_even(n, d) + 1) * d,
        2 * n + d >= 2 * half_even(n, d) * d,
{
    let q = n / d;
    let r = n % d;
    vstd::arithmetic::div_mod::lemma_fundamental_div_mod(n as int, d as int);
    assert((2 * q + 1) * d == 2 * (d * q) + d) by (nonlinear_arith);
    assert((2 * (q + 1) + 1) * d == 2 * (d * q) + 3 * d) by (nonlinear_arith);
    assert(2 * q * d == 2 * (d * q)) by (nonlinear_arith);
    assert(2 * (q + 1) * d == 2 * (d * q) + 2 * d) by (nonlinear_arith);
}

/// A number in the single format, by its bits.
#[derive(Clone, Copy, Debug, PartialEq, Eq, Structural)]
pub struct Single {
    pub bits: u32,
}

/// A number in the double format, by its bits.
#[derive(Clone, Copy, Debug, PartialEq, Eq, Structural)]
pub struct Double {
    pub bits: u64,
}

/// The sign bit of a single.
pub const SINGLE_SIGN: u32 = 0x8000_0000;

/// The magnitude bits of the infinite single.
pub const SINGLE_INFINITY: u32 = 0x7F80_0000;

/// The leading bit of a single's significand, which is not stored; also the
/// bit at which its exponent begins.
pub const SINGLE_HIDDEN: u32 = 0x80_0000;

/// The sign bit of a double.
pub const DOUBLE_SIGN: u64 = 0x8000_0000_0000_0000;

/// The magnitude bits of the infinite double.
pub const DOUBLE_INFINITY: u64 = 0x7FF0_0000_0000_0000;

/// The leading bit of a double's significand, which is not stored; also the
/// bit at which its exponent begins.
pub const DOUBLE_HIDDEN: u64 = 0x10_0000_0000_0000;

impl Single {
    pub open spec fn negative(self) -> bool {
        self.bits >= SINGLE_SIGN
    }

    /// The bits without the sign.
    pub open spec fn magnitude(self) -> nat {
        if self.bits >= SINGLE_SIGN {
            (self.bits - SINGLE_SIGN) as nat
        } else {
            self.bits as nat
        }
    }

    pub open spec fn finite(self) -> bool {
        self.magnitude() < SINGLE_INFINITY
    }

    /// The number without its sign, counted in the smallest numbers of the
    /// format.
    pub open spec fn units(self) -> nat {
        let exponent = self.magnitude() / SINGLE_HIDDEN as nat;
        let fraction = self.magnitude() % SINGLE_HIDDEN as nat;
        if exponent == 0 {
            fraction
        } else {
            (SINGLE_HIDDEN + fraction) as nat * pow2((exponent - 1) as nat)
        }
    }
}

impl Double {
    pub open spec fn negative(self) -> bool {
        self.bits >= DOUBLE_SIGN
    }

    /// The bits without the sign.
    pub open spec fn magnitude(self) -> nat {
        if self.bits >= DOUBLE_SIGN {
            (self.bits - DOUBLE_SIGN) as nat
        } else {
            self.bits as nat
        }
    }

    pub open spec fn finite(self) -> bool {
        self.magnitude() < DOUBLE_INFINITY
    }

    /// The number without its sign, counted in the smallest numbers of the
    /// format.
    pub open spec fn units(self) -> nat {
        let exponent = self.magnitude() / DOUBLE_HIDDEN as nat;
        let fraction = self.magnitude() % DOUBLE_HIDDEN as nat;
        if exponent == 0 {
            fraction
        } else {
            (DOUBLE_HIDDEN + fraction) as nat * pow2((exponent - 1) as nat)
        }
    }
}

/// What a magnitude stands for, where its lower part has `hidden` values.
spec fn units_of(magnitude: nat, hidden: nat) -> nat {
    let exponent = magnitude / hidden;
    let fraction = magnitude % hidden;
    if exponent == 0 {
        fraction
    } else {
        (hidden + fraction) as nat * pow2((exponent - 1) as nat)
    }
}

proof fn lemma_units_increase(a: nat, b: nat, hidden: nat)
    requires
        a < b,
        hidden > 0,
    ensures
        units_of(a, hidden) < units_of(b, hidden),
{
    let ea = a / hidden;
    let eb = b / hidden;
    let fa = a % hidden;
    let fb = b % hidden;
    vstd::arithmetic::div_mod::lemma_fundamental_div_mod(a as int, hidden as int);
    vstd::arithmetic::div_mod::lemma_fundamental_div_mod(b as int, hidden as int);
    assert(fa < hidden && fb < hidden) by (nonlinear_arith)
        requires
            hidden > 0,
            fa == a % hidden,
            fb == b % hidden,
    ;
    if ea > eb {
        assert(hidden * ea >= hidden * eb + hidden) by (nonlinear_arith)
            requires
                ea >= eb + 1,
    ;
        assert(false);
    }
    if ea == eb {
        if ea > 0 {
            let p = pow2((ea - 1) as nat);
            lemma_pow2_pos((ea - 1) as nat);
            assert((hidden + fa) * p < (hidden + fb) * p) by (nonlinear_arith)
                requires
                    fa < fb,
                    p > 0,
            ;
        }
    } else {
        let q = pow2((eb - 1) as nat);
        lemma_pow2_pos((eb - 1) as nat);
        assert((hidden + fb) * q >= hidden * q) by (nonlinear_arith);
        if ea == 0 {
            assert(hidden * q >= hidden) by (nonlinear_arith)
                requires
                    q >= 1,
            ;
        } else {
            let p = pow2((ea - 1) as nat);
            lemma_pow2_pos((ea - 1) as nat);
            lemma_pow2_unfold(ea);
            if ea < eb - 1 {
                lemma_pow2_strictly_increases(ea, (eb - 1) as nat);
            }
            assert((hidden + fa) * p < hidden * q) by (nonlinear_arith)
                requires
                    fa < hidden,
                    p > 0,
                    q >= 2 * p,
            ;
        }
    }
}

/// The order of the bits is the order of the numbers.
pub proof fn single_order_is_bit_order(a: Single, b: Single)
    ensures
        a.magnitude() < b.magnitude() <==> a.units() < b.units(),
        a.magnitude() == b.magnitude() <==> a.units() == b.units(),
{
    let hidden = SINGLE_HIDDEN as nat;
    assert(a.units() == units_of(a.magnitude(), hidden));
    assert(b.units() == units_of(b.magnitude(), hidden));
    if a.magnitude() < b.magnitude() {
        lemma_units_increase(a.magnitude(), b.magnitude(), hidden);
    } else if b.magnitude() < a.magnitude() {
        lemma_units_increase(b.magnitude(), a.magnitude(), hidden);
    }
}

/// The order of the bits is the order of the numbers.
pub proof fn double_order_is_bit_order(a: Double, b: Double)
    ensures
        a.magnitude() < b.magnitude() <==> a.units() < b.units(),
        a.magnitude() == b.magnitude() <==> a.units() == b.units(),
{
    let hidden = DOUBLE_HIDDEN as nat;
    assert(a.units() == units_of(a.magnitude(), hidden));
    assert(b.units() == units_of(b.magnitude(), hidden));
    if a.magnitude() < b.magnitude() {
        lemma_units_increase(a.magnitude(), b.magnitude(), hidden);
    } else if b.magnitude() < a.magnitude() {
        lemma_units_increase(b.magnitude(), a.magnitude(), hidden);
    }
}

impl Single {
    fn show_magnitude(self) -> (out: u32)
        ensures
            out == self.magnitude(),
    {
        if self.bits >= SINGLE_SIGN {
            self.bits - SINGLE_SIGN
        } else {
            self.bits
        }
    }

    /// Whether a number is neither infinite nor none at all.
    pub fn is_finite(self) -> (out: bool)
        ensures
            out == self.finite(),
    {
        self.show_magnitude() < SINGLE_INFINITY
    }

    /// Whether the sign is set, as it may be of zero.
    pub fn is_negative(self) -> (out: bool)
        ensures
            out == self.negative(),
    {
        self.bits >= SINGLE_SIGN
    }

    /// Whether a number is less than another, but for their signs.
    pub fn is_smaller(self, other: Single) -> (out: bool)
        ensures
            out == (self.units() < other.units()),
    {
        proof {
            single_order_is_bit_order(self, other);
        }
        self.show_magnitude() < other.show_magnitude()
    }
}

impl Double {
    fn show_magnitude(self) -> (out: u64)
        ensures
            out == self.magnitude(),
    {
        if self.bits >= DOUBLE_SIGN {
            self.bits - DOUBLE_SIGN
        } else {
            self.bits
        }
    }

    /// Whether a number is neither infinite nor none at all.
    pub fn is_finite(self) -> (out: bool)
        ensures
            out == self.finite(),
    {
        self.show_magnitude() < DOUBLE_INFINITY
    }

    /// Whether the sign is set, as it may be of zero.
    pub fn is_negative(self) -> (out: bool)
        ensures
            out == self.negative(),
    {
        self.bits >= DOUBLE_SIGN
    }

    /// Whether a number is less than another, but for their signs.
    pub fn is_smaller(self, other: Double) -> (out: bool)
        ensures
            out == (self.units() < other.units()),
    {
        proof {
            double_order_is_bit_order(self, other);
        }
        self.show_magnitude() < other.show_magnitude()
    }
}

/// How often the second number can be doubled without exceeding the first.
pub open spec fn doublings(a: nat, b: nat) -> nat
    decreases a - b,
{
    if b > 0 && a >= 2 * b {
        1 + doublings(a, 2 * b)
    } else {
        0
    }
}

/// The significand of the double that is nearest to a quotient between one and
/// two.
pub open spec fn significand(a: nat, b: nat) -> nat {
    half_even(a * DOUBLE_HIDDEN as nat, b)
}

/// The double that is nearest to a quotient; of two that are equally near, the
/// one with the even significand. It is meant for quotients of numbers up to
/// two to the power of sixty-four.
pub open spec fn nearest_double(a: nat, b: nat) -> Double {
    if a == 0 {
        Double { bits: 0 }
    } else if a >= b {
        let k = doublings(a, b);
        Double { bits: ((1022 + k) * DOUBLE_HIDDEN + significand(a, b * pow2(k))) as u64 }
    } else {
        let k = halvings(a, b);
        Double { bits: ((1022 - k) * DOUBLE_HIDDEN + significand(a * pow2(k), b)) as u64 }
    }
}

/// How often the first number has to be doubled to reach the second.
pub open spec fn halvings(a: nat, b: nat) -> nat
    decreases
            (if a < b {
                b - a
            } else {
                0
            }),
{
    if 0 < a && a < b {
        1 + halvings(2 * a, b)
    } else {
        0
    }
}

/// A whole number as the nearest one that the double format holds.
pub open spec fn rounded(n: nat) -> nat {
    if n < 2 * DOUBLE_HIDDEN {
        n
    } else {
        let step = pow2(doublings(n, DOUBLE_HIDDEN as nat));
        half_even(n, step) * step
    }
}

/// The quotient of two whole numbers, each of them taken as a double.
pub open spec fn quotient(a: u64, b: u64) -> Double {
    nearest_double(rounded(a as nat), rounded(b as nat))
}

fn round_number(n: u64) -> (out: u128)
    ensures
        out == rounded(n as nat),
        out <= 0x1_0000_0000_0000_0000,
        n > 0 ==> out > 0,
{
    if n < 2 * DOUBLE_HIDDEN {
        return n as u128;
    }
    let mut top: u128 = DOUBLE_HIDDEN as u128;
    let mut step: u128 = 1;
    let ghost mut k: nat = 0;
    proof {
        lemma2_to64();
    }
    while (n as u128) >= 2 * top
        invariant
            2 * DOUBLE_HIDDEN <= n,
            DOUBLE_HIDDEN <= top <= n,
            top == step * DOUBLE_HIDDEN,
            step == pow2(k),
            doublings(n as nat, DOUBLE_HIDDEN as nat) == k + doublings(n as nat, top as nat),
        decreases n - top,
    {
        proof {
            lemma_pow2_unfold(k + 1);
            k = k + 1;
        }
        top = 2 * top;
        step = 2 * step;
    }
    proof {
        lemma2_to64();
        assert(step * 0x10_0000_0000_0000 <= 0xFFFF_FFFF_FFFF_FFFF);
        if k > 12 {
            lemma_pow2_strictly_increases(12, k);
        }
        if k < 11 {
            lemma_pow2_strictly_increases(k, 11);
        }
    }
    let significant: u128 = round_half_even(n as u128, step);
    proof {
        half_even_is_nearest(n as nat, step as nat);
        assert(significant <= 2 * DOUBLE_HIDDEN) by (nonlinear_arith)
            requires
                2 * n + step >= 2 * significant * step,
                n < 2 * (step * DOUBLE_HIDDEN),
                step > 0,
        ;
        assert(significant > 0) by (nonlinear_arith)
            requires
                2 * n <= (2 * significant + 1) * step,
                step * DOUBLE_HIDDEN <= n,
                step > 0,
                DOUBLE_HIDDEN == 0x10_0000_0000_0000,
                significant >= 0,
        ;
        assert(0 < significant * step <= 0x1_0000_0000_0000_0000) by (nonlinear_arith)
            requires
                0 < significant <= 2 * DOUBLE_HIDDEN,
                0 < step <= 0x800,
                DOUBLE_HIDDEN == 0x10_0000_0000_0000,
        ;
    }
    significant * step
}

pub(crate) proof fn lemma_significand(a: nat, b: nat)
    requires
        0 < b <= a < 2 * b,
    ensures
        DOUBLE_HIDDEN <= significand(a, b) <= 2 * DOUBLE_HIDDEN,
{
    let n = a * DOUBLE_HIDDEN as nat;
    let m = significand(a, b);
    half_even_is_nearest(n, b);
    assert(m >= DOUBLE_HIDDEN) by (nonlinear_arith)
        requires
            2 * (a * DOUBLE_HIDDEN) <= (2 * m + 1) * b,
            0 < b <= a,
    ;
    assert(m <= 2 * DOUBLE_HIDDEN) by (nonlinear_arith)
        requires
            2 * (a * DOUBLE_HIDDEN) + b >= 2 * m * b,
            0 < b,
            a + 1 <= 2 * b,
            DOUBLE_HIDDEN == 0x10_0000_0000_0000,
    ;
}

/// The quotient of two whole numbers, each of them taken as a double.
pub fn divide(a: u64, b: u64) -> (out: Double)
    requires
        b > 0,
    ensures
        out == quotient(a, b),
        out.bits <= 1088 * DOUBLE_HIDDEN,
{
    if a == 0 {
        return Double { bits: 0 };
    }
    let mut n: u128 = round_number(a);
    let mut d: u128 = round_number(b);
    let ghost n0: nat = n as nat;
    let ghost d0: nat = d as nat;
    let ghost mut k: nat = 0;
    let mut exponent: u64 = 1022;
    proof {
        lemma2_to64();
        assert(d0 * pow2(0) == d0 && n0 * pow2(0) == n0);
    }
    if n >= d {
        while n >= 2 * d
            invariant
                0 < d <= n <= 0x1_0000_0000_0000_0000,
                n == n0,
                0 < d0,
                d == d0 * pow2(k),
                exponent == 1022 + k,
                k < 65,
                pow2(k) <= d,
                doublings(n0, d0) == k + doublings(n0, d as nat),
            decreases n - d,
        {
            proof {
                lemma_pow2_unfold(k + 1);
                assert(d0 * pow2(k + 1) == 2 * (d0 * pow2(k))) by (nonlinear_arith)
                    requires
                        pow2(k + 1) == 2 * pow2(k),
                ;
                if k >= 64 {
                    lemma2_to64();
                    assert(false);
                }
                k = k + 1;
            }
            d = 2 * d;
            exponent = exponent + 1;
        }
        assert(doublings(n0, d0) == k);
    } else {
        while n < d
            invariant
                0 < n < 2 * d,
                0 < d <= 0x1_0000_0000_0000_0000,
                d == d0,
                0 < n0,
                n == n0 * pow2(k),
                exponent == 1022 - k,
                k < 66,
                k > 0 ==> pow2((k - 1) as nat) < d,
                pow2(k) <= n,
                halvings(n0, d0) == k + halvings(n as nat, d0),
            decreases
                    (if n < d {
                        d - n
                    } else {
                        0
                    }),
        {
            proof {
                lemma_pow2_unfold(k + 1);
                assert(n0 * pow2(k + 1) == 2 * (n0 * pow2(k))) by (nonlinear_arith)
                    requires
                        pow2(k + 1) == 2 * pow2(k),
                ;
                if k >= 64 {
                    lemma2_to64();
                    if k > 64 {
                        lemma_pow2_strictly_increases(64, k);
                    }
                    assert(false);
                }
                k = k + 1;
            }
            n = 2 * n;
            exponent = exponent - 1;
        }
        assert(halvings(n0, d0) == k);
    }
    assert(n * DOUBLE_HIDDEN <= 0x20_0000_0000_0000_0000_0000_0000_0000) by (nonlinear_arith)
        requires
            n <= 0x2_0000_0000_0000_0000,
            DOUBLE_HIDDEN == 0x10_0000_0000_0000,
    ;
    let significant: u128 = round_half_even(n * (DOUBLE_HIDDEN as u128), d);
    proof {
        lemma_significand(n as nat, d as nat);
        assert(exponent * DOUBLE_HIDDEN + significant <= 1088 * DOUBLE_HIDDEN) by (nonlinear_arith)
            requires
                exponent <= 1086,
                significant <= 2 * DOUBLE_HIDDEN,
        ;
    }
    Double { bits: exponent * DOUBLE_HIDDEN + significant as u64 }
}

fn power_of_two(exponent: u64) -> (out: u128)
    requires
        exponent <= 120,
    ensures
        out == pow2(exponent as nat),
        0 < out <= 0x100_0000_0000_0000_0000_0000_0000_0000,
{
    let mut out: u128 = 1;
    let mut i: u64 = 0;
    proof {
        lemma2_to64();
        lemma_pow2_adds(60, 60);
        lemma2_to64_rest();
    }
    while i < exponent
        invariant
            i <= exponent <= 120,
            out == pow2(i as nat),
            pow2(120) == 0x100_0000_0000_0000_0000_0000_0000_0000,
            out <= pow2(120),
        decreases exponent - i,
    {
        proof {
            lemma_pow2_unfold((i + 1) as nat);
            if i + 1 < 120 {
                lemma_pow2_strictly_increases((i + 1) as nat, 120);
            }
        }
        out = 2 * out;
        i = i + 1;
    }
    proof {
        lemma_pow2_pos(exponent as nat);
    }
    out
}

/// A number of so many thousandths, with three decimals.
pub open spec fn three_decimals(n: nat) -> Seq<char> {
    decimal(n / 1000) + "."@ + decimal(n / 100 % 10) + decimal(n / 10 % 10) + decimal(n % 10)
}

fn show_three_decimals(n: u128) -> (out: String)
    ensures
        out@ == three_decimals(n as nat),
{
    decimal_text_wide(n / 1000).concat(".").concat(
        decimal_text_wide(n / 100 % 10).as_str(),
    ).concat(decimal_text_wide(n / 10 % 10).as_str()).concat(
        decimal_text_wide(n % 10).as_str(),
    )
}

/// A small number of units is far from half of many.
proof fn lemma_rounds_to_nothing(n: nat, d: nat)
    requires
        2 * n < d,
    ensures
        half_even(n, d) == 0,
{
    assert(n / d == 0) by (nonlinear_arith)
        requires
            2 * n < d,
    ;
    assert(n % d == n) by (nonlinear_arith)
        requires
            2 * n < d,
    ;
}

impl Double {
    /// The nearest number of thousandths.
    pub open spec fn thousandths(self) -> nat {
        half_even(self.units() * 1000, pow2(1074))
    }

    /// A number that is not too large, with three decimals.
    pub fn with_three_decimals(self) -> (out: String)
        requires
            self.bits <= 1088 * DOUBLE_HIDDEN,
        ensures
            out@ == three_decimals(self.thousandths()),
    {
        let exponent: u64 = self.bits / DOUBLE_HIDDEN;
        let fraction: u64 = self.bits % DOUBLE_HIDDEN;
        proof {
            lemma2_to64();
            lemma2_to64_rest();
            lemma_pow2_pos(1074);
            assert(exponent <= 1088);
        }
        let n: u128 = 1000 * (if exponent == 0 {
            fraction as u128
        } else {
            (DOUBLE_HIDDEN + fraction) as u128
        });
        let shift: u64 = if exponent == 0 {
            1074
        } else if exponent < 1075 {
            1075 - exponent
        } else {
            0
        };
        let ghost scale: nat = if exponent == 0 {
            1
        } else {
            pow2((exponent - 1) as nat)
        };
        proof {
            lemma_pow2_pos(shift as nat);
            if exponent > 0 {
                lemma_pow2_pos((exponent - 1) as nat);
            }
            let m = if exponent == 0 {
                fraction as nat
            } else {
                (DOUBLE_HIDDEN + fraction) as nat
            };
            assert(self.units() == m * scale) by {
                assert(m * 1 == m);
            }
            assert(self.units() * 1000 == scale * n as nat) by (nonlinear_arith)
                requires
                    self.units() == m * scale,
                    n == 1000 * m,
            ;
            if exponent == 0 {
                assert(pow2(1074) == scale * pow2(shift as nat));
            } else if exponent < 1075 {
                lemma_pow2_adds((exponent - 1) as nat, shift as nat);
                assert((exponent - 1) as nat + shift as nat == 1074);
            }
        }
        if exponent >= 1075 {
            let more: u128 = power_of_two(exponent - 1075);
            proof {
                lemma_pow2_adds((exponent - 1075) as nat, 1074);
                if exponent < 1088 {
                    lemma_pow2_strictly_increases((exponent - 1075) as nat, 13);
                }
                assert(n * more <= 0x1_0000_0000_0000_0000_0000_0000) by (nonlinear_arith)
                    requires
                        n <= 1000 * 0x20_0000_0000_0000,
                        more <= 0x2000,
                ;
                let whole = n as nat * more as nat;
                let unit = pow2(1074);
                assert(self.units() * 1000 == unit * whole) by (nonlinear_arith)
                    requires
                        self.units() * 1000 == scale * n as nat,
                        scale == more as nat * unit,
                        whole == n as nat * more as nat,
                ;
                assert(unit * 1 == unit);
                lemma_half_even_scaled(whole, 1, unit);
                assert(half_even(whole, 1) == whole);
            }
            return show_three_decimals(n * more);
        }
        if shift > 120 {
            proof {
                lemma_pow2_strictly_increases(64, shift as nat);
                lemma_half_even_scaled(n as nat, pow2(shift as nat), scale);
                lemma_rounds_to_nothing(n as nat, pow2(shift as nat));
            }
            return show_three_decimals(0);
        }
        proof {
            lemma_half_even_scaled(n as nat, pow2(shift as nat), scale);
        }
        show_three_decimals(round_half_even(n, power_of_two(shift)))
    }
}

/// A number of so many hundredths, with two decimals.
pub open spec fn two_decimals(n: nat) -> Seq<char> {
    decimal(n / 100) + "."@ + decimal(n / 10 % 10) + decimal(n % 10)
}

fn show_two_decimals(n: u128) -> (out: String)
    ensures
        out@ == two_decimals(n as nat),
{
    decimal_text_wide(n / 100).concat(".").concat(decimal_text_wide(n / 10 % 10).as_str()).concat(
        decimal_text_wide(n % 10).as_str(),
    )
}

impl Single {
    /// The nearest number of hundredths, but for the sign.
    pub open spec fn hundredths(self) -> nat {
        half_even(self.units() * 100, pow2(149))
    }

    /// A number with two decimals.
    pub open spec fn text(self) -> Seq<char> {
        let sign = if self.negative() {
            "-"@
        } else {
            ""@
        };
        if self.finite() {
            sign + two_decimals(self.hundredths())
        } else if self.magnitude() == SINGLE_INFINITY {
            sign + "inf"@
        } else {
            "NaN"@
        }
    }

    fn show_hundredths(self) -> (out: String)
        requires
            self.finite(),
        ensures
            out@ == two_decimals(self.hundredths()),
    {
        let magnitude: u32 = self.show_magnitude();
        let exponent: u32 = magnitude / SINGLE_HIDDEN;
        let fraction: u32 = magnitude % SINGLE_HIDDEN;
        proof {
            lemma2_to64();
            lemma2_to64_rest();
            lemma_pow2_pos(149);
            assert(exponent <= 254);
        }
        let m: u128 = if exponent == 0 {
            fraction as u128
        } else {
            (SINGLE_HIDDEN + fraction) as u128
        };
        let ghost scale: nat = if exponent == 0 {
            1
        } else {
            pow2((exponent - 1) as nat)
        };
        proof {
            if exponent > 0 {
                lemma_pow2_pos((exponent - 1) as nat);
            }
            assert(self.units() == m as nat * scale) by {
                assert(m as nat * 1 == m as nat);
            }
        }
        if exponent >= 150 {
            let more: u128 = power_of_two((exponent - 150) as u64);
            proof {
                lemma_pow2_adds((exponent - 150) as nat, 149);
                if exponent < 254 {
                    lemma_pow2_strictly_increases((exponent - 150) as nat, 104);
                }
                lemma_pow2_adds(52, 52);
                assert(m * more <= 0xFF_FFFF * 0x100_0000_0000_0000_0000_0000_0000) by (nonlinear_arith)
                    requires
                        m <= 0xFF_FFFF,
                        more <= 0x100_0000_0000_0000_0000_0000_0000,
                ;
                let whole = m as nat * more as nat;
                let unit = pow2(149);
                assert(self.units() * 100 == unit * (whole * 100)) by (nonlinear_arith)
                    requires
                        self.units() == m as nat * scale,
                        scale == more as nat * unit,
                        whole == m as nat * more as nat,
                ;
                assert(unit * 1 == unit);
                lemma_half_even_scaled(whole * 100, 1, unit);
                assert(half_even(whole * 100, 1) == whole * 100);
                assert(two_decimals(whole * 100) == decimal(whole) + "."@ + decimal(0) + decimal(0));
            }
            return decimal_text_wide(m * more).concat(".").concat(
                decimal_text_wide(0).as_str(),
            ).concat(decimal_text_wide(0).as_str());
        }
        let shift: u64 = if exponent == 0 {
            149
        } else {
            (150 - exponent) as u64
        };
        let n: u128 = 100 * m;
        proof {
            lemma_pow2_pos(shift as nat);
            assert(self.units() * 100 == scale * n as nat) by (nonlinear_arith)
                requires
                    self.units() == m as nat * scale,
                    n == 100 * m,
            ;
            if exponent == 0 {
                assert(pow2(149) == scale * pow2(shift as nat));
            } else {
                lemma_pow2_adds((exponent - 1) as nat, shift as nat);
                assert((exponent - 1) as nat + shift as nat == 149);
            }
            lemma_half_even_scaled(n as nat, pow2(shift as nat), scale);
        }
        if shift > 120 {
            proof {
                lemma_pow2_strictly_increases(64, shift as nat);
                lemma_rounds_to_nothing(n as nat, pow2(shift as nat));
            }
            return show_two_decimals(0);
        }
        show_two_decimals(round_half_even(n, power_of_two(shift)))
    }

    /// A number with two decimals.
    pub fn with_two_decimals(self) -> (out: String)
        ensures
            out@ == self.text(),
    {
        let magnitude: u32 = self.show_magnitude();
        if magnitude > SINGLE_INFINITY {
            return "NaN".to_owned();
        }
        let sign = if self.bits >= SINGLE_SIGN {
            "-".to_owned()
        } else {
            "".to_owned()
        };
        if magnitude == SINGLE_INFINITY {
            sign.concat("inf")
        } else {
            sign.concat(self.show_hundredths().as_str())
        }
    }
}

/// One.
pub const SINGLE_ONE: u32 = 0x3F80_0000;

/// The distance from one to the next number of the format.
pub const SINGLE_EPSILON: u32 = 0x3400_0000;

pub open spec fn epsilon() -> Single {
    Single { bits: SINGLE_EPSILON }
}

/// The bits of a number with a significand and an exponent, which are moved
/// until the significand is whole.
pub open spec fn packed(significand: nat, exponent: nat) -> nat
    decreases exponent,
{
    if significand >= SINGLE_HIDDEN || exponent <= 1 {
        (exponent * SINGLE_HIDDEN + significand - SINGLE_HIDDEN) as nat
    } else {
        packed(2 * significand, (exponent - 1) as nat)
    }
}

/// What is left of a number up to one when an epsilon is taken away; nothing
/// where it is no more than that.
pub open spec fn less_epsilon(x: Single) -> Single {
    if x.negative() || x.magnitude() <= SINGLE_EPSILON {
        Single { bits: 0 }
    } else {
        let exponent = x.magnitude() / SINGLE_HIDDEN as nat;
        let fraction = x.magnitude() % SINGLE_HIDDEN as nat;
        Single {
            bits: packed(
                (SINGLE_HIDDEN + fraction - pow2((127 - exponent) as nat)) as nat,
                exponent,
            ) as u32,
        }
    }
}

proof fn lemma_packed(significand: nat, exponent: nat)
    requires
        significand < 2 * SINGLE_HIDDEN,
        1 <= exponent <= 254,
    ensures
        packed(significand, exponent) < SINGLE_INFINITY,
        (Single { bits: packed(significand, exponent) as u32 }).units() == significand * pow2(
            (exponent - 1) as nat,
        ),
    decreases exponent,
{
    let bits = packed(significand, exponent);
    if significand >= SINGLE_HIDDEN {
        let fraction = (significand - SINGLE_HIDDEN) as nat;
        assert(bits == exponent * SINGLE_HIDDEN + fraction);
        assert(bits / SINGLE_HIDDEN as nat == exponent);
        assert(bits % SINGLE_HIDDEN as nat == fraction);
    } else if exponent == 1 {
        lemma2_to64();
        assert(bits == significand);
        assert(significand * pow2(0) == significand);
        assert(bits / SINGLE_HIDDEN as nat == 0);
        assert(bits % SINGLE_HIDDEN as nat == significand);
    } else {
        lemma_packed(2 * significand, (exponent - 1) as nat);
        lemma_pow2_unfold((exponent - 1) as nat);
        let p = pow2((exponent - 2) as nat);
        assert((2 * significand) * p == significand * (2 * p)) by (nonlinear_arith);
    }
}

/// Taking away an epsilon is exact.
pub proof fn less_epsilon_is_exact(x: Single)
    requires
        !x.negative(),
        x.magnitude() <= SINGLE_ONE,
    ensures
        !less_epsilon(x).negative(),
        x.units() > epsilon().units() ==> less_epsilon(x).units() + epsilon().units()
            == x.units(),
        x.units() <= epsilon().units() ==> less_epsilon(x).units() == 0,
{
    single_order_is_bit_order(x, epsilon());
    let exponent = x.magnitude() / SINGLE_HIDDEN as nat;
    let fraction = x.magnitude() % SINGLE_HIDDEN as nat;
    assert(epsilon().magnitude() / SINGLE_HIDDEN as nat == 104);
    assert(epsilon().magnitude() % SINGLE_HIDDEN as nat == 0);
    lemma2_to64();
    lemma_pow2_adds(23, 103);
    assert(epsilon().units() == pow2(126));
    if x.magnitude() > SINGLE_EPSILON {
        assert(104 <= exponent <= 127);
        let unit = pow2((exponent - 1) as nat);
        let taken = pow2((127 - exponent) as nat);
        lemma_pow2_adds((127 - exponent) as nat, (exponent - 1) as nat);
        assert((127 - exponent) as nat + (exponent - 1) as nat == 126);
        if exponent > 104 {
            lemma_pow2_strictly_increases((127 - exponent) as nat, 23);
        }
        let whole = (SINGLE_HIDDEN + fraction) as nat;
        let left = (whole - taken) as nat;
        lemma_packed(left, exponent);
        assert(left * unit + taken * unit == whole * unit) by (nonlinear_arith)
            requires
                left + taken == whole,
        ;
    }
}

impl Single {
    /// What is left of a number up to one when an epsilon is taken away;
    /// nothing where it is no more than that.
    pub fn minus_epsilon(self) -> (out: Single)
        requires
            self.magnitude() <= SINGLE_ONE,
        ensures
            out == less_epsilon(self),
    {
        if self.bits >= SINGLE_SIGN || self.bits <= SINGLE_EPSILON {
            return Single { bits: 0 };
        }
        let mut exponent: u32 = self.bits / SINGLE_HIDDEN;
        let fraction: u32 = self.bits % SINGLE_HIDDEN;
        let ghost start: nat = exponent as nat;
        proof {
            assert(104 <= exponent <= 127);
            lemma2_to64();
            if exponent > 104 {
                lemma_pow2_strictly_increases((127 - exponent) as nat, 23);
            }
        }
        let taken: u32 = power_of_two((127 - exponent) as u64) as u32;
        let mut left: u32 = SINGLE_HIDDEN + fraction - taken;
        let ghost whole: nat = left as nat;
        proof {
            lemma_packed(whole, start);
        }
        while left < SINGLE_HIDDEN && exponent > 1
            invariant
                left < 2 * SINGLE_HIDDEN,
                1 <= exponent <= 127,
                packed(whole, start) == packed(left as nat, exponent as nat),
                packed(whole, start) < SINGLE_INFINITY,
            decreases exponent,
        {
            left = 2 * left;
            exponent = exponent - 1;
        }
        Single { bits: exponent * SINGLE_HIDDEN - SINGLE_HIDDEN + left }
    }
}

proof fn lemma_half_even_increases(n: nat, m: nat, d: nat)
    requires
        n <= m,
        d > 0,
    ensures
        half_even(n, d) <= half_even(m, d),
{
    vstd::arithmetic::div_mod::lemma_fundamental_div_mod(n as int, d as int);
    vstd::arithmetic::div_mod::lemma_fundamental_div_mod(m as int, d as int);
    vstd::arithmetic::div_mod::lemma_div_is_ordered(n as int, m as int, d as int);
}

proof fn lemma_doublings_increase(a: nat, c: nat, b: nat)
    requires
        a <= c,
        b > 0,
    ensures
        doublings(a, b) <= doublings(c, b),
    decreases a - b,
{
    if a >= 2 * b {
        lemma_doublings_increase(a, c, 2 * b);
    }
}

pub(crate) proof fn lemma_doublings(a: nat, b: nat)
    requires
        0 < b <= a,
    ensures
        b * pow2(doublings(a, b)) <= a < 2 * (b * pow2(doublings(a, b))),
    decreases a - b,
{
    lemma2_to64();
    if a >= 2 * b {
        lemma_doublings(a, 2 * b);
        let k = doublings(a, 2 * b);
        lemma_pow2_unfold(k + 1);
        assert((2 * b) * pow2(k) == b * (2 * pow2(k))) by (nonlinear_arith);
    } else {
        assert(b * 1 == b);
    }
}

/// Rounding keeps the order.
pub(crate) proof fn lemma_rounded_increases(a: nat, c: nat)
    requires
        a <= c,
    ensures
        rounded(a) <= rounded(c),
{
    let hidden = DOUBLE_HIDDEN as nat;
    if c >= 2 * hidden {
        let kc = doublings(c, hidden);
        let sc = pow2(kc);
        lemma_pow2_pos(kc);
        lemma_doublings(c, hidden);
        half_even_is_nearest(c, sc);
        let mc = half_even(c, sc);
        assert(mc >= hidden) by (nonlinear_arith)
            requires
                2 * c <= (2 * mc + 1) * sc,
                hidden * sc <= c,
                sc > 0,
        ;
        if a < 2 * hidden {
            assert(kc >= 1);
            lemma_pow2_unfold(kc);
            lemma_pow2_pos((kc - 1) as nat);
            assert(mc * sc >= 2 * hidden) by (nonlinear_arith)
                requires
                    mc >= hidden,
                    sc >= 2,
            ;
        } else {
            let ka = doublings(a, hidden);
            let sa = pow2(ka);
            lemma_pow2_pos(ka);
            lemma_doublings_increase(a, c, hidden);
            if ka == kc {
                lemma_half_even_increases(a, c, sc);
                assert(half_even(a, sc) * sc <= mc * sc) by (nonlinear_arith)
                    requires
                        half_even(a, sc) <= mc,
                ;
            } else {
                lemma_doublings(a, hidden);
                half_even_is_nearest(a, sa);
                let ma = half_even(a, sa);
                assert(ma <= 2 * hidden) by (nonlinear_arith)
                    requires
                        2 * a + sa >= 2 * ma * sa,
                        a < 2 * (hidden * sa),
                        sa > 0,
                ;
                lemma_pow2_unfold(ka + 1);
                if ka + 1 < kc {
                    lemma_pow2_strictly_increases(ka + 1, kc);
                }
                assert(ma * sa <= mc * sc) by (nonlinear_arith)
                    requires
                        ma <= 2 * hidden,
                        mc >= hidden,
                        sc >= 2 * sa,
                ;
            }
        }
    }
}

pub(crate) proof fn lemma_rounded_is_moderate(c: nat)
    ensures
        rounded(c) <= 2 * c,
{
    let hidden = DOUBLE_HIDDEN as nat;
    if c >= 2 * hidden {
        let k = doublings(c, hidden);
        let step = pow2(k);
        lemma_pow2_pos(k);
        lemma_doublings(c, hidden);
        half_even_is_nearest(c, step);
        let m = half_even(c, step);
        assert(m * step <= 2 * c) by (nonlinear_arith)
            requires
                2 * c + step >= 2 * m * step,
                hidden * step <= c,
                hidden >= 1,
        ;
    }
}

pub(crate) proof fn lemma_halvings(a: nat, b: nat)
    requires
        0 < a < 2 * b,
    ensures
        b <= a * pow2(halvings(a, b)) < 2 * b,
        a < b ==> halvings(a, b) >= 1,
    decreases
            (if a < b {
                b - a
            } else {
                0
            }),
{
    lemma2_to64();
    if a < b {
        lemma_halvings(2 * a, b);
        let k = halvings(2 * a, b);
        lemma_pow2_unfold(k + 1);
        assert((2 * a) * pow2(k) == a * (2 * pow2(k))) by (nonlinear_arith);
    } else {
        assert(a * 1 == a);
    }
}

/// A number is no more than one of at least its size.
pub proof fn quotient_up_to_one(a: u64, b: u64)
    requires
        a <= b,
        0 < b,
    ensures
        quotient(a, b).magnitude() <= 1023 * DOUBLE_HIDDEN,
{
    let n = rounded(a as nat);
    let d = rounded(b as nat);
    lemma_rounded_increases(a as nat, b as nat);
    lemma_rounded_increases(1, b as nat);
    if n == 0 {
    } else if n == d {
        lemma2_to64();
        assert(d * pow2(0) == d);
        assert(significand(d, d) == DOUBLE_HIDDEN) by {
            assert(d * 1 == d);
            lemma_half_even_scaled(DOUBLE_HIDDEN as nat, 1, d);
            assert(half_even(DOUBLE_HIDDEN as nat, 1) == DOUBLE_HIDDEN);
        }
    } else {
        let k = halvings(n, d);
        lemma_halvings(n, d);
        lemma_significand(n * pow2(k), d);
        let m = significand(n * pow2(k), d);
        assert(k < 1022) by {
            lemma_rounded_is_moderate(b as nat);
            lemma2_to64();
            lemma_pow2_unfold(65);
            lemma_pow2_unfold(66);
            if k >= 66 {
                if k > 66 {
                    lemma_pow2_strictly_increases(66, k);
                }
                assert(n * pow2(k) >= pow2(66)) by (nonlinear_arith)
                    requires
                        n >= 1,
                        pow2(k) >= pow2(66),
                ;
            }
        }
        assert((1022 - k) * DOUBLE_HIDDEN + m <= 1023 * DOUBLE_HIDDEN) by (nonlinear_arith)
            requires
                1 <= k,
                m <= 2 * DOUBLE_HIDDEN,
        ;
    }
}

} // verus!
