//! Decimal amounts and their normalisation to two fractional digits.
use vstd::prelude::*;

verus! {

/// Largest mantissa magnitude accepted for an input amount.
pub const MAX_MANTISSA: i128 = 1_000_000_000_000_000_000;

/// Largest scale accepted for an input amount.
pub const MAX_SCALE: u32 = 18;

/// A decimal number `mantissa * 10^-scale`.
#[derive(Clone, Copy, Debug, PartialEq, Eq, Structural)]
pub struct Dec {
    pub mantissa: i128,
    pub scale: u32,
}

pub open spec fn pow10(n: nat) -> int
    decreases n,
{
    if n == 0 {
        1
    } else {
        10 * pow10((n - 1) as nat)
    }
}

/// `n / d` rounded to the nearest integer, ties away from zero.
pub open spec fn div_round_half_away(n: int, d: int) -> int {
    if n >= 0 {
        (2 * n + d) / (2 * d)
    } else {
        -((2 * (-n) + d) / (2 * d))
    }
}

/// The value `m * 10^-s` rounded to two fractional digits (half away from
/// zero), expressed in hundredths.
pub open spec fn round2_cents(m: int, s: nat) -> int {
    if s <= 2 {
        m * pow10((2 - s) as nat)
    } else {
        div_round_half_away(m, pow10((s - 2) as nat))
    }
}

impl Dec {
    /// Input amounts the library computes with exactly.
    pub open spec fn in_range(self) -> bool {
        -MAX_MANTISSA <= self.mantissa <= MAX_MANTISSA && self.scale <= MAX_SCALE
    }

    /// Amounts `money` normalises: mantissa within `10^36`, scale at most 36.
    pub open spec fn roundable(self) -> bool {
        &&& -1_000_000_000_000_000_000_000_000_000_000_000_000int <= self.mantissa
            <= 1_000_000_000_000_000_000_000_000_000_000_000_000int
        &&& self.scale <= 36
    }

    /// The value rounded to two fractional digits, in hundredths.
    pub open spec fn cents(self) -> int {
        round2_cents(self.mantissa as int, self.scale as nat)
    }

    /// A two-digit amount holding exactly `c` hundredths.
    pub open spec fn is_cents(self, c: int) -> bool {
        self.scale == 2 && self.mantissa == c
    }

    pub open spec fn is_negative_spec(self) -> bool {
        self.mantissa < 0
    }

    /// Checks `in_range`.
    pub fn in_range_exec(&self) -> (r: bool)
        ensures
            r == self.in_range(),
    {
        -MAX_MANTISSA <= self.mantissa && self.mantissa <= MAX_MANTISSA && self.scale <= MAX_SCALE
    }

    /// Whether the value is strictly greater than zero.
    pub fn is_positive(&self) -> (r: bool)
        ensures
            r == (self.mantissa > 0),
    {
        self.mantissa > 0
    }

    /// Whether the value is strictly below zero.
    pub fn is_negative(&self) -> (r: bool)
        ensures
            r == self.is_negative_spec(),
    {
        self.mantissa < 0
    }
}

pub proof fn lemma_pow10_positive(n: nat)
    ensures
        pow10(n) >= 1,
    decreases n,
{
    if n > 0 {
        lemma_pow10_positive((n - 1) as nat);
    }
}

pub proof fn lemma_pow10_monotone(a: nat, b: nat)
    requires
        a <= b,
    ensures
        pow10(a) <= pow10(b),
    decreases b,
{
    if a < b {
        lemma_pow10_monotone(a, (b - 1) as nat);
        lemma_pow10_positive((b - 1) as nat);
    }
}

proof fn lemma_pow10_36()
    ensures
        pow10(36) == 1_000_000_000_000_000_000_000_000_000_000_000_000int,
{
    reveal_with_fuel(pow10, 37);
}

fn pow10_exec(n: u32) -> (r: i128)
    requires
        n <= 36,
    ensures
        r == pow10(n as nat),
        1 <= r <= 1_000_000_000_000_000_000_000_000_000_000_000_000int,
{
    let mut r: i128 = 1;
    let mut i: u32 = 0;
    proof {
        lemma_pow10_36();
    }
    while i < n
        invariant
            i <= n <= 36,
            r == pow10(i as nat),
            pow10(36) == 1_000_000_000_000_000_000_000_000_000_000_000_000int,
        decreases n - i,
    {
        proof {
            lemma_pow10_monotone((i + 1) as nat, 36);
            assert(pow10((i + 1) as nat) == 10 * pow10(i as nat));
            assert(r * 10 <= 1_000_000_000_000_000_000_000_000_000_000_000_000int);
            assert(r * 10 >= 1) by {
                lemma_pow10_positive(i as nat);
            }
        }
        r = r * 10;
        i = i + 1;
    }
    proof {
        lemma_pow10_positive(n as nat);
        lemma_pow10_monotone(n as nat, 36);
    }
    r
}

/// Rounds `m * 10^-s` to two fractional digits, half away from zero, and
/// returns the result in hundredths.
pub fn round2_cents_exec(m: i128, s: u32) -> (r: i128)
    requires
        -pow10(36) <= m <= pow10(36),
        s <= 36,
    ensures
        r == round2_cents(m as int, s as nat),
{
    proof {
        lemma_pow10_36();
    }
    if s <= 2 {
        let f = pow10_exec(2 - s);
        proof {
            lemma_pow10_monotone((2 - s) as nat, 2);
            reveal_with_fuel(pow10, 3);
            assert(-100_000_000_000_000_000_000_000_000_000_000_000_000int <= m * f
                <= 100_000_000_000_000_000_000_000_000_000_000_000_000int) by (nonlinear_arith)
                requires
                    -1_000_000_000_000_000_000_000_000_000_000_000_000int <= m
                        <= 1_000_000_000_000_000_000_000_000_000_000_000_000int,
                    1 <= f <= 100,
            ;
        }
        m * f
    } else {
        let d = pow10_exec(s - 2);
        proof {
            lemma_pow10_monotone((s - 2) as nat, 34);
            lemma_pow10_monotone(34, 36);
            assert(pow10(36) == 100 * pow10(34)) by {
                reveal_with_fuel(pow10, 3);
                assert(pow10(35) == 10 * pow10(34));
                assert(pow10(36) == 10 * pow10(35));
            }
        }
        if m >= 0 {
            (2 * m + d) / (2 * d)
        } else {
            -((2 * (-m) + d) / (2 * d))
        }
    }
}

/// Normalises an amount to exactly two fractional digits, rounding half away
/// from zero.
pub fn money(value: Dec) -> (r: Dec)
    requires
        value.roundable(),
    ensures
        r.is_cents(value.cents()),
{
    proof {
        lemma_pow10_36();
    }
    Dec { mantissa: round2_cents_exec(value.mantissa, value.scale), scale: 2 }
}

/// The product `a * b`, rounded to two fractional digits half away from zero.
pub fn money_product(a: Dec, b: Dec) -> (r: Dec)
    requires
        a.in_range(),
        b.in_range(),
    ensures
        r.is_cents(round2_cents(a.mantissa * b.mantissa, (a.scale + b.scale) as nat)),
{
    proof {
        lemma_pow10_36();
        assert(-1_000_000_000_000_000_000_000_000_000_000_000_000int <= a.mantissa * b.mantissa
            <= 1_000_000_000_000_000_000_000_000_000_000_000_000int) by (nonlinear_arith)
            requires
                -1_000_000_000_000_000_000int <= a.mantissa <= 1_000_000_000_000_000_000int,
                -1_000_000_000_000_000_000int <= b.mantissa <= 1_000_000_000_000_000_000int,
        ;
    }
    let p = a.mantissa * b.mantissa;
    Dec { mantissa: round2_cents_exec(p, a.scale + b.scale), scale: 2 }
}

} // verus!

verus! {

/// Rounding keeps the sign of a non-negative value.
pub proof fn lemma_round2_nonnegative(m: int, s: nat)
    requires
        m >= 0,
    ensures
        round2_cents(m, s) >= 0,
{
    if s <= 2 {
        lemma_pow10_positive((2 - s) as nat);
        assert(m * pow10((2 - s) as nat) >= 0) by (nonlinear_arith)
            requires
                m >= 0,
                pow10((2 - s) as nat) >= 1,
        ;
    } else {
        lemma_pow10_positive((s - 2) as nat);
        let d = pow10((s - 2) as nat);
        assert((2 * m + d) / (2 * d) >= 0) by (nonlinear_arith)
            requires
                m >= 0,
                d >= 1,
        ;
    }
}

/// Rounding to hundredths scales a magnitude bound by at most 100.
pub proof fn lemma_round2_bounded(m: int, s: nat, b: int)
    requires
        1 <= b,
        -b <= m <= b,
    ensures
        -100 * b <= round2_cents(m, s) <= 100 * b,
{
    if s <= 2 {
        lemma_pow10_monotone((2 - s) as nat, 2);
        lemma_pow10_positive((2 - s) as nat);
        reveal_with_fuel(pow10, 3);
        let f = pow10((2 - s) as nat);
        assert(-100 * b <= m * f <= 100 * b) by (nonlinear_arith)
            requires
                -b <= m <= b,
                1 <= f <= 100,
        ;
    } else {
        lemma_pow10_positive((s - 2) as nat);
        let f = pow10((s - 2) as nat);
        if m >= 0 {
            assert(0 <= (2 * m + f) / (2 * f) <= m + 1) by (nonlinear_arith)
                requires
                    m >= 0,
                    f >= 1,
            ;
        } else {
            assert(0 <= (2 * (-m) + f) / (2 * f) <= -m + 1) by (nonlinear_arith)
                requires
                    m < 0,
                    f >= 1,
            ;
        }
    }
}

/// An input amount rounds to at most `MAX_MANTISSA * 100` hundredths.
pub proof fn lemma_round2_in_range(d: Dec)
    requires
        d.in_range(),
    ensures
        -MAX_MANTISSA * 100 <= d.cents() <= MAX_MANTISSA * 100,
{
    lemma_round2_bounded(d.mantissa as int, d.scale as nat, MAX_MANTISSA as int);
}

/// The rounded product of two input amounts stays within `pow10(38)`.
pub proof fn lemma_product_cents_bound(a: Dec, b: Dec)
    requires
        a.in_range(),
        b.in_range(),
    ensures
        -pow10(38) <= round2_cents(a.mantissa * b.mantissa, (a.scale + b.scale) as nat) <= pow10(38),
        pow10(38) == 100_000_000_000_000_000_000_000_000_000_000_000_000int,
{
    lemma_pow10_36();
    assert(pow10(38) == 100 * pow10(36)) by {
        reveal_with_fuel(pow10, 3);
        assert(pow10(37) == 10 * pow10(36));
        assert(pow10(38) == 10 * pow10(37));
    }
    assert(-pow10(36) <= a.mantissa * b.mantissa <= pow10(36)) by (nonlinear_arith)
        requires
            -1_000_000_000_000_000_000int <= a.mantissa <= 1_000_000_000_000_000_000int,
            -1_000_000_000_000_000_000int <= b.mantissa <= 1_000_000_000_000_000_000int,
            pow10(36) == 1_000_000_000_000_000_000_000_000_000_000_000_000int,
    ;
    lemma_round2_bounded(a.mantissa * b.mantissa, (a.scale + b.scale) as nat, pow10(36));
}

/// Rounding to two fractional digits is symmetric around zero, exact on
/// values with at most two fractional digits, lands within half a hundredth
/// of the value, and moves a value lying exactly halfway away from zero.
pub proof fn lemma_round2_half_away_from_zero(m: int, s: nat)
    ensures
        round2_cents(-m, s) == -round2_cents(m, s),
        s <= 2 ==> round2_cents(m, s) == m * pow10((2 - s) as nat),
        s > 2 ==> {
            let d = pow10((s - 2) as nat);
            let r = round2_cents(m, s);
            &&& -d <= 2 * (m - r * d) <= d
            &&& (2 * (m - r * d) == d || 2 * (m - r * d) == -d) ==> if m >= 0 {
                r * d > m
            } else {
                r * d < m
            }
        },
{
    if s <= 2 {
        let f = pow10((2 - s) as nat);
        assert((-m) * f == -(m * f)) by (nonlinear_arith);
    } else {
        lemma_pow10_positive((s - 2) as nat);
        let d = pow10((s - 2) as nat);
        if m == 0 {
            assert(d / (2 * d) == 0) by (nonlinear_arith)
                requires
                    d >= 1,
            ;
        }
        let a = if m >= 0 { m } else { -m };
        let q = (2 * a + d) / (2 * d);
        assert(-d <= 2 * (a - q * d) < d) by (nonlinear_arith)
            requires
                d >= 1,
                q == (2 * a + d) / (2 * d),
        ;
        let r = round2_cents(m, s);
        if m >= 0 {
            assert(r == q);
            assert(r * d == q * d);
        } else {
            assert(r == -q);
            assert((-q) * d == -(q * d)) by (nonlinear_arith);
            assert(r * d == -(q * d));
        }
        assert(-d <= 2 * (m - r * d) <= d);
    }
}

/// A two-digit amount is its own rounding.
pub proof fn lemma_round2_of_cents(c: int)
    ensures
        round2_cents(c, 2) == c,
{
    assert(pow10(0) == 1);
}

} // verus!
