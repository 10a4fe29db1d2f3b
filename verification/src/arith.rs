//! Addition, subtraction, multiplication and division of single-precision
//! numbers, each giving the number nearest to the exact result.

use vstd::prelude::*;
use vstd::arithmetic::power2::{pow2, lemma2_to64, lemma_pow2_adds, lemma_pow2_pos,
    lemma_pow2_strictly_increases, lemma_pow2_unfold};
use vstd::arithmetic::div_mod::lemma_fundamental_div_mod_converse;
use crate::float::{Float, FloatValue, decode, units_of, lemma_units_increase,
    lemma_units_at_infinity, lemma_value_fixes_number, canonical};
use crate::rounding::{round_units, rounded, round_ratio, with_sign, pow2_u128, raise, lower,
    grid_exp, nearest_even, lemma_grid_exp, lemma_round_units_same_fraction, lemma_pow2_126,
    lemma_rounded_representable};

verus! {

/// The sum of two finite values, given by sign and units, rounded to nearest:
/// magnitudes add under a common sign and subtract under opposite signs, the
/// larger one giving its sign; equal magnitudes of opposite sign give plus
/// zero.
pub open spec fn finite_sum(s: bool, x: nat, t: bool, y: nat) -> FloatValue {
    if s == t {
        rounded(s, x + y, 1)
    } else if x == y {
        FloatValue::Finite { negative: false, units: 0 }
    } else if x > y {
        rounded(s, (x - y) as nat, 1)
    } else {
        rounded(t, (y - x) as nat, 1)
    }
}

impl FloatValue {
    /// The sum of two values, rounded to nearest.
    ///
    /// Infinities of opposite sign have no sum. Two equal magnitudes of
    /// opposite sign give plus zero; two zeros of one sign keep it.
    #[verifier::opaque]
    pub open spec fn plus(self, other: FloatValue) -> FloatValue {
        match (self, other) {
            (FloatValue::Nan, _) => FloatValue::Nan,
            (_, FloatValue::Nan) => FloatValue::Nan,
            (FloatValue::Infinite { negative: s }, FloatValue::Infinite { negative: t }) => if s
                == t {
                self
            } else {
                FloatValue::Nan
            },
            (FloatValue::Infinite { .. }, FloatValue::Finite { .. }) => self,
            (FloatValue::Finite { .. }, FloatValue::Infinite { .. }) => other,
            (
                FloatValue::Finite { negative: s, units: x },
                FloatValue::Finite { negative: t, units: y },
            ) => finite_sum(s, x, t, y),
        }
    }

    /// The difference of two values, rounded to nearest.
    pub open spec fn minus(self, other: FloatValue) -> FloatValue {
        self.plus(other.negated())
    }

    /// The product of two values, rounded to nearest. Zero times infinity has
    /// no value.
    #[verifier::opaque]
    pub open spec fn times(self, other: FloatValue) -> FloatValue {
        match (self, other) {
            (FloatValue::Nan, _) => FloatValue::Nan,
            (_, FloatValue::Nan) => FloatValue::Nan,
            (FloatValue::Infinite { negative: s }, FloatValue::Infinite { negative: t }) => {
                FloatValue::Infinite { negative: s != t }
            },
            (FloatValue::Infinite { negative: s }, FloatValue::Finite { negative: t, units }) => {
                if units == 0 {
                    FloatValue::Nan
                } else {
                    FloatValue::Infinite { negative: s != t }
                }
            },
            (FloatValue::Finite { negative: s, units }, FloatValue::Infinite { negative: t }) => {
                if units == 0 {
                    FloatValue::Nan
                } else {
                    FloatValue::Infinite { negative: s != t }
                }
            },
            (
                FloatValue::Finite { negative: s, units: x },
                FloatValue::Finite { negative: t, units: y },
            ) => rounded(s != t, x * y, pow2(149)),
        }
    }

    /// The quotient of two values, rounded to nearest. Zero over zero and
    /// infinity over infinity have no value; anything else over zero is
    /// infinite.
    #[verifier::opaque]
    pub open spec fn over(self, other: FloatValue) -> FloatValue {
        match (self, other) {
            (FloatValue::Nan, _) => FloatValue::Nan,
            (_, FloatValue::Nan) => FloatValue::Nan,
            (FloatValue::Infinite { .. }, FloatValue::Infinite { .. }) => FloatValue::Nan,
            (FloatValue::Infinite { negative: s }, FloatValue::Finite { negative: t, .. }) => {
                FloatValue::Infinite { negative: s != t }
            },
            (FloatValue::Finite { negative: s, .. }, FloatValue::Infinite { negative: t }) => {
                FloatValue::Finite { negative: s != t, units: 0 }
            },
            (
                FloatValue::Finite { negative: s, units: x },
                FloatValue::Finite { negative: t, units: y },
            ) => if y == 0 {
                if x == 0 {
                    FloatValue::Nan
                } else {
                    FloatValue::Infinite { negative: s != t }
                }
            } else {
                rounded(s != t, x * pow2(149), y)
            },
        }
    }
}

impl Float {
    /// The sum of two numbers: the number that stands for the rounded sum of
    /// their values.
    pub open spec fn sum(self, rhs: Float) -> Float {
        Float::of(self@.plus(rhs@))
    }

    /// The difference of two numbers.
    pub open spec fn difference(self, rhs: Float) -> Float {
        Float::of(self@.minus(rhs@))
    }

    /// The product of two numbers.
    pub open spec fn product(self, rhs: Float) -> Float {
        Float::of(self@.times(rhs@))
    }

    /// The quotient of two numbers.
    pub open spec fn quotient(self, rhs: Float) -> Float {
        Float::of(self@.over(rhs@))
    }
}

/// The product of two significands on two grids, as a quotient of units.
proof fn lemma_product_fraction(ma: nat, ka: nat, mb: nat, kb: nat)
    ensures
        pow2(149) > 0,
        pow2(lower(ka + kb - 149)) > 0,
        round_units((ma * mb) * pow2(raise(ka + kb - 149)), 1 * pow2(lower(ka + kb - 149)))
            == round_units((ma * pow2(ka)) * (mb * pow2(kb)), pow2(149)),
{
    let t = ka + kb - 149;
    let up = pow2(raise(t));
    let down = pow2(lower(t));
    lemma_pow2_pos(149);
    lemma_pow2_pos(lower(t));
    lemma_pow2_adds(ka, kb);
    lemma2_to64();
    if t >= 0 {
        lemma_pow2_adds(t as nat, 149);
        assert(t as nat + 149 == ka + kb);
        assert(down == 1);
        assert(up * pow2(149) == pow2(ka + kb) * down) by (nonlinear_arith)
            requires
                pow2(ka + kb) == up * pow2(149),
                down == 1,
        ;
    } else {
        lemma_pow2_adds((-t) as nat, ka + kb);
        assert((-t) as nat + (ka + kb) == 149);
        assert(up == 1);
        assert(up * pow2(149) == pow2(ka + kb) * down) by (nonlinear_arith)
            requires
                pow2(149) == down * pow2(ka + kb),
                up == 1,
        ;
    }
    assert(((ma * mb) * up) * pow2(149) == ((ma * pow2(ka)) * (mb * pow2(kb))) * (1 * down))
        by (nonlinear_arith)
        requires
            up * pow2(149) == pow2(ka + kb) * down,
            pow2(ka + kb) == pow2(ka) * pow2(kb),
    ;
    lemma_round_units_same_fraction(
        (ma * mb) * up,
        1 * down,
        (ma * pow2(ka)) * (mb * pow2(kb)),
        pow2(149),
    );
}

/// The quotient of two significands on two grids, as a quotient of units.
proof fn lemma_quotient_fraction(ma: nat, ka: nat, mb: nat, kb: nat)
    requires
        mb > 0,
    ensures
        mb * pow2(kb) > 0,
        round_units(
            (ma * pow2(50)) * pow2(raise(ka - kb + 99)),
            mb * pow2(lower(ka - kb + 99)),
        ) == round_units((ma * pow2(ka)) * pow2(149), mb * pow2(kb)),
{
    let t = ka - kb + 99;
    let up = pow2(raise(t));
    let down = pow2(lower(t));
    lemma_pow2_pos(kb);
    lemma_pow2_pos(lower(t));
    lemma2_to64();
    // 2^50 * up * 2^kb == 2^ka * 2^149 * down
    lemma_pow2_adds(ka, 149);
    if t >= 0 {
        lemma_pow2_adds(50, t as nat);
        lemma_pow2_adds(50 + t as nat, kb);
        assert(50 + t as nat + kb == ka + 149);
        assert(down == 1);
        assert((pow2(50) * up) * pow2(kb) == (pow2(ka) * pow2(149)) * down) by (nonlinear_arith)
            requires
                pow2(ka + 149) == pow2(ka) * pow2(149),
                pow2(50 + t as nat) == pow2(50) * up,
                pow2(ka + 149) == pow2(50 + t as nat) * pow2(kb),
                down == 1,
        ;
    } else {
        lemma_pow2_adds(50, kb);
        lemma_pow2_adds(ka + 149, (-t) as nat);
        assert(ka + 149 + (-t) as nat == 50 + kb);
        assert(up == 1);
        assert((pow2(50) * up) * pow2(kb) == (pow2(ka) * pow2(149)) * down) by (nonlinear_arith)
            requires
                pow2(ka + 149) == pow2(ka) * pow2(149),
                pow2(50 + kb) == pow2(50) * pow2(kb),
                pow2(50 + kb) == pow2(ka + 149) * down,
                up == 1,
        ;
    }
    assert(mb * pow2(kb) > 0) by (nonlinear_arith)
        requires
            mb > 0,
            pow2(kb) > 0,
    ;
    assert(mb * down > 0) by (nonlinear_arith)
        requires
            mb > 0,
            down > 0,
    ;
    let a = pow2(50) * up;
    let b = pow2(kb);
    let c = pow2(ka) * pow2(149);
    assert(a * b == c * down);
    assert((ma * pow2(50)) * up == ma * a) by (nonlinear_arith)
        requires
            a == pow2(50) * up,
    ;
    assert((ma * pow2(ka)) * pow2(149) == ma * c) by (nonlinear_arith)
        requires
            c == pow2(ka) * pow2(149),
    ;
    assert((ma * a) * (mb * b) == (ma * mb) * (a * b)) by (nonlinear_arith);
    assert((ma * c) * (mb * down) == (ma * mb) * (c * down)) by (nonlinear_arith);
    lemma_round_units_same_fraction(
        (ma * pow2(50)) * up,
        mb * down,
        (ma * pow2(ka)) * pow2(149),
        mb * pow2(kb),
    );
}

impl Float {
    /// The significand and the grid exponent of a finite number: its
    /// magnitude is `m * 2^k` units.
    pub(crate) fn parts(self) -> (r: (u128, i32))
        requires
            self@ is Finite,
        ensures
            self@ == (FloatValue::Finite {
                negative: self.bits >= 0x8000_0000,
                units: r.0 as nat * pow2(r.1 as nat),
            }),
            r.0 < 0x100_0000,
            0 <= r.1 <= 253,
            r.1 > 0 ==> r.0 >= 0x80_0000,
            r.1 == if (self.bits % 0x8000_0000) / 0x80_0000 == 0 {
                0int
            } else {
                (self.bits % 0x8000_0000) / 0x80_0000 - 1
            },
    {
        let mag: u32 = self.bits % 0x8000_0000;
        let e: u32 = mag / 0x80_0000;
        let f: u32 = mag % 0x80_0000;
        proof {
            lemma2_to64();
        }
        if e == 0 {
            assert(f as nat * pow2(0) == f) by (nonlinear_arith)
                requires
                    pow2(0) == 1,
            ;
            (f as u128, 0)
        } else {
            ((f + 0x80_0000) as u128, (e - 1) as i32)
        }
    }

    /// The product, rounded to nearest.
    pub fn mul(self, rhs: Float) -> (r: Float)
        ensures
            r@ == self@.times(rhs@),
            r == self.product(rhs),
    {
        let r: Float = self.mul_rounded(rhs);
        proof {
            lemma_value_fixes_number(r);
        }
        r
    }

    fn mul_rounded(self, rhs: Float) -> (r: Float)
        ensures
            r@ == self@.times(rhs@),
            canonical(r),
    {
        reveal(FloatValue::times);
        if self.is_nan() || rhs.is_nan() {
            return Float { bits: 0x7fc0_0000 };
        }
        let negative: bool = self.is_sign_negative() != rhs.is_sign_negative();
        if self.is_infinite() || rhs.is_infinite() {
            if self.is_zero() || rhs.is_zero() {
                return Float { bits: 0x7fc0_0000 };
            }
            return with_sign(negative, 0x7f80_0000);
        }
        let (ma, ka) = self.parts();
        let (mb, kb) = rhs.parts();
        proof {
            lemma_product_fraction(ma as nat, ka as nat, mb as nat, kb as nat);
            lemma_pow2_126();
            assert(ma * mb < 0x10_0000_0000_0000_0000_0000_0000) by (nonlinear_arith)
                requires
                    ma < 0x100_0000,
                    mb < 0x100_0000,
            ;
        }
        round_ratio(negative, ma * mb, 1, ka + kb - 149)
    }

    /// The quotient, rounded to nearest.
    pub fn div(self, rhs: Float) -> (r: Float)
        ensures
            r@ == self@.over(rhs@),
            r == self.quotient(rhs),
    {
        let r: Float = self.div_rounded(rhs);
        proof {
            lemma_value_fixes_number(r);
        }
        r
    }

    fn div_rounded(self, rhs: Float) -> (r: Float)
        ensures
            r@ == self@.over(rhs@),
            canonical(r),
    {
        reveal(FloatValue::over);
        if self.is_nan() || rhs.is_nan() {
            return Float { bits: 0x7fc0_0000 };
        }
        let negative: bool = self.is_sign_negative() != rhs.is_sign_negative();
        if self.is_infinite() {
            if rhs.is_infinite() {
                return Float { bits: 0x7fc0_0000 };
            }
            return with_sign(negative, 0x7f80_0000);
        }
        if rhs.is_infinite() {
            proof {
                lemma_units_increase(0, 0x7f80_0000);
            }
            return with_sign(negative, 0);
        }
        if rhs.is_zero() {
            if self.is_zero() {
                return Float { bits: 0x7fc0_0000 };
            }
            return with_sign(negative, 0x7f80_0000);
        }
        let (ma, ka) = self.parts();
        let (mb, kb) = rhs.parts();
        proof {
            lemma2_to64();
            lemma_pow2_adds(32, 18);
            assert(pow2(50) == 0x4_0000_0000_0000);
            if mb == 0 {
                assert(mb as nat * pow2(kb as nat) == 0) by (nonlinear_arith)
                    requires
                        mb == 0,
                ;
            }
            lemma_quotient_fraction(ma as nat, ka as nat, mb as nat, kb as nat);
        }
        let num: u128 = ma * 0x4_0000_0000_0000;
        proof {
            assert(mb > 0);
            if ma > 0 {
                assert(0x400_0000 * mb <= num < 0x400_0000_0000_0000_0000int * mb)
                    by (nonlinear_arith)
                    requires
                        num == ma * 0x4_0000_0000_0000,
                        0 < ma < 0x100_0000,
                        0 < mb < 0x100_0000,
                ;
                crate::rounding::lemma_div_bounds(
                    num as int,
                    mb as int,
                    0x400_0000,
                    0x400_0000_0000_0000_0000int,
                );
            } else {
                lemma_fundamental_div_mod_converse(0, mb as int, 0, 0);
            }
        }
        round_ratio(negative, num, mb, ka - kb + 99)
    }
}

/// A normal number `m * 2^k` swallows anything below a quarter of its last
/// place: added or taken away, it rounds back to the number itself.
proof fn lemma_far_sum(m: nat, k: nat, v: nat)
    requires
        0x80_0000 <= m < 0x100_0000,
        k >= 2,
        v < pow2((k - 2) as nat),
    ensures
        v < m * pow2(k),
        round_units(m * pow2(k) + v, 1) == m * pow2(k),
        round_units((m * pow2(k) - v) as nat, 1) == m * pow2(k),
{
    let p = pow2(k);
    let h = pow2((k - 1) as nat);
    let qtr = pow2((k - 2) as nat);
    lemma_pow2_unfold(k);
    lemma_pow2_unfold((k - 1) as nat);
    lemma_pow2_pos((k - 2) as nat);
    let a = m * p;
    assert(0x80_0000 * p <= a && a + p <= 0x100_0000 * p) by (nonlinear_arith)
        requires
            a == m * p,
            0x80_0000 <= m < 0x100_0000,
            p > 0,
    ;
    assert(0x80_0000 * p == 0x100_0000 * h) by (nonlinear_arith)
        requires
            p == 2 * h,
    ;
    assert(0x80_0000 * h <= 0x100_0000 * h - h) by (nonlinear_arith)
        requires
            h > 0,
    ;
    // adding
    let up = a + v;
    lemma_grid_exp(up, k);
    assert(up / 1 == up);
    assert(1 * p == p);
    lemma_fundamental_div_mod_converse(up as int, p as int, m as int, v as int);
    assert(nearest_even(up, p) == m);
    // taking away
    let down = (a - v) as nat;
    if v == 0 {
    } else if m > 0x80_0000 {
        assert(a - p >= 0x80_0000 * p) by (nonlinear_arith)
            requires
                a == m * p,
                m > 0x80_0000,
        ;
        lemma_grid_exp(down, k);
        assert(down / 1 == down);
        assert(down == (m - 1) * p + (p - v)) by (nonlinear_arith)
            requires
                down == a - v,
                a == m * p,
        ;
        lemma_fundamental_div_mod_converse(
            down as int,
            p as int,
            (m - 1) as int,
            (p - v) as int,
        );
        assert(nearest_even(down, p) == m);
    } else {
        lemma_grid_exp(down, (k - 1) as nat);
        assert(down / 1 == down);
        assert(1 * h == h);
        assert(down == (0x100_0000 - 1) * h + (h - v)) by (nonlinear_arith)
            requires
                down == a - v,
                a == 0x80_0000 * p,
                p == 2 * h,
        ;
        lemma_fundamental_div_mod_converse(
            down as int,
            h as int,
            0x100_0000 - 1,
            (h - v) as int,
        );
        assert(nearest_even(down, h) == 0x100_0000);
        assert(0x100_0000 * h == a);
    }
}

impl Float {
    /// The sum of two finite numbers of which the first lies on the coarser
    /// grid.
    fn add_aligned(self, rhs: Float) -> (r: Float)
        requires
            self@ is Finite,
            rhs@ is Finite,
            (self.bits % 0x8000_0000) / 0x80_0000 >= (rhs.bits % 0x8000_0000) / 0x80_0000,
        ensures
            r@ == self@.plus(rhs@),
            canonical(r),
    {
        reveal(FloatValue::plus);
        let sx: bool = self.is_sign_negative();
        let sy: bool = rhs.is_sign_negative();
        let (mx, kx) = self.parts();
        let (my, ky) = rhs.parts();
        assert(kx >= ky);
        let gap: i32 = kx - ky;
        let ghost ux = mx as nat * pow2(kx as nat);
        let ghost uy = my as nat * pow2(ky as nat);
        proof {
            lemma2_to64();
            lemma_pow2_126();
            lemma_pow2_pos(ky as nat);
            lemma_pow2_adds(gap as nat, ky as nat);
        }
        if gap > 64 {
            proof {
                lemma_pow2_adds(24, ky as nat);
                if 24 + ky < kx - 2 {
                    lemma_pow2_strictly_increases((24 + ky) as nat, (kx - 2) as nat);
                }
                assert(uy < pow2((kx - 2) as nat)) by (nonlinear_arith)
                    requires
                        uy == my as nat * pow2(ky as nat),
                        my < 0x100_0000,
                        pow2(ky as nat) > 0,
                        0x100_0000 * pow2(ky as nat) <= pow2((kx - 2) as nat),
                ;
                lemma_far_sum(mx as nat, kx as nat, uy);
                lemma_units_at_infinity();
                lemma_units_increase((self.bits % 0x8000_0000) as nat, 0x7f80_0000);
            }
            return self;
        }
        let scale: u128 = pow2_u128(gap as u32);
        proof {
            if gap < 64 {
                lemma_pow2_strictly_increases(gap as nat, 64);
            }
            assert(mx * scale < 0x100_0000 * 0x1_0000_0000_0000_0000) by (nonlinear_arith)
                requires
                    mx < 0x100_0000,
                    scale <= 0x1_0000_0000_0000_0000,
            ;
        }
        let big: u128 = mx * scale;
        proof {
            assert(big as nat * pow2(ky as nat) == ux) by (nonlinear_arith)
                requires
                    big == mx * scale,
                    scale == pow2(gap as nat),
                    pow2(kx as nat) == pow2(gap as nat) * pow2(ky as nat),
                    ux == mx as nat * pow2(kx as nat),
            ;
            assert((big + my) as nat * pow2(ky as nat) == ux + uy) by (nonlinear_arith)
                requires
                    big as nat * pow2(ky as nat) == ux,
                    uy == my as nat * pow2(ky as nat),
            ;
            assert(big > my ==> (big - my) as nat * pow2(ky as nat) == ux - uy && ux > uy)
                by (nonlinear_arith)
                requires
                    big as nat * pow2(ky as nat) == ux,
                    uy == my as nat * pow2(ky as nat),
                    pow2(ky as nat) > 0,
            ;
            assert(big < my ==> (my - big) as nat * pow2(ky as nat) == uy - ux && ux < uy)
                by (nonlinear_arith)
                requires
                    big as nat * pow2(ky as nat) == ux,
                    uy == my as nat * pow2(ky as nat),
                    pow2(ky as nat) > 0,
            ;
            assert(big == my ==> ux == uy);
            assert(raise(ky as int) == ky as nat && lower(ky as int) == 0);
            assert(1 * pow2(0) == 1);
            lemma_single_den();
        }
        if sx == sy {
            round_ratio(sx, big + my, 1, ky)
        } else if big == my {
            proof {
                lemma_units_increase(0, 0x7f80_0000);
            }
            with_sign(false, 0)
        } else if big > my {
            round_ratio(sx, big - my, 1, ky)
        } else {
            round_ratio(sy, my - big, 1, ky)
        }
    }

    /// The sum, rounded to nearest.
    pub fn add(self, rhs: Float) -> (r: Float)
        ensures
            r@ == self@.plus(rhs@),
            r == self.sum(rhs),
    {
        let r: Float = self.add_rounded(rhs);
        proof {
            lemma_value_fixes_number(r);
        }
        r
    }

    fn add_rounded(self, rhs: Float) -> (r: Float)
        ensures
            r@ == self@.plus(rhs@),
            canonical(r),
    {
        reveal(FloatValue::plus);
        if self.is_nan() || rhs.is_nan() {
            return Float { bits: 0x7fc0_0000 };
        }
        if self.is_infinite() {
            if rhs.is_infinite() && self.is_sign_negative() != rhs.is_sign_negative() {
                return Float { bits: 0x7fc0_0000 };
            }
            return self;
        }
        if rhs.is_infinite() {
            return rhs;
        }
        if self.magnitude_bits() / 0x80_0000 >= rhs.magnitude_bits() / 0x80_0000 {
            self.add_aligned(rhs)
        } else {
            rhs.add_aligned(self)
        }
    }

    /// The difference, rounded to nearest.
    pub fn sub(self, rhs: Float) -> (r: Float)
        ensures
            r@ == self@.minus(rhs@),
            r == self.difference(rhs),
    {
        let r: Float = self.add_rounded(rhs.neg());
        proof {
            lemma_value_fixes_number(r);
        }
        r
    }
}

/// A denominator of one, written as the rounding routine has it.
proof fn lemma_single_den()
    ensures
        1 * pow2(lower(0)) == 1,
        forall|k: int| k >= 0 ==> 1 * pow2(#[trigger] lower(k)) == 1,
{
    lemma2_to64();
}

/// On the grid of exponent 0 every whole number of units stands for itself.
proof fn lemma_round_small(v: nat)
    requires
        v < 0x100_0000,
    ensures
        round_units(v, 1) == v,
{
    lemma2_to64();
    assert(v / 1 == v);
    assert(grid_exp(v) == 0);
    assert(1 * pow2(0) == 1);
    assert(v % 1 == 0);
    assert(nearest_even(v, 1) == v);
    assert(v * pow2(0) == v) by (nonlinear_arith)
        requires
            pow2(0) == 1,
    ;
}

/// A whole number below 2^24, times a power of two, is representable:
/// rounding leaves it as it is.
pub proof fn lemma_round_exact(m: nat, k: nat)
    requires
        m < 0x100_0000,
    ensures
        round_units(m * pow2(k), 1) == m * pow2(k),
    decreases k,
{
    lemma2_to64();
    let v = m * pow2(k);
    if k == 0 {
        assert(v == m) by (nonlinear_arith)
            requires
                v == m * pow2(k),
                pow2(k) == 1,
        ;
        lemma_round_small(v);
    } else {
        let half = m * pow2((k - 1) as nat);
        lemma_pow2_unfold(k);
        assert(v == 2 * half) by (nonlinear_arith)
            requires
                v == m * pow2(k),
                pow2(k) == 2 * pow2((k - 1) as nat),
                half == m * pow2((k - 1) as nat),
        ;
        lemma_round_exact(m, (k - 1) as nat);
        if v < 0x100_0000 {
            lemma_round_small(v);
        } else {
            let e = grid_exp(half);
            assert(v / 1 == v);
            assert(half / 1 == half);
            assert(v / 2 == half);
            assert(grid_exp(v) == 1 + e);
            lemma_pow2_unfold(e + 1);
            lemma_pow2_pos(e);
            let step = 1 * pow2(e);
            assert(1 * pow2(e + 1) == 2 * step);
            crate::rounding::lemma_nearest_even_scale(2, half, step);
            let ne = nearest_even(half, step);
            assert(nearest_even(v, 2 * step) == ne);
            assert(round_units(half, 1) == ne * pow2(e));
            assert(round_units(v, 1) == ne * pow2(e + 1));
            assert(ne * pow2(e + 1) == 2 * (ne * pow2(e))) by (nonlinear_arith)
                requires
                    pow2(e + 1) == 2 * pow2(e),
            ;
        }
    }
}

impl Float {
    /// The number `x`.
    pub fn from_u16(x: u16) -> (r: Float)
        ensures
            r@ == (FloatValue::Finite { negative: false, units: x as nat * pow2(149) }),
            r == Float::of(r@),
    {
        let r: Float = Float::whole(x);
        proof {
            lemma_value_fixes_number(r);
        }
        r
    }

    fn whole(x: u16) -> (r: Float)
        ensures
            r@ == (FloatValue::Finite { negative: false, units: x as nat * pow2(149) }),
    {
        proof {
            lemma2_to64();
            lemma_round_exact(x as nat, 149);
            assert(raise(149) == 149 && lower(149) == 0);
            assert(1 * pow2(0) == 1);
            lemma_pow2_adds(16, 149);
            lemma_pow2_strictly_increases(165, 277);
            assert(x as nat * pow2(149) < pow2(277)) by (nonlinear_arith)
                requires
                    x < 0x1_0000,
                    pow2(165) == 0x1_0000 * pow2(149),
                    pow2(165) < pow2(277),
            ;
        }
        round_ratio(false, x as u128, 1, 149)
    }
}

/// Where some encoding stands for a value, the number that the library holds
/// for the value does too, and it is canonical.
pub proof fn lemma_number_of_value(v: FloatValue)
    requires
        exists|bits: u32| decode(bits) == v,
    ensures
        Float::of(v)@ == v,
        canonical(Float::of(v)),
{
    let some = choose|bits: u32| decode(bits) == v;
    let bits = if v.is_nan() {
        0x7fc0_0000u32
    } else {
        some
    };
    assert(0x7fc0_0000u32 % 0x8000_0000 == 0x7fc0_0000);
    assert(decode(bits) == v && (v.is_nan() ==> bits == 0x7fc0_0000));
}

/// Arithmetic stays among the numbers: the sum, the difference, the product
/// and the quotient of two numbers each stand for the rounded result on
/// their values, and are canonical.
pub proof fn lemma_arithmetic_is_closed(a: Float, b: Float)
    ensures
        a.sum(b)@ == a@.plus(b@),
        a.difference(b)@ == a@.minus(b@),
        a.product(b)@ == a@.times(b@),
        a.quotient(b)@ == a@.over(b@),
        canonical(a.sum(b)),
        canonical(a.difference(b)),
        canonical(a.product(b)),
        canonical(a.quotient(b)),
{
    lemma_plus_representable(a@, b@);
    lemma_negated_representable(b);
    lemma_plus_representable(a@, b@.negated());
    lemma_times_representable(a@, b@);
    lemma_over_representable(a@, b@);
    lemma_number_of_value(a@.plus(b@));
    lemma_number_of_value(a@.minus(b@));
    lemma_number_of_value(a@.times(b@));
    lemma_number_of_value(a@.over(b@));
}

/// Some encoding stands for zero, for the infinities and for a NaN.
proof fn lemma_special_encodings()
    ensures
        decode(0) == (FloatValue::Finite { negative: false, units: 0 }),
        decode(0x8000_0000) == (FloatValue::Finite { negative: true, units: 0 }),
        decode(0x7f80_0000) == (FloatValue::Infinite { negative: false }),
        decode(0xff80_0000) == (FloatValue::Infinite { negative: true }),
        decode(0x7fc0_0000) == FloatValue::Nan,
{
    assert(0x8000_0000u32 % 0x8000_0000 == 0);
    assert(0xff80_0000u32 % 0x8000_0000 == 0x7f80_0000);
    assert(0x7fc0_0000u32 % 0x8000_0000 == 0x7fc0_0000);
    assert(0x7f80_0000u32 % 0x8000_0000 == 0x7f80_0000);
    assert(units_of(0) == 0);
}

proof fn lemma_negated_representable(b: Float)
    ensures
        exists|bits: u32| decode(bits) == b@.negated(),
{
    let flipped = b.negation();
    assert(decode(flipped.bits) == b@.negated());
}

proof fn lemma_plus_representable(x: FloatValue, y: FloatValue)
    requires
        exists|bits: u32| decode(bits) == x,
        exists|bits: u32| decode(bits) == y,
    ensures
        exists|bits: u32| decode(bits) == x.plus(y),
{
    reveal(FloatValue::plus);
    lemma_special_encodings();
    match (x, y) {
        (
            FloatValue::Finite { negative: s, units: a },
            FloatValue::Finite { negative: t, units: b },
        ) => {
            lemma_rounded_representable(s, a + b, 1);
            if a > b {
                lemma_rounded_representable(s, (a - b) as nat, 1);
            }
            if b > a {
                lemma_rounded_representable(t, (b - a) as nat, 1);
            }
        },
        _ => {},
    }
}

proof fn lemma_times_representable(x: FloatValue, y: FloatValue)
    ensures
        exists|bits: u32| decode(bits) == x.times(y),
{
    reveal(FloatValue::times);
    lemma_special_encodings();
    lemma_pow2_pos(149);
    match (x, y) {
        (
            FloatValue::Finite { negative: s, units: a },
            FloatValue::Finite { negative: t, units: b },
        ) => {
            lemma_rounded_representable(s != t, a * b, pow2(149));
        },
        _ => {},
    }
}

proof fn lemma_over_representable(x: FloatValue, y: FloatValue)
    ensures
        exists|bits: u32| decode(bits) == x.over(y),
{
    reveal(FloatValue::over);
    lemma_special_encodings();
    match (x, y) {
        (
            FloatValue::Finite { negative: s, units: a },
            FloatValue::Finite { negative: t, units: b },
        ) => {
            if b != 0 {
                lemma_rounded_representable(s != t, a * pow2(149), b);
            }
        },
        _ => {},
    }
}

} // verus!
