//! Single-precision numbers held by their IEEE-754 encoding: what an encoding
//! stands for, how encodings are classified, and how they are ordered.

use vstd::prelude::*;
use vstd::arithmetic::power2::{pow2, lemma2_to64, lemma_pow2_adds, lemma_pow2_pos,
    lemma_pow2_strictly_increases};

verus! {

/// The number that an encoding stands for.
///
/// A finite magnitude is counted in units of 2^-149, the smallest positive
/// single-precision number, so that every finite value is a whole number of
/// units.
pub enum FloatValue {
    Nan,
    Infinite { negative: bool },
    Finite { negative: bool, units: nat },
}

/// The number of units at which magnitudes stop being finite: 2^128 in units
/// of 2^-149.
pub open spec fn overflow_units() -> nat {
    pow2(277)
}

/// The encoding of positive infinity, which is also the largest magnitude
/// that is not a NaN.
pub const INFINITY_BITS: u32 = 0x7f80_0000;

/// The encoding that this library gives to every NaN it makes.
pub const NAN_BITS: u32 = 0x7fc0_0000;

/// The sign bit.
pub const SIGN_BIT: u32 = 0x8000_0000;

/// The units that the magnitude field `mag` (an encoding without its sign)
/// stands for. At the encoding of infinity this is `overflow_units()`.
pub open spec fn units_of(mag: nat) -> nat {
    let e = mag / 0x80_0000;
    let f = mag % 0x80_0000;
    if e == 0 {
        f
    } else {
        (0x80_0000 + f) * pow2((e - 1) as nat)
    }
}

/// The value of an encoding.
pub open spec fn decode(bits: u32) -> FloatValue {
    let negative = bits >= 0x8000_0000;
    let mag = (bits % 0x8000_0000) as nat;
    if mag > 0x7f80_0000 {
        FloatValue::Nan
    } else if mag == 0x7f80_0000 {
        FloatValue::Infinite { negative }
    } else {
        FloatValue::Finite { negative, units: units_of(mag) }
    }
}

impl FloatValue {
    pub open spec fn is_nan(self) -> bool {
        self is Nan
    }

    pub open spec fn is_zero(self) -> bool {
        self matches FloatValue::Finite { units, .. } && units == 0
    }

    /// Whether the sign is set. A NaN counts as unsigned.
    pub open spec fn is_negative(self) -> bool {
        match self {
            FloatValue::Nan => false,
            FloatValue::Infinite { negative } => negative,
            FloatValue::Finite { negative, .. } => negative,
        }
    }

    /// The place of a value on the number line, in units, with the infinities
    /// put at plus and minus `overflow_units()`. Both zeros share a place.
    pub open spec fn position(self) -> int {
        match self {
            FloatValue::Nan => 0,
            FloatValue::Infinite { negative } => if negative {
                -(overflow_units() as int)
            } else {
                overflow_units() as int
            },
            FloatValue::Finite { negative, units } => if negative {
                -(units as int)
            } else {
                units as int
            },
        }
    }

    /// `self < other` as IEEE-754 has it: false as soon as one side is a NaN.
    pub open spec fn lt(self, other: FloatValue) -> bool {
        !self.is_nan() && !other.is_nan() && self.position() < other.position()
    }

    /// `self <= other` as IEEE-754 has it.
    pub open spec fn le(self, other: FloatValue) -> bool {
        !self.is_nan() && !other.is_nan() && self.position() <= other.position()
    }

    /// `self == other` as IEEE-754 has it: a NaN equals nothing, and the two
    /// zeros are equal.
    pub open spec fn same(self, other: FloatValue) -> bool {
        !self.is_nan() && !other.is_nan() && self.position() == other.position()
    }

    /// The value with its sign flipped; a NaN stays a NaN.
    pub open spec fn negated(self) -> FloatValue {
        match self {
            FloatValue::Nan => FloatValue::Nan,
            FloatValue::Infinite { negative } => FloatValue::Infinite { negative: !negative },
            FloatValue::Finite { negative, units } => FloatValue::Finite {
                negative: !negative,
                units,
            },
        }
    }

    /// The value with its sign cleared; a NaN stays a NaN.
    pub open spec fn magnitude(self) -> FloatValue {
        match self {
            FloatValue::Nan => FloatValue::Nan,
            FloatValue::Infinite { .. } => FloatValue::Infinite { negative: false },
            FloatValue::Finite { units, .. } => FloatValue::Finite { negative: false, units },
        }
    }

    /// The larger of two values. A NaN gives way to the other side; of two
    /// equal values the first is kept.
    pub open spec fn larger(self, other: FloatValue) -> FloatValue {
        if self.is_nan() {
            other
        } else if self.lt(other) {
            other
        } else {
            self
        }
    }
}

/// A single-precision number, held by its IEEE-754 encoding.
#[derive(Clone, Copy, Debug)]
pub struct Float {
    pub bits: u32,
}

impl View for Float {
    type V = FloatValue;

    open spec fn view(&self) -> FloatValue {
        decode(self.bits)
    }
}

/// Within one exponent field the units grow with the fraction, and each
/// exponent field starts above the end of the one before: the units grow
/// strictly with the magnitude field, up to and including infinity.
pub proof fn lemma_units_increase(m1: nat, m2: nat)
    requires
        m1 < m2 <= 0x7f80_0000,
    ensures
        units_of(m1) < units_of(m2),
{
    let e1 = (m1 / 0x80_0000) as int;
    let f1 = (m1 % 0x80_0000) as int;
    let e2 = (m2 / 0x80_0000) as int;
    let f2 = (m2 % 0x80_0000) as int;
    assert(e1 <= e2);
    if e1 == e2 {
        if e1 != 0 {
            let p = pow2((e1 - 1) as nat) as int;
            lemma_pow2_pos((e1 - 1) as nat);
            assert((0x80_0000 + f1) * p < (0x80_0000 + f2) * p) by (nonlinear_arith)
                requires
                    f1 < f2,
                    p > 0,
            ;
        }
    } else if e1 == 0 {
        let p = pow2((e2 - 1) as nat) as int;
        lemma_pow2_pos((e2 - 1) as nat);
        assert((0x80_0000 + f2) * p >= 0x80_0000) by (nonlinear_arith)
            requires
                f2 >= 0,
                p >= 1,
        ;
    } else {
        let lower_step = pow2((e1 - 1) as nat) as int;
        let upper_step = pow2((e2 - 1) as nat) as int;
        lemma_pow2_pos((e1 - 1) as nat);
        lemma2_to64();
        lemma_pow2_adds(1, (e1 - 1) as nat);
        assert(pow2(e1 as nat) == 2 * lower_step);
        if e1 < e2 - 1 {
            lemma_pow2_strictly_increases(e1 as nat, (e2 - 1) as nat);
        }
        assert(2 * lower_step <= upper_step);
        assert((0x80_0000 + f1) * lower_step < (0x80_0000 + f2) * upper_step) by (nonlinear_arith)
            requires
                0 <= f1 < 0x80_0000,
                0 <= f2,
                lower_step > 0,
                2 * lower_step <= upper_step,
        ;
    }
}

/// The encoding of infinity stands for exactly `overflow_units()` units.
pub proof fn lemma_units_at_infinity()
    ensures
        units_of(0x7f80_0000) == overflow_units(),
{
    lemma2_to64();
    lemma_pow2_adds(23, 254);
    assert(0x7f80_0000nat / 0x80_0000 == 255);
    assert(0x7f80_0000nat % 0x80_0000 == 0);
}

impl Float {
    pub fn from_bits(bits: u32) -> (r: Float)
        ensures
            r.bits == bits,
    {
        Float { bits }
    }

    pub fn to_bits(self) -> (r: u32)
        ensures
            r == self.bits,
    {
        self.bits
    }

    /// The encoding without its sign.
    pub fn magnitude_bits(self) -> (m: u32)
        ensures
            m == self.bits % 0x8000_0000,
            m < 0x8000_0000,
    {
        self.bits % SIGN_BIT
    }

    pub fn is_sign_negative(self) -> (r: bool)
        ensures
            r == (self.bits >= 0x8000_0000),
            !self@.is_nan() ==> r == self@.is_negative(),
    {
        self.bits >= SIGN_BIT
    }

    pub fn is_nan(self) -> (r: bool)
        ensures
            r == self@.is_nan(),
    {
        self.magnitude_bits() > INFINITY_BITS
    }

    pub fn is_infinite(self) -> (r: bool)
        ensures
            r == (self@ is Infinite),
    {
        self.magnitude_bits() == INFINITY_BITS
    }

    pub fn is_finite(self) -> (r: bool)
        ensures
            r == (self@ is Finite),
    {
        self.magnitude_bits() < INFINITY_BITS
    }

    /// Whether the number is plus or minus zero.
    pub fn is_zero(self) -> (r: bool)
        ensures
            r == self@.is_zero(),
    {
        let m: u32 = self.magnitude_bits();
        proof {
            if 0 < m < 0x7f80_0000 {
                lemma_units_increase(0, m as nat);
            }
        }
        m == 0
    }

    pub fn neg(self) -> (r: Float)
        ensures
            r@ == self@.negated(),
            r == self.negation(),
    {
        if self.bits >= SIGN_BIT {
            Float { bits: self.bits - SIGN_BIT }
        } else {
            Float { bits: self.bits + SIGN_BIT }
        }
    }

    pub fn abs(self) -> (r: Float)
        ensures
            r@ == self@.magnitude(),
            r == self.absolute(),
    {
        Float { bits: self.magnitude_bits() }
    }

    /// The place of a number that is not a NaN among the encodings: the
    /// magnitude field, negated where the sign is set.
    fn rank(self) -> (k: i64)
        requires
            !self@.is_nan(),
        ensures
            k == if self.bits >= 0x8000_0000 {
                -((self.bits % 0x8000_0000) as int)
            } else {
                self.bits as int
            },
    {
        let m: u32 = self.magnitude_bits();
        if self.bits >= SIGN_BIT {
            -(m as i64)
        } else {
            m as i64
        }
    }

    pub fn lt(self, other: Float) -> (r: bool)
        ensures
            r == self@.lt(other@),
    {
        if self.is_nan() || other.is_nan() {
            return false;
        }
        proof {
            lemma_rank_orders(self, other);
            lemma_rank_orders(other, self);
        }
        self.rank() < other.rank()
    }

    pub fn le(self, other: Float) -> (r: bool)
        ensures
            r == self@.le(other@),
    {
        if self.is_nan() || other.is_nan() {
            return false;
        }
        proof {
            lemma_rank_orders(self, other);
            lemma_rank_orders(other, self);
        }
        self.rank() <= other.rank()
    }

    pub fn gt(self, other: Float) -> (r: bool)
        ensures
            r == other@.lt(self@),
    {
        other.lt(self)
    }

    pub fn ge(self, other: Float) -> (r: bool)
        ensures
            r == other@.le(self@),
    {
        other.le(self)
    }

    /// Equality of numbers, which is not equality of encodings: a NaN equals
    /// nothing, and the two zeros are equal.
    pub fn eq(self, other: Float) -> (r: bool)
        ensures
            r == self@.same(other@),
    {
        if self.is_nan() || other.is_nan() {
            return false;
        }
        proof {
            lemma_rank_orders(self, other);
            lemma_rank_orders(other, self);
        }
        self.rank() == other.rank()
    }

    pub fn ne(self, other: Float) -> (r: bool)
        ensures
            r == !self@.same(other@),
    {
        !self.eq(other)
    }

    pub fn min(self, other: Float) -> (r: Float)
        ensures
            r == self.smaller(other),
    {
        if self.is_nan() {
            other
        } else if other.lt(self) {
            other
        } else {
            self
        }
    }

    pub fn max(self, other: Float) -> (r: Float)
        ensures
            r@ == self@.larger(other@),
            r == self.larger(other),
    {
        if self.is_nan() {
            other
        } else if self.lt(other) {
            other
        } else {
            self
        }
    }
}

/// The order of two numbers is the order of their ranks.
proof fn lemma_rank_orders(a: Float, b: Float)
    requires
        !a@.is_nan(),
        !b@.is_nan(),
    ensures
        rank_of(a) < rank_of(b) ==> a@.position() < b@.position(),
        rank_of(a) == rank_of(b) ==> a@.position() == b@.position(),
{
    let ma = (a.bits % 0x8000_0000) as nat;
    let mb = (b.bits % 0x8000_0000) as nat;
    lemma_units_at_infinity();
    assert(a@.position() == if a.bits >= 0x8000_0000 {
        -(units_of(ma) as int)
    } else {
        units_of(ma) as int
    });
    assert(b@.position() == if b.bits >= 0x8000_0000 {
        -(units_of(mb) as int)
    } else {
        units_of(mb) as int
    });
    if ma < mb {
        lemma_units_increase(ma, mb);
    }
    if mb < ma {
        lemma_units_increase(mb, ma);
    }
    if 0 < ma {
        lemma_units_increase(0, ma);
    }
    if 0 < mb {
        lemma_units_increase(0, mb);
    }
    assert(units_of(0) == 0);
}

/// The rank of an encoding, as `Float::rank` computes it.
pub open spec fn rank_of(a: Float) -> int {
    if a.bits >= 0x8000_0000 {
        -((a.bits % 0x8000_0000) as int)
    } else {
        a.bits as int
    }
}

/// The encoding that this library gives to a value: the one encoding that
/// stands for it, and for a NaN the encoding `NAN_BITS`.
pub open spec fn encoding_of(v: FloatValue) -> u32 {
    choose|bits: u32| decode(bits) == v && (v.is_nan() ==> bits == 0x7fc0_0000)
}

/// Whether `a` is not a NaN, or is the NaN that this library makes.
pub open spec fn canonical(a: Float) -> bool {
    a@.is_nan() ==> a.bits == 0x7fc0_0000
}

impl Float {
    /// The number that this library holds for a value.
    pub open spec fn of(v: FloatValue) -> Float {
        Float { bits: encoding_of(v) }
    }

    /// The number with its sign bit flipped.
    pub open spec fn negation(self) -> Float {
        if self.bits >= 0x8000_0000 {
            Float { bits: (self.bits - 0x8000_0000) as u32 }
        } else {
            Float { bits: (self.bits + 0x8000_0000) as u32 }
        }
    }

    /// The number with its sign bit cleared.
    pub open spec fn absolute(self) -> Float {
        Float { bits: self.bits % 0x8000_0000 }
    }

    /// The smaller of two numbers, as `min` finds it: a NaN gives way to
    /// the other side, and of two equal numbers the first is kept.
    pub open spec fn smaller(self, other: Float) -> Float {
        if self@.is_nan() {
            other
        } else if other@.lt(self@) {
            other
        } else {
            self
        }
    }

    /// The larger of two numbers, as `max` finds it.
    pub open spec fn larger(self, other: Float) -> Float {
        if self@.is_nan() {
            other
        } else if self@.lt(other@) {
            other
        } else {
            self
        }
    }
}

/// No two encodings stand for the same value, NaNs apart: a number is known
/// by its value as soon as it is canonical.
pub proof fn lemma_value_fixes_number(a: Float)
    requires
        canonical(a),
    ensures
        Float::of(a@) == a,
{
    let v = a@;
    let b = encoding_of(v);
    assert(decode(a.bits) == v && (v.is_nan() ==> a.bits == 0x7fc0_0000));
    assert(decode(b) == v && (v.is_nan() ==> b == 0x7fc0_0000));
    if !v.is_nan() {
        let ma = (a.bits % 0x8000_0000) as nat;
        let mb = (b % 0x8000_0000) as nat;
        if ma < mb {
            lemma_units_increase(ma, mb);
        }
        if mb < ma {
            lemma_units_increase(mb, ma);
        }
        lemma_units_at_infinity();
        if ma < 0x7f80_0000 {
            lemma_units_increase(ma, 0x7f80_0000);
        }
        if mb < 0x7f80_0000 {
            lemma_units_increase(mb, 0x7f80_0000);
        }
        assert(ma == mb);
        assert((a.bits >= 0x8000_0000) == (b >= 0x8000_0000));
    }
}

} // verus!
