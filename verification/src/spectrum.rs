//! Colour as three single-precision coefficients (red, green, blue), the
//! conversions to and from CIE XYZ, and sampled spectra.

use vstd::prelude::*;
use crate::float::{Float, FloatValue, decode};
use vstd::arithmetic::power2::pow2;
use crate::cie::{CIE_X, CIE_Y, CIE_Z, CIE_Y_INTEGRAL, CIE_LAMBDA_START, N_CIE_SAMPLES};
use crate::pbrt::{clamp_t, clamped, find_interval, last_at_most, lerp, lerp_value,
    strictly_increasing, lemma_increasing_orders, ONE_BITS};

verus! {

/// 0.412453, the weight of red in X.
pub const X_FROM_R: u32 = 0x3ed3_2d0a;

/// 0.357580, the weight of green in X.
pub const X_FROM_G: u32 = 0x3eb7_14ba;

/// 0.180423, the weight of blue in X.
pub const X_FROM_B: u32 = 0x3e38_c0cf;

/// 0.212671, the weight of red in Y.
pub const Y_FROM_R: u32 = 0x3e59_c66d;

/// 0.715160, the weight of green in Y.
pub const Y_FROM_G: u32 = 0x3f37_14ba;

/// 0.072169, the weight of blue in Y.
pub const Y_FROM_B: u32 = 0x3d93_cd57;

/// 0.019334, the weight of red in Z.
pub const Z_FROM_R: u32 = 0x3c9e_6256;

/// 0.119193, the weight of green in Z.
pub const Z_FROM_G: u32 = 0x3df4_1b76;

/// 0.950227, the weight of blue in Z.
pub const Z_FROM_B: u32 = 0x3f73_4214;

/// 3.240479, the weight of X in red.
pub const R_FROM_X: u32 = 0x404f_6402;

/// 1.537150, the weight of Y that is taken from red.
pub const R_LESS_Y: u32 = 0x3fc4_c155;

/// 0.498535, the weight of Z that is taken from red.
pub const R_LESS_Z: u32 = 0x3eff_3ffb;

/// -0.969256, the weight of X in green.
pub const G_FROM_X: u32 = 0xbf78_2129;

/// 1.875991, the weight of Y in green.
pub const G_FROM_Y: u32 = 0x3ff0_2079;

/// 0.041556, the weight of Z in green.
pub const G_FROM_Z: u32 = 0x3d2a_36a0;

/// 0.055648, the weight of X in blue.
pub const B_FROM_X: u32 = 0x3d63_ef28;

/// 0.204043, the weight of Y that is taken from blue.
pub const B_LESS_Y: u32 = 0x3e50_f0a6;

/// 1.057311, the weight of Z in blue.
pub const B_FROM_Z: u32 = 0x3f87_55f8;

/// `a*x + b*y + c*z`, summed from the left, each operation rounded; `a`, `b`
/// and `c` are given by their encodings.
pub open spec fn weighted_sum(
    a: u32,
    x: FloatValue,
    b: u32,
    y: FloatValue,
    c: u32,
    z: FloatValue,
) -> FloatValue {
    decode(a).times(x).plus(decode(b).times(y)).plus(decode(c).times(z))
}

/// The XYZ coefficients of an RGB triple.
pub open spec fn xyz_of_rgb(rgb: Seq<FloatValue>) -> Seq<FloatValue> {
    seq![
        weighted_sum(X_FROM_R, rgb[0], X_FROM_G, rgb[1], X_FROM_B, rgb[2]),
        weighted_sum(Y_FROM_R, rgb[0], Y_FROM_G, rgb[1], Y_FROM_B, rgb[2]),
        weighted_sum(Z_FROM_R, rgb[0], Z_FROM_G, rgb[1], Z_FROM_B, rgb[2]),
    ]
}

/// The RGB coefficients of an XYZ triple.
pub open spec fn rgb_of_xyz(xyz: Seq<FloatValue>) -> Seq<FloatValue> {
    seq![
        decode(R_FROM_X).times(xyz[0]).minus(decode(R_LESS_Y).times(xyz[1])).minus(
            decode(R_LESS_Z).times(xyz[2]),
        ),
        weighted_sum(G_FROM_X, xyz[0], G_FROM_Y, xyz[1], G_FROM_Z, xyz[2]),
        decode(B_FROM_X).times(xyz[0]).minus(decode(B_LESS_Y).times(xyz[1])).plus(
            decode(B_FROM_Z).times(xyz[2]),
        ),
    ]
}

/// The values that three encodings stand for.
pub open spec fn values_of(c: Seq<Float>) -> Seq<FloatValue> {
    seq![c[0]@, c[1]@, c[2]@]
}

/// The three coefficients `v`, `v`, `v`.
pub open spec fn uniform3(v: Float) -> Seq<Float> {
    seq![v, v, v]
}

/// The sums of three coefficients with three others.
pub open spec fn sum3(a: Seq<Float>, b: Seq<Float>) -> Seq<Float> {
    seq![a[0].sum(b[0]), a[1].sum(b[1]), a[2].sum(b[2])]
}

/// The products of three coefficients with three others.
pub open spec fn product3(a: Seq<Float>, b: Seq<Float>) -> Seq<Float> {
    seq![a[0].product(b[0]), a[1].product(b[1]), a[2].product(b[2])]
}

/// The quotients of three coefficients by three others.
pub open spec fn quotient3(a: Seq<Float>, b: Seq<Float>) -> Seq<Float> {
    seq![a[0].quotient(b[0]), a[1].quotient(b[1]), a[2].quotient(b[2])]
}

/// Calculates RGB coefficients from an XYZ representation.
pub fn xyz_to_rgb(xyz: &[Float; 3], rgb: &mut [Float; 3])
    ensures
        values_of(final(rgb)@) == rgb_of_xyz(values_of(xyz@)),
{
    rgb[0] = Float { bits: R_FROM_X }.mul(xyz[0]).sub(Float { bits: R_LESS_Y }.mul(xyz[1])).sub(
        Float { bits: R_LESS_Z }.mul(xyz[2]),
    );
    rgb[1] = Float { bits: G_FROM_X }.mul(xyz[0]).add(Float { bits: G_FROM_Y }.mul(xyz[1])).add(
        Float { bits: G_FROM_Z }.mul(xyz[2]),
    );
    rgb[2] = Float { bits: B_FROM_X }.mul(xyz[0]).sub(Float { bits: B_LESS_Y }.mul(xyz[1])).add(
        Float { bits: B_FROM_Z }.mul(xyz[2]),
    );
}

/// Calculates the XYZ representation from RGB coefficients.
pub fn rgb_to_xyz(rgb: &[Float; 3], xyz: &mut [Float; 3])
    ensures
        values_of(final(xyz)@) == xyz_of_rgb(values_of(rgb@)),
{
    xyz[0] = Float { bits: X_FROM_R }.mul(rgb[0]).add(Float { bits: X_FROM_G }.mul(rgb[1])).add(
        Float { bits: X_FROM_B }.mul(rgb[2]),
    );
    xyz[1] = Float { bits: Y_FROM_R }.mul(rgb[0]).add(Float { bits: Y_FROM_G }.mul(rgb[1])).add(
        Float { bits: Y_FROM_B }.mul(rgb[2]),
    );
    xyz[2] = Float { bits: Z_FROM_R }.mul(rgb[0]).add(Float { bits: Z_FROM_G }.mul(rgb[1])).add(
        Float { bits: Z_FROM_B }.mul(rgb[2]),
    );
}

/// What a spectrum's coefficients are taken to mean when it is made from
/// another representation.
#[derive(Debug, Clone, Copy)]
pub enum SpectrumType {
    Reflectance,
    Illuminant,
}

/// A spectrum given by three coefficients: red, green and blue.
#[derive(Debug, Copy, Clone)]
pub struct RGBSpectrum {
    pub c: [Float; 3],
}

impl View for RGBSpectrum {
    type V = Seq<FloatValue>;

    open spec fn view(&self) -> Seq<FloatValue> {
        values_of(self.c@)
    }
}

impl Default for RGBSpectrum {
    fn default() -> (r: RGBSpectrum)
        ensures
            r.c@ == seq![Float { bits: 0 }, Float { bits: 0 }, Float { bits: 0 }],
    {
        let zero: Float = Float { bits: 0 };
        RGBSpectrum { c: [zero, zero, zero] }
    }
}

impl RGBSpectrum {
    /// The spectrum whose three coefficients are `v`.
    pub fn new(v: Float) -> (r: RGBSpectrum)
        ensures
            r.c@ == seq![v, v, v],
    {
        RGBSpectrum { c: [v, v, v] }
    }

    pub fn rgb(r: Float, g: Float, b: Float) -> (s: RGBSpectrum)
        ensures
            s.c@ == seq![r, g, b],
    {
        RGBSpectrum { c: [r, g, b] }
    }

    pub fn from_rgb(rgb: &[Float; 3]) -> (s: RGBSpectrum)
        ensures
            s.c@ == rgb@,
    {
        let mut s: RGBSpectrum = RGBSpectrum::new(Float { bits: 0 });
        s.c[0] = rgb[0];
        s.c[1] = rgb[1];
        s.c[2] = rgb[2];
        s
    }

    pub fn to_rgb(&self, rgb: &mut [Float; 3])
        ensures
            final(rgb)@ == self.c@,
    {
        rgb[0] = self.c[0];
        rgb[1] = self.c[1];
        rgb[2] = self.c[2];
    }

    pub fn to_xyz(&self, xyz: &mut [Float; 3])
        ensures
            values_of(final(xyz)@) == xyz_of_rgb(self@),
    {
        rgb_to_xyz(&self.c, xyz);
    }

    pub fn from_xyz(xyz: &[Float; 3], _spectrum_type: SpectrumType) -> (r: RGBSpectrum)
        ensures
            r@ == rgb_of_xyz(values_of(xyz@)),
    {
        let mut r: RGBSpectrum = RGBSpectrum::new(Float { bits: 0 });
        xyz_to_rgb(xyz, &mut r.c);
        r
    }

    /// The luminance: the Y of the coefficients.
    pub fn y(&self) -> (r: Float)
        ensures
            r@ == weighted_sum(Y_FROM_R, self@[0], Y_FROM_G, self@[1], Y_FROM_B, self@[2]),
    {
        Float { bits: Y_FROM_R }.mul(self.c[0]).add(Float { bits: Y_FROM_G }.mul(self.c[1])).add(
            Float { bits: Y_FROM_B }.mul(self.c[2]),
        )
    }

    /// Whether every coefficient is zero, of either sign.
    pub fn is_black(&self) -> (r: bool)
        ensures
            r == (self@[0].is_zero() && self@[1].is_zero() && self@[2].is_zero()),
    {
        let mut i: usize = 0;
        while i < 3
            invariant
                i <= 3,
                forall|j: int| 0 <= j < i ==> self.c@[j]@.is_zero(),
            decreases 3 - i,
        {
            if !self.c[i].is_zero() {
                return false;
            }
            i = i + 1;
        }
        true
    }

    /// The spectrum of the square roots of the coefficients.
    pub fn sqrt(&self) -> (r: RGBSpectrum)
        ensures
            r@ == seq![self@[0].root(), self@[1].root(), self@[2].root()],
            r.c@ == seq![
                self.c@[0].square_root(),
                self.c@[1].square_root(),
                self.c@[2].square_root(),
            ],
    {
        RGBSpectrum::rgb(self.c[0].sqrt(), self.c[1].sqrt(), self.c[2].sqrt())
    }

    /// The spectrum with each coefficient held between `low` and `high`.
    ///
    /// The result must hold no NaN: no coefficient may be one, nor a bound
    /// that a coefficient is replaced by.
    pub fn clamp(&self, low: Float, high: Float) -> (r: RGBSpectrum)
        requires
            forall|i: int| 0 <= i < 3 ==> !clamped(#[trigger] self@[i], low@, high@).is_nan(),
        ensures
            forall|i: int| 0 <= i < 3 ==> #[trigger] r@[i] == clamped(self@[i], low@, high@),
    {
        let mut ret: RGBSpectrum = RGBSpectrum::default();
        let mut i: usize = 0;
        while i < 3
            invariant
                i <= 3,
                forall|j: int|
                    0 <= j < i ==> (#[trigger] ret.c@[j])@ == clamped(self.c@[j]@, low@, high@),
            decreases 3 - i,
        {
            ret.c[i] = clamp_t(self.c[i], low, high);
            i = i + 1;
        }
        assert forall|j: int| 0 <= j < 3 implies #[trigger] ret@[j] == clamped(
            self@[j],
            low@,
            high@,
        ) by {
            assert(ret@[j] == ret.c@[j]@);
            assert(self@[j] == self.c@[j]@);
        }
        ret
    }

    /// The largest coefficient, a NaN giving way to the others.
    pub fn max_component_value(&self) -> (r: Float)
        ensures
            r@ == self@[0].larger(self@[1]).larger(self@[2]),
            r == self.c@[0].larger(self.c@[1]).larger(self.c@[2]),
    {
        let mut m: Float = self.c[0];
        let mut i: usize = 1;
        while i < 3
            invariant
                1 <= i <= 3,
                i == 1 ==> m == self.c@[0],
                i == 2 ==> m == self.c@[0].larger(self.c@[1]),
                i == 3 ==> m == self.c@[0].larger(self.c@[1]).larger(self.c@[2]),
            decreases 3 - i,
        {
            m = m.max(self.c[i]);
            i = i + 1;
        }
        m
    }

    pub fn has_nans(&self) -> (r: bool)
        ensures
            r == (self@[0].is_nan() || self@[1].is_nan() || self@[2].is_nan()),
    {
        let mut i: usize = 0;
        while i < 3
            invariant
                i <= 3,
                forall|j: int| 0 <= j < i ==> !self.c@[j]@.is_nan(),
            decreases 3 - i,
        {
            if self.c[i].is_nan() {
                return true;
            }
            i = i + 1;
        }
        false
    }

    /// Equality of the coefficients as numbers: a NaN on either side makes
    /// two spectra differ, and the two zeros are equal.
    pub fn eq(&self, rhs: &RGBSpectrum) -> (r: bool)
        ensures
            r == (self@[0].same(rhs@[0]) && self@[1].same(rhs@[1]) && self@[2].same(rhs@[2])),
    {
        let mut i: usize = 0;
        while i < 3
            invariant
                i <= 3,
                forall|j: int| 0 <= j < i ==> self.c@[j]@.same(rhs.c@[j]@),
            decreases 3 - i,
        {
            if self.c[i].ne(rhs.c[i]) {
                return false;
            }
            i = i + 1;
        }
        true
    }

    pub fn add(self, rhs: RGBSpectrum) -> (r: RGBSpectrum)
        ensures
            r@ == seq![
                self@[0].plus(rhs@[0]),
                self@[1].plus(rhs@[1]),
                self@[2].plus(rhs@[2]),
            ],
            r.c@ == sum3(self.c@, rhs.c@),
    {
        RGBSpectrum {
            c: [self.c[0].add(rhs.c[0]), self.c[1].add(rhs.c[1]), self.c[2].add(rhs.c[2])],
        }
    }

    pub fn add_assign(&mut self, rhs: RGBSpectrum)
        ensures
            final(self)@ == seq![
                old(self)@[0].plus(rhs@[0]),
                old(self)@[1].plus(rhs@[1]),
                old(self)@[2].plus(rhs@[2]),
            ],
    {
        self.c[0] = self.c[0].add(rhs.c[0]);
        self.c[1] = self.c[1].add(rhs.c[1]);
        self.c[2] = self.c[2].add(rhs.c[2]);
    }

    pub fn mul(self, rhs: RGBSpectrum) -> (r: RGBSpectrum)
        ensures
            r@ == seq![
                self@[0].times(rhs@[0]),
                self@[1].times(rhs@[1]),
                self@[2].times(rhs@[2]),
            ],
            r.c@ == product3(self.c@, rhs.c@),
    {
        RGBSpectrum {
            c: [self.c[0].mul(rhs.c[0]), self.c[1].mul(rhs.c[1]), self.c[2].mul(rhs.c[2])],
        }
    }

    /// The spectrum with each coefficient multiplied by `rhs`.
    pub fn scale(self, rhs: Float) -> (r: RGBSpectrum)
        ensures
            r@ == seq![self@[0].times(rhs@), self@[1].times(rhs@), self@[2].times(rhs@)],
    {
        RGBSpectrum { c: [self.c[0].mul(rhs), self.c[1].mul(rhs), self.c[2].mul(rhs)] }
    }

    pub fn mul_assign(&mut self, rhs: RGBSpectrum)
        ensures
            final(self)@ == seq![
                old(self)@[0].times(rhs@[0]),
                old(self)@[1].times(rhs@[1]),
                old(self)@[2].times(rhs@[2]),
            ],
    {
        self.c[0] = self.c[0].mul(rhs.c[0]);
        self.c[1] = self.c[1].mul(rhs.c[1]);
        self.c[2] = self.c[2].mul(rhs.c[2]);
    }

    pub fn sub(self, rhs: RGBSpectrum) -> (r: RGBSpectrum)
        ensures
            r@ == seq![
                self@[0].minus(rhs@[0]),
                self@[1].minus(rhs@[1]),
                self@[2].minus(rhs@[2]),
            ],
    {
        RGBSpectrum {
            c: [self.c[0].sub(rhs.c[0]), self.c[1].sub(rhs.c[1]), self.c[2].sub(rhs.c[2])],
        }
    }

    pub fn div(self, rhs: RGBSpectrum) -> (r: RGBSpectrum)
        ensures
            r@ == seq![
                self@[0].over(rhs@[0]),
                self@[1].over(rhs@[1]),
                self@[2].over(rhs@[2]),
            ],
            r.c@ == quotient3(self.c@, rhs.c@),
    {
        RGBSpectrum {
            c: [self.c[0].div(rhs.c[0]), self.c[1].div(rhs.c[1]), self.c[2].div(rhs.c[2])],
        }
    }

    /// The spectrum with each coefficient divided by `rhs`, which is neither
    /// zero nor a NaN; no quotient may be a NaN either.
    pub fn div_scalar(self, rhs: Float) -> (r: RGBSpectrum)
        requires
            !rhs@.is_zero(),
            !rhs@.is_nan(),
            forall|i: int| 0 <= i < 3 ==> !(#[trigger] self@[i]).over(rhs@).is_nan(),
        ensures
            r@ == seq![self@[0].over(rhs@), self@[1].over(rhs@), self@[2].over(rhs@)],
    {
        RGBSpectrum { c: [self.c[0].div(rhs), self.c[1].div(rhs), self.c[2].div(rhs)] }
    }

    pub fn neg(self) -> (r: RGBSpectrum)
        ensures
            r@ == seq![self@[0].negated(), self@[1].negated(), self@[2].negated()],
    {
        RGBSpectrum { c: [self.c[0].neg(), self.c[1].neg(), self.c[2].neg()] }
    }

    /// The black spectrum.
    pub fn zero() -> (r: RGBSpectrum)
        ensures
            r.c@ == seq![Float { bits: 0 }, Float { bits: 0 }, Float { bits: 0 }],
    {
        RGBSpectrum::new(Float { bits: 0 })
    }

    pub fn is_zero(&self) -> (r: bool)
        ensures
            r == (self@[0].is_zero() && self@[1].is_zero() && self@[2].is_zero()),
    {
        self.is_black()
    }

    /// The coefficient at `index`, which is 0, 1 or 2.
    pub fn index(&self, index: usize) -> (r: &Float)
        requires
            index <= 2,
        ensures
            *r == self.c@[index as int],
    {
        &self.c[index]
    }

    /// The coefficient at `index`, which is 0, 1 or 2, to be changed.
    pub fn index_mut(&mut self, index: usize) -> (r: &mut Float)
        requires
            index <= 2,
        ensures
            *r == old(self).c@[index as int],
            final(self).c@ == old(self).c@.update(index as int, *final(r)),
    {
        &mut self.c[index]
    }

    /// The spectrum whose three coefficients are `f`.
    pub fn from(f: Float) -> (r: RGBSpectrum)
        ensures
            r.c@ == seq![f, f, f],
    {
        RGBSpectrum::new(f)
    }
}

/// Interpolates linearly between two spectra: `s1 * (1 - t) + s2 * t`.
pub fn lerp_rgb(t: Float, s1: &RGBSpectrum, s2: &RGBSpectrum) -> (r: RGBSpectrum)
    ensures
        forall|i: int|
            0 <= i < 3 ==> #[trigger] r@[i] == s1@[i].times(decode(ONE_BITS).minus(t@)).plus(
                s2@[i].times(t@),
            ),
{
    let one: Float = Float { bits: ONE_BITS };
    s1.scale(one.sub(t)).add(s2.scale(t))
}

/// Whether the first `n` wavelengths never step down.
pub open spec fn never_descends(lambda: Seq<Float>, n: int) -> bool {
    forall|i: int| 0 <= i < n - 1 ==> !(#[trigger] lambda[i + 1]@).lt(lambda[i]@)
}

/// Are the values sorted by wavelength?
pub fn spectrum_samples_sorted(lambda: &[Float], _vals: &[Float], n: i32) -> (r: bool)
    requires
        n <= lambda@.len(),
    ensures
        r == never_descends(lambda@, n as int),
{
    if n < 2 {
        return true;
    }
    let mut i: i32 = 0;
    while i < n - 1
        invariant
            0 <= i,
            2 <= n <= lambda@.len(),
            forall|j: int| 0 <= j < i ==> !(#[trigger] lambda@[j + 1]@).lt(lambda@[j]@),
        decreases n - i,
    {
        if lambda[i as usize].gt(lambda[(i + 1) as usize]) {
            assert(lambda@[i as int + 1]@.lt(lambda@[i as int]@));
            return false;
        }
        i = i + 1;
    }
    true
}

/// The value at wavelength `l` of the piecewise linear curve through the
/// first `n` samples: the first value up to the first wavelength, the last
/// value from the last wavelength on, and between two wavelengths the
/// interpolation of their values.
pub open spec fn interpolated(lambda: Seq<Float>, vals: Seq<Float>, n: int, l: FloatValue)
    -> FloatValue {
    if l.le(lambda[0]@) {
        vals[0]@
    } else if lambda[n - 1]@.le(l) {
        vals[n - 1]@
    } else {
        let i = last_at_most(lambda, l, n - 2);
        let t = l.minus(lambda[i]@).over(lambda[i + 1]@.minus(lambda[i]@));
        lerp_value(t, vals[i]@, vals[i + 1]@)
    }
}

/// Strictly between the ends of a strictly increasing table, the interval
/// that `last_at_most` names holds the value: its lower end is at most `l`
/// and its upper end lies above.
pub proof fn lemma_interval_brackets(lambda: Seq<Float>, n: int, l: FloatValue)
    requires
        2 <= n <= lambda.len(),
        strictly_increasing(lambda, n),
        lambda[0]@.lt(l),
        l.lt(lambda[n - 1]@),
    ensures
        ({
            let i = last_at_most(lambda, l, n - 2);
            &&& 0 <= i <= n - 2
            &&& lambda[i]@.le(l)
            &&& l.lt(lambda[i + 1]@)
        }),
{
    lemma_bracket_from(lambda, n, l, n - 2);
}

/// The same, for the search from `hi` down, given that `l` lies below the
/// entry after `hi`.
proof fn lemma_bracket_from(lambda: Seq<Float>, n: int, l: FloatValue, hi: int)
    requires
        2 <= n <= lambda.len(),
        0 <= hi <= n - 2,
        strictly_increasing(lambda, n),
        lambda[0]@.lt(l),
        l.lt(lambda[hi + 1]@),
    ensures
        ({
            let i = last_at_most(lambda, l, hi);
            &&& 0 <= i <= hi
            &&& lambda[i]@.le(l)
            &&& l.lt(lambda[i + 1]@)
        }),
    decreases hi,
{
    if hi > 0 && !lambda[hi]@.le(l) {
        assert(lambda[hi - 1]@.lt(lambda[hi - 1 + 1]@));
        lemma_bracket_from(lambda, n, l, hi - 1);
    }
}

/// Finds the interval of wavelengths that holds `l` and interpolates
/// linearly between the two sample values.
///
/// The first `n` wavelengths must increase strictly, and neither `l` nor the
/// first wavelength may be a NaN.
pub fn interpolate_spectrum_samples(lambda: &[Float], vals: &[Float], n: i32, l: Float) -> (r:
    Float)
    requires
        1 <= n <= lambda@.len(),
        n <= vals@.len(),
        strictly_increasing(lambda@, n as int),
        !l@.is_nan(),
        !lambda@[0]@.is_nan(),
    ensures
        r@ == interpolated(lambda@, vals@, n as int, l@),
{
    if l.le(lambda[0]) {
        return vals[0];
    }
    let last: usize = (n - 1) as usize;
    if l.ge(lambda[last]) {
        return vals[last];
    }
    proof {
        if n >= 2 {
            lemma_increasing_orders(lambda@, n as int, 0, n - 1);
        }
    }
    assert(n >= 2);
    let offset: usize = find_interval(lambda, n as usize, l);
    proof {
        lemma_interval_brackets(lambda@, n as int, l@);
    }
    let t: Float = l.sub(lambda[offset]).div(lambda[offset + 1].sub(lambda[offset]));
    lerp(t, vals[offset], vals[offset + 1])
}

/// The `i`-th tabulated wavelength of the standard observer: `360 + i`
/// nanometres.
pub open spec fn cie_wavelength(i: int) -> FloatValue {
    FloatValue::Finite { negative: false, units: ((360 + i) * pow2(149)) as nat }
}

/// The factor that turns a sum over the tabulated wavelengths into an
/// integral normalised by the integral of Y: the 470 nm that the table spans,
/// over 106.856895 times the 471 entries.
pub open spec fn cie_scale() -> FloatValue {
    cie_wavelength(470).minus(cie_wavelength(0)).over(
        decode(CIE_Y_INTEGRAL).times(
            FloatValue::Finite { negative: false, units: (471 * pow2(149)) as nat },
        ),
    )
}

/// The sum, over the first `count` tabulated wavelengths, of the sampled
/// curve's value there times the matching function `table`; summed in order
/// of wavelength, each operation rounded.
pub open spec fn matched(
    table: Seq<u32>,
    lambda: Seq<Float>,
    vals: Seq<Float>,
    n: int,
    count: int,
) -> FloatValue
    decreases count,
{
    if count <= 0 {
        FloatValue::Finite { negative: false, units: 0 }
    } else {
        matched(table, lambda, vals, n, count - 1).plus(
            interpolated(lambda, vals, n, cie_wavelength(count - 1)).times(
                decode(table[count - 1]),
            ),
        )
    }
}

/// The XYZ coefficients of a sampled curve.
pub open spec fn sampled_xyz(lambda: Seq<Float>, vals: Seq<Float>, n: int) -> Seq<FloatValue> {
    seq![
        matched(CIE_X@, lambda, vals, n, 471).times(cie_scale()),
        matched(CIE_Y@, lambda, vals, n, 471).times(cie_scale()),
        matched(CIE_Z@, lambda, vals, n, 471).times(cie_scale()),
    ]
}

impl RGBSpectrum {
    /// The spectrum of a curve that is given by `n` samples: its values `v`
    /// at the wavelengths `lambda`, in nanometres.
    ///
    /// The wavelengths must increase strictly.
    pub fn from_sampled(lambda: &[Float], v: &[Float], n: i32) -> (r: RGBSpectrum)
        requires
            1 <= n <= lambda@.len(),
            n <= v@.len(),
            strictly_increasing(lambda@, n as int),
            !lambda@[0]@.is_nan(),
        ensures
            r@ == rgb_of_xyz(sampled_xyz(lambda@, v@, n as int)),
    {
        let zero: Float = Float { bits: 0 };
        let mut xyz: [Float; 3] = [zero, zero, zero];
        let mut i: u16 = 0;
        proof {
            crate::float::lemma_units_increase(0, 0x7f80_0000);
        }
        while i < N_CIE_SAMPLES
            invariant
                i <= 471,
                1 <= n <= lambda@.len(),
                n <= v@.len(),
                strictly_increasing(lambda@, n as int),
                !lambda@[0]@.is_nan(),
                xyz@[0]@ == matched(CIE_X@, lambda@, v@, n as int, i as int),
                xyz@[1]@ == matched(CIE_Y@, lambda@, v@, n as int, i as int),
                xyz@[2]@ == matched(CIE_Z@, lambda@, v@, n as int, i as int),
            decreases 471 - i,
        {
            let l: Float = Float::from_u16(CIE_LAMBDA_START + i);
            let val: Float = interpolate_spectrum_samples(lambda, v, n, l);
            xyz[0] = xyz[0].add(val.mul(Float { bits: CIE_X[i as usize] }));
            xyz[1] = xyz[1].add(val.mul(Float { bits: CIE_Y[i as usize] }));
            xyz[2] = xyz[2].add(val.mul(Float { bits: CIE_Z[i as usize] }));
            i = i + 1;
        }
        let span: Float = Float::from_u16(830).sub(Float::from_u16(360));
        let scale: Float = span.div(Float { bits: CIE_Y_INTEGRAL }.mul(Float::from_u16(471)));
        xyz[0] = xyz[0].mul(scale);
        xyz[1] = xyz[1].mul(scale);
        xyz[2] = xyz[2].mul(scale);
        RGBSpectrum::from_xyz(&xyz, SpectrumType::Reflectance)
    }
}

} // verus!
