//! The arithmetic of blackbody emission and of the sRGB transfer curve, up
//! to the exponential and the power that they need: those are taken where
//! the platform's mathematical library is at hand, and handed in.

use vstd::prelude::*;
use vstd::arithmetic::power2::pow2;
use crate::float::{Float, FloatValue};
use crate::pbrt::{ONE_BITS, TWO_BITS};

verus! {

/// The encoding of the speed of light in metres per second, 299792458.
pub const LIGHT_SPEED_BITS: u32 = 0x4d8e_f3c2;

/// The encoding of Planck's constant in joule seconds, 6.62606957e-34.
pub const PLANCK_BITS: u32 = 0x085c_305e;

/// The encoding of Boltzmann's constant in joules per kelvin, 1.3806488e-23.
pub const BOLTZMANN_BITS: u32 = 0x1985_8735;

/// The encoding of 1e-9, which turns nanometres into metres.
pub const NANO_BITS: u32 = 0x3089_705f;

/// The encoding of 1e9, which turns metres into nanometres.
pub const GIGA_BITS: u32 = 0x4e6e_6b28;

/// The encoding of Wien's displacement constant in metre kelvins,
/// 2.8977721e-3.
pub const WIEN_BITS: u32 = 0x3b3d_e88c;

/// The encoding of 255, the largest value of a colour channel.
pub const CHANNEL_MAX_BITS: u32 = 0x437f_0000;

/// The encoding of 0.04045, up to which the sRGB curve is a straight line.
pub const LINEAR_LIMIT_BITS: u32 = 0x3d25_aee6;

/// The encoding of 12.92, the slope of the straight part of the sRGB curve.
pub const LINEAR_SLOPE_BITS: u32 = 0x414e_b852;

/// The encoding of 0.055, the offset of the curved part of the sRGB curve.
pub const CURVE_OFFSET_BITS: u32 = 0x3d61_47ae;

/// The encoding of 1.055, the scale of the curved part of the sRGB curve.
pub const CURVE_SCALE_BITS: u32 = 0x3f87_0a3d;

/// The number with the encoding `bits`.
pub open spec fn number(bits: u32) -> Float {
    Float { bits }
}

/// The exponent in Planck's law for the wavelength `lambda`, in nanometres,
/// and the temperature `t`, in kelvins: `(h * c) / (l * kb * t)` with `l`
/// the wavelength in metres.
pub open spec fn planck_exponent_of(lambda: Float, t: Float) -> Float {
    let l = lambda.product(number(NANO_BITS));
    number(PLANCK_BITS).product(number(LIGHT_SPEED_BITS)).quotient(
        l.product(number(BOLTZMANN_BITS)).product(t),
    )
}

/// The radiance that Planck's law gives for the wavelength `lambda`, in
/// nanometres, where `power` is the exponential of the exponent:
/// `(2 * h * c * c) / (l^5 * (power - 1))`.
pub open spec fn planck_radiance_of(lambda: Float, power: Float) -> Float {
    let l = lambda.product(number(NANO_BITS));
    let lambda5 = l.product(l).product(l.product(l)).product(l);
    number(TWO_BITS).product(number(PLANCK_BITS)).product(number(LIGHT_SPEED_BITS)).product(
        number(LIGHT_SPEED_BITS),
    ).quotient(lambda5.product(power.difference(number(ONE_BITS))))
}

/// The wavelength, in nanometres, at which a blackbody of the temperature
/// `t` emits most: Wien's constant over `t`, in nanometres.
pub open spec fn wien_peak_of(t: Float) -> Float {
    number(WIEN_BITS).quotient(t).product(number(GIGA_BITS))
}

/// A colour channel as a fraction of its largest value.
pub open spec fn channel_fraction_of(v: u8) -> Float {
    Float::of(FloatValue::Finite { negative: false, units: v as nat * pow2(149) }).quotient(
        number(CHANNEL_MAX_BITS),
    )
}

/// The exponent in Planck's law.
pub fn planck_exponent(lambda: Float, t: Float) -> (r: Float)
    ensures
        r == planck_exponent_of(lambda, t),
{
    let l: Float = lambda.mul(Float { bits: NANO_BITS });
    Float { bits: PLANCK_BITS }.mul(Float { bits: LIGHT_SPEED_BITS }).div(
        l.mul(Float { bits: BOLTZMANN_BITS }).mul(t),
    )
}

/// The radiance that Planck's law gives, from the exponential of its
/// exponent.
pub fn planck_radiance(lambda: Float, power: Float) -> (r: Float)
    ensures
        r == planck_radiance_of(lambda, power),
{
    let l: Float = lambda.mul(Float { bits: NANO_BITS });
    let lambda5: Float = l.mul(l).mul(l.mul(l)).mul(l);
    let c: Float = Float { bits: LIGHT_SPEED_BITS };
    Float { bits: TWO_BITS }.mul(Float { bits: PLANCK_BITS }).mul(c).mul(c).div(
        lambda5.mul(power.sub(Float { bits: ONE_BITS })),
    )
}

/// The wavelength at which a blackbody emits most.
pub fn wien_peak(t: Float) -> (r: Float)
    ensures
        r == wien_peak_of(t),
{
    Float { bits: WIEN_BITS }.div(t).mul(Float { bits: GIGA_BITS })
}

/// A colour channel as a fraction of its largest value.
pub fn channel_fraction(v: u8) -> (r: Float)
    ensures
        r == channel_fraction_of(v),
{
    Float::from_u16(v as u16).div(Float { bits: CHANNEL_MAX_BITS })
}

/// Whether a channel fraction lies on the straight part of the sRGB curve.
pub fn on_linear_part(value: Float) -> (r: bool)
    ensures
        r == value@.le(number(LINEAR_LIMIT_BITS)@),
{
    value.le(Float { bits: LINEAR_LIMIT_BITS })
}

/// The linear value of a channel fraction on the straight part of the sRGB
/// curve: the fraction over 12.92.
pub fn linear_part(value: Float) -> (r: Float)
    ensures
        r == value.quotient(number(LINEAR_SLOPE_BITS)),
{
    value.div(Float { bits: LINEAR_SLOPE_BITS })
}

/// What is raised to the power 2.4 on the curved part of the sRGB curve:
/// `(value + 0.055) * 1 / 1.055`.
pub fn curve_base(value: Float) -> (r: Float)
    ensures
        r == value.sum(number(CURVE_OFFSET_BITS)).product(number(ONE_BITS)).quotient(
            number(CURVE_SCALE_BITS),
        ),
{
    value.add(Float { bits: CURVE_OFFSET_BITS }).mul(Float { bits: ONE_BITS }).div(
        Float { bits: CURVE_SCALE_BITS },
    )
}

} // verus!
