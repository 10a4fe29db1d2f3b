//! The Mitchell-Netravali reconstruction filter: a separable piecewise cubic
//! that trades ringing against blur by its two parameters B and C.

use std::sync::Arc;
use vstd::prelude::*;
use crate::float::Float;
use crate::geometry::{Point2f, Vector2f};
use crate::paramset::{ParamSet, first_single};

verus! {

/// The encoding of 0.
pub const ZERO: u32 = 0x0000_0000;

/// The encoding of 1.
pub const ONE: u32 = 0x3f80_0000;

/// The encoding of 2.
pub const TWO: u32 = 0x4000_0000;

/// The encoding of 3.
pub const THREE: u32 = 0x4040_0000;

/// The encoding of 6.
pub const SIX: u32 = 0x40c0_0000;

/// The encoding of 8.
pub const EIGHT: u32 = 0x4100_0000;

/// The encoding of 9.
pub const NINE: u32 = 0x4110_0000;

/// The encoding of 12.
pub const TWELVE: u32 = 0x4140_0000;

/// The encoding of -12.
pub const MINUS_TWELVE: u32 = 0xc140_0000;

/// The encoding of -18.
pub const MINUS_EIGHTEEN: u32 = 0xc190_0000;

/// The encoding of 24.
pub const TWENTY_FOUR: u32 = 0x41c0_0000;

/// The encoding of 30.
pub const THIRTY: u32 = 0x41f0_0000;

/// The encoding of 48.
pub const FORTY_EIGHT: u32 = 0x4240_0000;

/// The number with the encoding `bits`.
pub open spec fn num(bits: u32) -> Float {
    Float { bits }
}

/// The cubic of the inner part of the filter, where the scaled distance `fx`
/// lies below 1:
/// `((12 - 9B - 6C) fx^3 + (-18 + 12B + 6C) fx^2 + (6 - 2B)) * (1/6)`,
/// evaluated from the left, each operation rounded.
pub open spec fn inner_cubic(b: Float, c: Float, fx: Float) -> Float {
    num(TWELVE).difference(num(NINE).product(b)).difference(num(SIX).product(c)).product(
        fx,
    ).product(fx).product(fx).sum(
        num(MINUS_EIGHTEEN).sum(num(TWELVE).product(b)).sum(num(SIX).product(c)).product(
            fx,
        ).product(fx),
    ).sum(num(SIX).difference(num(TWO).product(b))).product(num(ONE).quotient(num(SIX)))
}

/// The cubic of the outer part of the filter, where the scaled distance `fx`
/// lies between 1 and 2:
/// `((-B - 6C) fx^3 + (6B + 30C) fx^2 + (-12B - 48C) fx + (8B + 24C)) * (1/6)`,
/// evaluated from the left, each operation rounded.
pub open spec fn outer_cubic(b: Float, c: Float, fx: Float) -> Float {
    b.negation().difference(num(SIX).product(c)).product(fx).product(fx).product(fx).sum(
        num(SIX).product(b).sum(num(THIRTY).product(c)).product(fx).product(fx),
    ).sum(num(MINUS_TWELVE).product(b).difference(num(FORTY_EIGHT).product(c)).product(fx)).sum(
        num(EIGHT).product(b).sum(num(TWENTY_FOUR).product(c)),
    ).product(num(ONE).quotient(num(SIX)))
}

/// The filter in one dimension at the distance `x`, the filter's radius
/// being 1: the inner cubic up to half the radius, the outer cubic up to the
/// radius, and 0 beyond. A NaN lies beyond.
pub open spec fn mitchell(b: Float, c: Float, x: Float) -> Float {
    let fx = x.absolute().product(num(TWO));
    if fx@.lt(num(ONE)@) {
        inner_cubic(b, c, fx)
    } else if fx@.lt(num(TWO)@) {
        outer_cubic(b, c, fx)
    } else {
        num(ZERO)
    }
}

/// A filter, which weights a sample by its offset from the pixel that it
/// contributes to.
pub trait Filter {
    /// The weight of a sample at the offset `p`.
    fn evaluate(&self, p: Point2f) -> Float;

    /// The distance, along each axis, beyond which the weight is 0.
    fn get_radius(&self) -> Vector2f;
}

/// The filter of Mitchell and Netravali: its radius along the two axes, the
/// reciprocals of the radius, and the parameters B and C.
pub struct MitchellNetravali {
    pub width: Float,
    pub height: Float,
    pub inv_width: Float,
    pub inv_height: Float,
    pub b: Float,
    pub c: Float,
}

impl MitchellNetravali {
    /// Whether the two reciprocals are those of the width and the height.
    pub open spec fn wf(&self) -> bool {
        &&& self.inv_width == num(ONE).quotient(self.width)
        &&& self.inv_height == num(ONE).quotient(self.height)
    }

    /// The weight at the offset `p`: the product of the one-dimensional
    /// filter along the two axes, each distance taken in radii.
    pub open spec fn weight(&self, p: Point2f) -> Float {
        mitchell(self.b, self.c, p.x.product(self.inv_width)).product(
            mitchell(self.b, self.c, p.y.product(self.inv_height)),
        )
    }

    /// The filter of radius `w` by `h` with the parameters `b` and `c`.
    pub fn new(w: Float, h: Float, b: Float, c: Float) -> (r: MitchellNetravali)
        ensures
            r.wf(),
            r.width == w,
            r.height == h,
            r.b == b,
            r.c == c,
    {
        let one: Float = Float { bits: ONE };
        MitchellNetravali {
            width: w,
            height: h,
            inv_width: one.div(w),
            inv_height: one.div(h),
            b,
            c,
        }
    }

    /// The filter in one dimension at the distance `x`, in radii.
    pub fn mitchell_1d(&self, x: Float) -> (r: Float)
        ensures
            r == mitchell(self.b, self.c, x),
    {
        let b: Float = self.b;
        let c: Float = self.c;
        let fx: Float = x.abs().mul(Float { bits: TWO });
        let sixth: Float = Float { bits: ONE }.div(Float { bits: SIX });
        if fx.lt(Float { bits: ONE }) {
            let cube: Float = Float { bits: TWELVE }.sub(Float { bits: NINE }.mul(b)).sub(
                Float { bits: SIX }.mul(c),
            ).mul(fx).mul(fx).mul(fx);
            let square: Float = Float { bits: MINUS_EIGHTEEN }.add(
                Float { bits: TWELVE }.mul(b),
            ).add(Float { bits: SIX }.mul(c)).mul(fx).mul(fx);
            let constant: Float = Float { bits: SIX }.sub(Float { bits: TWO }.mul(b));
            cube.add(square).add(constant).mul(sixth)
        } else if fx.lt(Float { bits: TWO }) {
            let cube: Float = b.neg().sub(Float { bits: SIX }.mul(c)).mul(fx).mul(fx).mul(fx);
            let square: Float = Float { bits: SIX }.mul(b).add(Float { bits: THIRTY }.mul(c)).mul(
                fx,
            ).mul(fx);
            let linear: Float = Float { bits: MINUS_TWELVE }.mul(b).sub(
                Float { bits: FORTY_EIGHT }.mul(c),
            ).mul(fx);
            let constant: Float = Float { bits: EIGHT }.mul(b).add(
                Float { bits: TWENTY_FOUR }.mul(c),
            );
            cube.add(square).add(linear).add(constant).mul(sixth)
        } else {
            Float { bits: ZERO }
        }
    }

    /// The filter that a parameter set describes: of the radius given under
    /// `xwidth` and `ywidth`, 2 where it is not given, and with the
    /// parameters given under `B` and `C`, a third where they are not.
    pub fn create(ps: &ParamSet) -> (r: Arc<MitchellNetravali>)
        ensures
            r.wf(),
            r.width == first_single(ps.floats@, "xwidth"@, num(TWO), 0),
            r.height == first_single(ps.floats@, "ywidth"@, num(TWO), 0),
            r.b == first_single(
                ps.floats@,
                "B"@,
                num(ONE).quotient(num(THREE)),
                0,
            ),
            r.c == first_single(
                ps.floats@,
                "C"@,
                num(ONE).quotient(num(THREE)),
                0,
            ),
    {
        let third: Float = Float { bits: ONE }.div(Float { bits: THREE });
        let xw: Float = ps.find_one_float(&"xwidth".to_owned(), Float { bits: TWO });
        let yw: Float = ps.find_one_float(&"ywidth".to_owned(), Float { bits: TWO });
        let b: Float = ps.find_one_float(&"B".to_owned(), third);
        let c: Float = ps.find_one_float(&"C".to_owned(), third);
        Arc::new(MitchellNetravali::new(xw, yw, b, c))
    }
}

impl Filter for MitchellNetravali {
    fn evaluate(&self, p: Point2f) -> (r: Float)
        ensures
            r == self.weight(p),
    {
        self.mitchell_1d(p.x.mul(self.inv_width)).mul(self.mitchell_1d(p.y.mul(self.inv_height)))
    }

    fn get_radius(&self) -> (r: Vector2f)
        ensures
            r.x == self.width,
            r.y == self.height,
    {
        Vector2f { x: self.width, y: self.height }
    }
}

} // verus!
