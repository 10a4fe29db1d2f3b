//! Curves: thin shapes that follow a cubic Bezier spline, such as hair and
//! grass.

use std::sync::Arc;
use vstd::prelude::*;
use crate::float::Float;
use crate::geometry::{Normal3f, Point3f, pnt3_lerp};

verus! {

/// How the surface around a curve is made up.
#[derive(Debug, Clone, Copy, PartialEq, Eq, Structural)]
pub enum CurveType {
    /// A flat strip that always faces the ray.
    Flat,
    /// A strip shaded as if it were a cylinder.
    Cylinder,
    /// A strip with a fixed orientation at each end.
    Ribbon,
}

/// What the segments of one curve share: the control points of the whole
/// curve in object space, the width at its two ends, and for a ribbon the
/// normals at its two ends with the angle between them.
#[derive(Clone, Copy)]
pub struct CurveCommon {
    pub curve_type: CurveType,
    pub cp_obj: [Point3f; 4],
    pub width: [Float; 2],
    pub n: [Normal3f; 2],
    pub normal_angle: Float,
    pub inv_sin_normal_angle: Float,
}

/// A row-major 4 by 4 matrix.
#[derive(Debug, Clone, Copy)]
pub struct Matrix4x4 {
    pub m: [[Float; 4]; 4],
}

/// A transformation, held with its inverse.
#[derive(Debug, Clone, Copy)]
pub struct Transform {
    pub m: Matrix4x4,
    pub m_inv: Matrix4x4,
}

/// The segment of a curve between the parameters `u_min` and `u_max`, with a
/// material of the type `M`.
#[derive(Clone)]
pub struct Curve<M> {
    pub common: Arc<CurveCommon>,
    pub u_min: Float,
    pub u_max: Float,
    pub object_to_world: Transform,
    pub world_to_object: Transform,
    pub reverse_orientation: bool,
    pub transform_swaps_handedness: bool,
    pub material: Option<Arc<M>>,
}

/// The blossom of the cubic Bezier spline with the control points `p` at
/// `u0`, `u1`, `u2`: three rounds of interpolation between neighbours, the
/// first at `u0`, the second at `u1`, the third at `u2`.
pub open spec fn blossom(p: Seq<Point3f>, u0: Float, u1: Float, u2: Float) -> Point3f {
    let a0 = Point3f::lerp(u0, p[0], p[1]);
    let a1 = Point3f::lerp(u0, p[1], p[2]);
    let a2 = Point3f::lerp(u0, p[2], p[3]);
    let b0 = Point3f::lerp(u1, a0, a1);
    let b1 = Point3f::lerp(u1, a1, a2);
    Point3f::lerp(u2, b0, b1)
}

/// The blossom of a cubic Bezier spline. With the three parameters equal it
/// is the point of the curve at that parameter; with parameters taken from
/// the ends of an interval it gives the control points of the curve over
/// that interval.
pub fn blossom_bezier(p: &[Point3f; 4], u0: Float, u1: Float, u2: Float) -> (r: Point3f)
    ensures
        r == blossom(p@, u0, u1, u2),
{
    let a: [Point3f; 3] = [
        pnt3_lerp(u0, p[0], p[1]),
        pnt3_lerp(u0, p[1], p[2]),
        pnt3_lerp(u0, p[2], p[3]),
    ];
    let b: [Point3f; 2] = [pnt3_lerp(u1, a[0], a[1]), pnt3_lerp(u1, a[1], a[2])];
    pnt3_lerp(u2, b[0], b[1])
}

} // verus!
