//! Points, vectors and surface normals in two and three dimensions, rays and
//! their differentials, and pixel bounds.

use vstd::prelude::*;
use crate::float::Float;
use crate::pbrt::ONE_BITS;

verus! {

/// A point on the image plane.
#[derive(Debug, Clone, Copy)]
pub struct Point2f {
    pub x: Float,
    pub y: Float,
}

/// A displacement on the image plane.
#[derive(Debug, Clone, Copy)]
pub struct Vector2f {
    pub x: Float,
    pub y: Float,
}

/// A pixel.
#[derive(Debug, Clone, Copy, PartialEq, Eq, Structural)]
pub struct Point2i {
    pub x: i32,
    pub y: i32,
}

/// A rectangle of pixels, from `p_min` up to but without `p_max`.
#[derive(Debug, Clone, Copy, PartialEq, Eq, Structural)]
pub struct Bounds2i {
    pub p_min: Point2i,
    pub p_max: Point2i,
}

/// A direction in space.
#[derive(Debug, Clone, Copy)]
pub struct Vector3f {
    pub x: Float,
    pub y: Float,
    pub z: Float,
}

/// A point in space.
#[derive(Debug, Clone, Copy)]
pub struct Point3f {
    pub x: Float,
    pub y: Float,
    pub z: Float,
}

/// A surface normal.
#[derive(Debug, Clone, Copy)]
pub struct Normal3f {
    pub x: Float,
    pub y: Float,
    pub z: Float,
}

/// The rays through the two neighbouring pixels, one to the right and one
/// below, that go with a camera ray.
#[derive(Debug, Clone, Copy)]
pub struct RayDifferential {
    pub rx_origin: Point3f,
    pub ry_origin: Point3f,
    pub rx_direction: Vector3f,
    pub ry_direction: Vector3f,
}

/// A ray: origin, direction, the parameter up to which it runs, the time at
/// which it is cast, and the rays of the neighbouring pixels where they are
/// known.
#[derive(Debug, Clone, Copy)]
pub struct Ray {
    pub o: Point3f,
    pub d: Vector3f,
    pub t_max: Float,
    pub time: Float,
    pub differential: Option<RayDifferential>,
}

impl Vector3f {
    pub open spec fn plus(self, rhs: Vector3f) -> Vector3f {
        Vector3f { x: self.x.sum(rhs.x), y: self.y.sum(rhs.y), z: self.z.sum(rhs.z) }
    }

    pub open spec fn minus(self, rhs: Vector3f) -> Vector3f {
        Vector3f {
            x: self.x.difference(rhs.x),
            y: self.y.difference(rhs.y),
            z: self.z.difference(rhs.z),
        }
    }

    pub open spec fn scaled(self, rhs: Float) -> Vector3f {
        Vector3f { x: self.x.product(rhs), y: self.y.product(rhs), z: self.z.product(rhs) }
    }

    pub open spec fn negated(self) -> Vector3f {
        Vector3f { x: self.x.negation(), y: self.y.negation(), z: self.z.negation() }
    }

    /// The vector with the components of a normal.
    pub open spec fn of_normal(n: Normal3f) -> Vector3f {
        Vector3f { x: n.x, y: n.y, z: n.z }
    }

    /// `x*x' + y*y' + z*z'`, summed from the left.
    pub open spec fn dot_normal(self, n: Normal3f) -> Float {
        self.x.product(n.x).sum(self.y.product(n.y)).sum(self.z.product(n.z))
    }

    pub fn add(self, rhs: Vector3f) -> (r: Vector3f)
        ensures
            r == self.plus(rhs),
    {
        Vector3f { x: self.x.add(rhs.x), y: self.y.add(rhs.y), z: self.z.add(rhs.z) }
    }

    pub fn sub(self, rhs: Vector3f) -> (r: Vector3f)
        ensures
            r == self.minus(rhs),
    {
        Vector3f { x: self.x.sub(rhs.x), y: self.y.sub(rhs.y), z: self.z.sub(rhs.z) }
    }

    pub fn mul(self, rhs: Float) -> (r: Vector3f)
        ensures
            r == self.scaled(rhs),
    {
        Vector3f { x: self.x.mul(rhs), y: self.y.mul(rhs), z: self.z.mul(rhs) }
    }

    pub fn neg(self) -> (r: Vector3f)
        ensures
            r == self.negated(),
    {
        Vector3f { x: self.x.neg(), y: self.y.neg(), z: self.z.neg() }
    }

    pub fn from(n: Normal3f) -> (r: Vector3f)
        ensures
            r == Vector3f::of_normal(n),
    {
        Vector3f { x: n.x, y: n.y, z: n.z }
    }
}

impl Normal3f {
    pub open spec fn plus(self, rhs: Normal3f) -> Normal3f {
        Normal3f { x: self.x.sum(rhs.x), y: self.y.sum(rhs.y), z: self.z.sum(rhs.z) }
    }

    pub open spec fn scaled(self, rhs: Float) -> Normal3f {
        Normal3f { x: self.x.product(rhs), y: self.y.product(rhs), z: self.z.product(rhs) }
    }

    pub fn add(self, rhs: Normal3f) -> (r: Normal3f)
        ensures
            r == self.plus(rhs),
    {
        Normal3f { x: self.x.add(rhs.x), y: self.y.add(rhs.y), z: self.z.add(rhs.z) }
    }

    pub fn mul(self, rhs: Float) -> (r: Normal3f)
        ensures
            r == self.scaled(rhs),
    {
        Normal3f { x: self.x.mul(rhs), y: self.y.mul(rhs), z: self.z.mul(rhs) }
    }
}

impl Point3f {
    /// The point moved by a vector.
    pub open spec fn moved(self, rhs: Vector3f) -> Point3f {
        Point3f { x: self.x.sum(rhs.x), y: self.y.sum(rhs.y), z: self.z.sum(rhs.z) }
    }

    /// The sum of the coordinates of two points, as interpolation needs it.
    pub open spec fn plus(self, rhs: Point3f) -> Point3f {
        Point3f { x: self.x.sum(rhs.x), y: self.y.sum(rhs.y), z: self.z.sum(rhs.z) }
    }

    pub open spec fn scaled(self, rhs: Float) -> Point3f {
        Point3f { x: self.x.product(rhs), y: self.y.product(rhs), z: self.z.product(rhs) }
    }

    /// `p0 * (1 - t) + p1 * t`, coordinate by coordinate.
    pub open spec fn lerp(t: Float, p0: Point3f, p1: Point3f) -> Point3f {
        p0.scaled(Float { bits: ONE_BITS }.difference(t)).plus(p1.scaled(t))
    }

    pub fn add_vector(self, rhs: Vector3f) -> (r: Point3f)
        ensures
            r == self.moved(rhs),
    {
        Point3f { x: self.x.add(rhs.x), y: self.y.add(rhs.y), z: self.z.add(rhs.z) }
    }

    pub fn add(self, rhs: Point3f) -> (r: Point3f)
        ensures
            r == self.plus(rhs),
    {
        Point3f { x: self.x.add(rhs.x), y: self.y.add(rhs.y), z: self.z.add(rhs.z) }
    }

    pub fn mul(self, rhs: Float) -> (r: Point3f)
        ensures
            r == self.scaled(rhs),
    {
        Point3f { x: self.x.mul(rhs), y: self.y.mul(rhs), z: self.z.mul(rhs) }
    }
}

/// The dot product of a vector and a normal.
pub fn vec3_dot_nrm(v: &Vector3f, n: &Normal3f) -> (r: Float)
    ensures
        r == v.dot_normal(*n),
{
    v.x.mul(n.x).add(v.y.mul(n.y)).add(v.z.mul(n.z))
}

/// The magnitude of the dot product of a vector and a normal.
pub fn vec3_abs_dot_nrm(v: &Vector3f, n: &Normal3f) -> (r: Float)
    ensures
        r == v.dot_normal(*n).absolute(),
{
    vec3_dot_nrm(v, n).abs()
}

/// Interpolates linearly between two points.
pub fn pnt3_lerp(t: Float, p0: Point3f, p1: Point3f) -> (r: Point3f)
    ensures
        r == Point3f::lerp(t, p0, p1),
{
    let one: Float = Float { bits: ONE_BITS };
    p0.mul(one.sub(t)).add(p1.mul(t))
}

} // verus!
