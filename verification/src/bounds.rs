//! Boxes in space whose sides lie along the axes, as they bound primitives
//! and the nodes of a bounding volume hierarchy.

use vstd::prelude::*;
use crate::float::Float;
use crate::geometry::{Point3f, Ray, Vector3f};
use crate::pbrt::{ONE_BITS, TWO_BITS};

verus! {

/// The encoding of the largest finite number.
pub const MAX_BITS: u32 = 0x7f7f_ffff;

/// The encoding of the lowest finite number.
pub const LOWEST_BITS: u32 = 0xff7f_ffff;

/// The encoding of one half.
pub const HALF_BITS: u32 = 0x3f00_0000;

/// The encoding of 1.0000004, by which the far end of a slab is moved out so
/// that rounding never makes a ray miss a box that it touches.
pub const SLAB_GROWTH_BITS: u32 = 0x3f80_0003;

/// A box from the corner `p_min` to the corner `p_max`.
#[derive(Debug, Clone, Copy)]
pub struct Bounds3f {
    pub p_min: Point3f,
    pub p_max: Point3f,
}

impl Point3f {
    /// The coordinate along the axis `axis`: x for 0, y for 1, z otherwise.
    pub open spec fn along(self, axis: u8) -> Float {
        if axis == 0 {
            self.x
        } else if axis == 1 {
            self.y
        } else {
            self.z
        }
    }

    pub fn component(&self, axis: u8) -> (r: Float)
        ensures
            r == self.along(axis),
    {
        if axis == 0 {
            self.x
        } else if axis == 1 {
            self.y
        } else {
            self.z
        }
    }

    /// The point of the smaller coordinates.
    pub open spec fn lowest_with(self, p: Point3f) -> Point3f {
        Point3f { x: self.x.smaller(p.x), y: self.y.smaller(p.y), z: self.z.smaller(p.z) }
    }

    /// The point of the larger coordinates.
    pub open spec fn highest_with(self, p: Point3f) -> Point3f {
        Point3f { x: self.x.larger(p.x), y: self.y.larger(p.y), z: self.z.larger(p.z) }
    }

    pub fn min(self, p: Point3f) -> (r: Point3f)
        ensures
            r == self.lowest_with(p),
    {
        Point3f { x: self.x.min(p.x), y: self.y.min(p.y), z: self.z.min(p.z) }
    }

    pub fn max(self, p: Point3f) -> (r: Point3f)
        ensures
            r == self.highest_with(p),
    {
        Point3f { x: self.x.max(p.x), y: self.y.max(p.y), z: self.z.max(p.z) }
    }
}

impl Vector3f {
    /// The component along the axis `axis`: x for 0, y for 1, z otherwise.
    pub open spec fn along(self, axis: u8) -> Float {
        if axis == 0 {
            self.x
        } else if axis == 1 {
            self.y
        } else {
            self.z
        }
    }

    pub fn component(&self, axis: u8) -> (r: Float)
        ensures
            r == self.along(axis),
    {
        if axis == 0 {
            self.x
        } else if axis == 1 {
            self.y
        } else {
            self.z
        }
    }
}

/// What a ray brings to a series of box tests: the reciprocals of its
/// direction, and for each axis whether it runs against it.
#[derive(Debug, Clone, Copy)]
pub struct RaySlopes {
    pub inv_dir: Vector3f,
    pub x_is_neg: bool,
    pub y_is_neg: bool,
    pub z_is_neg: bool,
}

impl RaySlopes {
    /// The slopes of a ray with the direction `d`.
    pub open spec fn of(d: Vector3f) -> RaySlopes {
        let one = Float { bits: ONE_BITS };
        let zero = Float { bits: 0 };
        let inv = Vector3f { x: one.quotient(d.x), y: one.quotient(d.y), z: one.quotient(d.z) };
        RaySlopes {
            inv_dir: inv,
            x_is_neg: inv.x@.lt(zero@),
            y_is_neg: inv.y@.lt(zero@),
            z_is_neg: inv.z@.lt(zero@),
        }
    }

    /// Whether the ray runs against the axis `axis`.
    pub open spec fn against(self, axis: u8) -> bool {
        if axis == 0 {
            self.x_is_neg
        } else if axis == 1 {
            self.y_is_neg
        } else {
            self.z_is_neg
        }
    }

    pub fn new(d: &Vector3f) -> (r: RaySlopes)
        ensures
            r == RaySlopes::of(*d),
    {
        let one: Float = Float { bits: ONE_BITS };
        let zero: Float = Float { bits: 0 };
        let inv: Vector3f = Vector3f { x: one.div(d.x), y: one.div(d.y), z: one.div(d.z) };
        RaySlopes {
            inv_dir: inv,
            x_is_neg: inv.x.lt(zero),
            y_is_neg: inv.y.lt(zero),
            z_is_neg: inv.z.lt(zero),
        }
    }

    pub fn is_neg(&self, axis: u8) -> (r: bool)
        ensures
            r == self.against(axis),
    {
        if axis == 0 {
            self.x_is_neg
        } else if axis == 1 {
            self.y_is_neg
        } else {
            self.z_is_neg
        }
    }
}

/// The parameters at which a ray enters and leaves the slab between `near`
/// and `far` along one axis: `(near - o) * inv` and `(far - o) * inv`, the
/// second moved out by the slab growth.
pub open spec fn slab(near: Float, far: Float, o: Float, inv: Float) -> (Float, Float) {
    (
        near.difference(o).product(inv),
        far.difference(o).product(inv).product(Float { bits: SLAB_GROWTH_BITS }),
    )
}

/// The stretch of parameters `(t0, t1)` cut down to the stretch `(s0, s1)`,
/// or nothing where the two do not meet.
pub open spec fn narrowed(t: (Float, Float), s: (Float, Float)) -> Option<(Float, Float)> {
    if s.1@.lt(t.0@) || t.1@.lt(s.0@) {
        None
    } else {
        Some((if t.0@.lt(s.0@) {
            s.0
        } else {
            t.0
        }, if s.1@.lt(t.1@) {
            s.1
        } else {
            t.1
        }))
    }
}

impl Bounds3f {
    /// The box that holds nothing: its corners are turned inside out, so
    /// that its union with any box is that box.
    pub open spec fn nothing() -> Bounds3f {
        let most = Float { bits: MAX_BITS };
        let least = Float { bits: LOWEST_BITS };
        Bounds3f {
            p_min: Point3f { x: most, y: most, z: most },
            p_max: Point3f { x: least, y: least, z: least },
        }
    }

    /// The smallest box around two boxes.
    pub open spec fn joined(self, b: Bounds3f) -> Bounds3f {
        Bounds3f { p_min: self.p_min.lowest_with(b.p_min), p_max: self.p_max.highest_with(b.p_max) }
    }

    /// The smallest box around a box and a point.
    pub open spec fn grown(self, p: Point3f) -> Bounds3f {
        Bounds3f { p_min: self.p_min.lowest_with(p), p_max: self.p_max.highest_with(p) }
    }

    /// The middle of the box: half of one corner plus half of the other.
    pub open spec fn middle(self) -> Point3f {
        let half = Float { bits: HALF_BITS };
        self.p_min.scaled(half).plus(self.p_max.scaled(half))
    }

    /// The extent of the box along the axis `axis`.
    pub open spec fn extent(self, axis: u8) -> Float {
        self.p_max.along(axis).difference(self.p_min.along(axis))
    }

    /// The axis along which the box is longest: x if it is longer than both
    /// others, else y if it is longer than z.
    pub open spec fn longest_axis(self) -> u8 {
        if self.extent(1)@.lt(self.extent(0)@) && self.extent(2)@.lt(self.extent(0)@) {
            0
        } else if self.extent(2)@.lt(self.extent(1)@) {
            1
        } else {
            2
        }
    }

    /// The area of the six sides: `2 * (dx*dy + dx*dz + dy*dz)`.
    pub open spec fn area(self) -> Float {
        let dx = self.extent(0);
        let dy = self.extent(1);
        let dz = self.extent(2);
        Float { bits: TWO_BITS }.product(dx.product(dy).sum(dx.product(dz)).sum(dy.product(dz)))
    }

    /// Where the coordinate `x` lies along one axis, between 0 at the corner
    /// `lo` and 1 at the corner `hi`; along an axis without extent it is left
    /// as its distance from `lo`.
    pub open spec fn relative(x: Float, lo: Float, hi: Float) -> Float {
        if lo@.lt(hi@) {
            x.difference(lo).quotient(hi.difference(lo))
        } else {
            x.difference(lo)
        }
    }

    /// The corner that a ray meets first (for `near`) or last along the axis
    /// `axis`, given whether it runs against the axis.
    pub open spec fn corner(self, axis: u8, against: bool, near: bool) -> Float {
        if against == near {
            self.p_max.along(axis)
        } else {
            self.p_min.along(axis)
        }
    }

    /// The stretch of parameters over which a ray lies in the slab of the
    /// box along one axis.
    pub open spec fn slab_along(self, axis: u8, o: Point3f, slopes: RaySlopes) -> (Float, Float) {
        slab(
            self.corner(axis, slopes.against(axis), true),
            self.corner(axis, slopes.against(axis), false),
            o.along(axis),
            slopes.inv_dir.along(axis),
        )
    }

    /// Whether a ray crosses the box before it ends: the stretches over
    /// which it lies in the three slabs meet, the common stretch begins
    /// before the ray's end and ends after its origin.
    pub open spec fn crossed(self, ray: Ray, slopes: RaySlopes) -> bool {
        match narrowed(self.slab_along(0, ray.o, slopes), self.slab_along(1, ray.o, slopes)) {
            None => false,
            Some(xy) => match narrowed(xy, self.slab_along(2, ray.o, slopes)) {
                None => false,
                Some(t) => t.0@.lt(ray.t_max@) && (Float { bits: 0 })@.lt(t.1@),
            },
        }
    }

    pub fn empty() -> (r: Bounds3f)
        ensures
            r == Bounds3f::nothing(),
    {
        let most: Float = Float { bits: MAX_BITS };
        let least: Float = Float { bits: LOWEST_BITS };
        Bounds3f {
            p_min: Point3f { x: most, y: most, z: most },
            p_max: Point3f { x: least, y: least, z: least },
        }
    }

    pub fn union(&self, b: &Bounds3f) -> (r: Bounds3f)
        ensures
            r == self.joined(*b),
    {
        Bounds3f { p_min: self.p_min.min(b.p_min), p_max: self.p_max.max(b.p_max) }
    }

    pub fn union_point(&self, p: &Point3f) -> (r: Bounds3f)
        ensures
            r == self.grown(*p),
    {
        Bounds3f { p_min: self.p_min.min(*p), p_max: self.p_max.max(*p) }
    }

    pub fn centroid(&self) -> (r: Point3f)
        ensures
            r == self.middle(),
    {
        let half: Float = Float { bits: HALF_BITS };
        self.p_min.mul(half).add(self.p_max.mul(half))
    }

    pub fn maximum_extent(&self) -> (r: u8)
        ensures
            r == self.longest_axis(),
            r <= 2,
    {
        let dx: Float = self.p_max.x.sub(self.p_min.x);
        let dy: Float = self.p_max.y.sub(self.p_min.y);
        let dz: Float = self.p_max.z.sub(self.p_min.z);
        if dx.gt(dy) && dx.gt(dz) {
            0
        } else if dy.gt(dz) {
            1
        } else {
            2
        }
    }

    pub fn surface_area(&self) -> (r: Float)
        ensures
            r == self.area(),
    {
        let dx: Float = self.p_max.x.sub(self.p_min.x);
        let dy: Float = self.p_max.y.sub(self.p_min.y);
        let dz: Float = self.p_max.z.sub(self.p_min.z);
        Float { bits: TWO_BITS }.mul(dx.mul(dy).add(dx.mul(dz)).add(dy.mul(dz)))
    }

    /// Where the point `p` lies along the axis `axis` of the box.
    pub fn offset(&self, p: &Point3f, axis: u8) -> (r: Float)
        ensures
            r == Bounds3f::relative(p.along(axis), self.p_min.along(axis), self.p_max.along(axis)),
    {
        let lo: Float = self.p_min.component(axis);
        let hi: Float = self.p_max.component(axis);
        let o: Float = p.component(axis).sub(lo);
        if hi.gt(lo) {
            o.div(hi.sub(lo))
        } else {
            o
        }
    }

    fn slab_of(&self, axis: u8, o: &Point3f, slopes: &RaySlopes) -> (r: (Float, Float))
        ensures
            r == self.slab_along(axis, *o, *slopes),
    {
        let against: bool = slopes.is_neg(axis);
        let near: Float = if against {
            self.p_max.component(axis)
        } else {
            self.p_min.component(axis)
        };
        let far: Float = if against {
            self.p_min.component(axis)
        } else {
            self.p_max.component(axis)
        };
        let inv: Float = slopes.inv_dir.component(axis);
        let from: Float = o.component(axis);
        (near.sub(from).mul(inv), far.sub(from).mul(inv).mul(Float { bits: SLAB_GROWTH_BITS }))
    }

    /// Whether `ray` crosses the box before it ends.
    pub fn intersect_p(&self, ray: &Ray, slopes: &RaySlopes) -> (r: bool)
        ensures
            r == self.crossed(*ray, *slopes),
    {
        let (mut t_min, mut t_max) = self.slab_of(0, &ray.o, slopes);
        let (ty_min, ty_max) = self.slab_of(1, &ray.o, slopes);
        if t_min.gt(ty_max) || ty_min.gt(t_max) {
            return false;
        }
        if ty_min.gt(t_min) {
            t_min = ty_min;
        }
        if ty_max.lt(t_max) {
            t_max = ty_max;
        }
        let (tz_min, tz_max) = self.slab_of(2, &ray.o, slopes);
        if t_min.gt(tz_max) || tz_min.gt(t_max) {
            return false;
        }
        if tz_min.gt(t_min) {
            t_min = tz_min;
        }
        if tz_max.lt(t_max) {
            t_max = tz_max;
        }
        t_min.lt(ray.t_max) && t_max.gt(Float { bits: 0 })
    }
}

} // verus!
