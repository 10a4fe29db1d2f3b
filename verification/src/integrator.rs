//! What an integrator needs of the world around it (a sampler, a scene, the
//! scattering functions of a surface), and the two ways of estimating the
//! light that reaches a surface point straight from the lights.
//!
//! Each capability is a function of its arguments: the same question gets the
//! same answer, and a sampler is moved on by each draw in one way only. That
//! is what makes a rendering repeatable, and it is all that is asked of an
//! implementation: beside each method stands a specification function that
//! names what the method gives. An implementation that is verified defines
//! these functions and proves its methods against them; one that is not
//! leaves them as they are, and answers for its methods itself.

use vstd::prelude::*;
use crate::float::Float;
use crate::convert::{nearest_to, truncation};
use crate::geometry::{Normal3f, Point2f, Point3f, Ray, Vector3f};
use crate::pbrt::ONE_BITS;
use crate::spectrum::{RGBSpectrum, sum3, quotient3, uniform3};

verus! {

/// The lobe of reflected light.
pub const BSDF_REFLECTION: u8 = 1;

/// The lobe of transmitted light.
pub const BSDF_TRANSMISSION: u8 = 2;

/// Scattering into a single direction.
pub const BSDF_SPECULAR: u8 = 16;

/// Diffuse scattering.
pub const BSDF_DIFFUSE: u8 = 4;

/// Glossy scattering.
pub const BSDF_GLOSSY: u8 = 8;

/// Every lobe.
pub const BSDF_ALL: u8 = 31;

/// Every lobe but the specular ones: `BSDF_ALL` without `BSDF_SPECULAR`.
pub const BSDF_NON_SPECULAR: u8 = 15;

/// Perfect mirror reflection: `BSDF_REFLECTION` with `BSDF_SPECULAR`.
pub const SPECULAR_REFLECTION: u8 = 17;

/// Perfect refraction: `BSDF_TRANSMISSION` with `BSDF_SPECULAR`.
pub const SPECULAR_TRANSMISSION: u8 = 18;

/// Whether the lobes `lobes` hold the single lobe `flag`, which is one of the
/// five lobe constants.
pub open spec fn holds_lobe(lobes: u8, flag: u8) -> bool {
    flag > 0 && (lobes / flag) % 2 == 1
}

/// Whether the lobes `lobes` hold the single lobe `flag`.
pub fn has_lobe(lobes: u8, flag: u8) -> (r: bool)
    ensures
        r == holds_lobe(lobes, flag),
{
    flag > 0 && (lobes / flag) % 2 == 1
}

/// How a path picks the light that it samples at a surface point.
#[derive(Debug, Clone, Copy, PartialEq, Eq, Structural)]
pub enum LightSampleStrategy {
    /// Every light is as likely as another.
    Uniform,
    /// A light is as likely as it is powerful.
    Power,
    /// A light is as likely as it matters at the place of the point.
    Spatial,
}

/// A light picked for sampling, and the chance with which it was picked.
#[derive(Debug, Clone, Copy)]
pub struct LightPick {
    pub light: usize,
    pub pdf: Float,
}

/// A direction drawn from a surface's scattering functions: the value of the
/// functions for it, the direction, the density with which it was drawn, and
/// the lobe that it was drawn from.
pub struct BsdfSample {
    pub f: RGBSpectrum,
    pub wi: Vector3f,
    pub pdf: Float,
    pub sampled_type: u8,
}

/// The shading geometry of a surface point: the normal that shading uses, and
/// how it changes along the surface parameters.
#[derive(Debug, Clone, Copy)]
pub struct Shading {
    pub n: Normal3f,
    pub dndu: Normal3f,
    pub dndv: Normal3f,
}

/// A point at which a ray meets a surface, with the direction back along the
/// ray, the surface's differential geometry, and the scattering functions
/// once they have been computed.
pub struct SurfaceInteraction<B> {
    pub p: Point3f,
    pub wo: Vector3f,
    pub n: Normal3f,
    pub shading: Shading,
    pub dpdx: Vector3f,
    pub dpdy: Vector3f,
    pub dudx: Float,
    pub dvdx: Float,
    pub dudy: Float,
    pub dvdy: Float,
    pub bsdf: Option<B>,
}

/// The scattering functions of a surface point.
pub trait Bsdf: Sized {
    /// What drawing a direction gives, for the outgoing direction `wo`, the
    /// sample point `u` and the lobes `flags`.
    open spec fn sampled(&self, wo: Vector3f, u: Point2f, flags: u8) -> BsdfSample {
        arbitrary()
    }

    /// The relative index of refraction across the surface.
    open spec fn refraction(&self) -> Float {
        arbitrary()
    }

    /// The number of lobes among `flags` that the surface has.
    open spec fn lobes(&self, flags: u8) -> i32 {
        arbitrary()
    }

    fn sample_f(&self, wo: &Vector3f, u: &Point2f, flags: u8) -> (r: BsdfSample)
        ensures
            r == self.sampled(*wo, *u, flags),
    ;

    fn eta(&self) -> (r: Float)
        ensures
            r == self.refraction(),
    ;

    fn num_components(&self, flags: u8) -> (r: i32)
        ensures
            r == self.lobes(flags),
    ;
}

/// A source of sample points. What it gives next, and the state in which it
/// is left, depend on its state alone.
pub trait Sampler: Sized {
    open spec fn next_1d(&self) -> Float {
        arbitrary()
    }

    open spec fn after_1d(&self) -> Self {
        arbitrary()
    }

    open spec fn next_2d(&self) -> Point2f {
        arbitrary()
    }

    open spec fn after_2d(&self) -> Self {
        arbitrary()
    }

    /// The count that the sampler prefers to `n`.
    open spec fn rounded_count(&self, n: i32) -> i32 {
        arbitrary()
    }

    open spec fn after_request(&self, n: i32) -> Self {
        arbitrary()
    }

    open spec fn next_2d_array(&self, n: i32) -> Seq<Point2f> {
        arbitrary()
    }

    open spec fn after_2d_array(&self, n: i32) -> Self {
        arbitrary()
    }

    fn get_1d(&mut self) -> (r: Float)
        ensures
            r == old(self).next_1d(),
            *final(self) == old(self).after_1d(),
    ;

    fn get_2d(&mut self) -> (r: Point2f)
        ensures
            r == old(self).next_2d(),
            *final(self) == old(self).after_2d(),
    ;

    fn round_count(&self, n: i32) -> (r: i32)
        ensures
            r == self.rounded_count(n),
    ;

    /// Reserves an array of `n` sample points for each sample of a pixel.
    fn request_2d_array(&mut self, n: i32)
        ensures
            *final(self) == old(self).after_request(n),
    ;

    /// The next reserved array, which holds `n` points, or nothing where no
    /// array is left.
    fn get_2d_array(&mut self, n: i32) -> (r: Vec<Point2f>)
        ensures
            r@ == old(self).next_2d_array(n),
            *final(self) == old(self).after_2d_array(n),
            r@.len() == 0 || r@.len() == n,
    ;
}

/// The lights of a scene in their order, and what a surface point emits,
/// scatters and receives.
pub trait Lighting {
    type Scattering: Bsdf;

    /// The number of lights.
    open spec fn light_total(&self) -> nat {
        arbitrary()
    }

    /// The number of samples that light `light` asks for.
    open spec fn samples_of(&self, light: int) -> i32 {
        arbitrary()
    }

    /// The radiance that light `light` sends along a ray that leaves the
    /// scene.
    open spec fn escaped(&self, light: int, ray: Ray) -> RGBSpectrum {
        arbitrary()
    }

    /// The radiance that the surface itself emits from `isect` towards `w`.
    open spec fn emitted(&self, isect: SurfaceInteraction<Self::Scattering>, w: Vector3f) -> RGBSpectrum {
        arbitrary()
    }

    /// The surface point with its scattering functions computed, for the ray
    /// that met it.
    open spec fn shaded(&self, isect: SurfaceInteraction<Self::Scattering>, ray: Ray)
        -> SurfaceInteraction<Self::Scattering> {
        arbitrary()
    }

    /// The ray that leaves `isect` in the direction `wi`.
    open spec fn spawned(&self, isect: SurfaceInteraction<Self::Scattering>, wi: Vector3f) -> Ray {
        arbitrary()
    }

    /// The estimate of the light that reaches `isect` straight from light
    /// `light`, for one sample point on the light and one for the scattering
    /// functions, with the light's visibility tested.
    open spec fn direct(
        &self,
        isect: SurfaceInteraction<Self::Scattering>,
        u_scattering: Point2f,
        light: int,
        u_light: Point2f,
    ) -> RGBSpectrum {
        arbitrary()
    }

    /// The light that the strategy `strategy` picks for the point `p` and
    /// the sample point `u`, and the chance of the pick. It is one of the
    /// lights.
    open spec fn picked(&self, strategy: LightSampleStrategy, p: Point3f, u: Float) -> LightPick {
        arbitrary()
    }

    fn pick_light(&self, strategy: LightSampleStrategy, p: &Point3f, u: Float) -> (r: LightPick)
        requires
            self.light_total() > 0,
        ensures
            r == self.picked(strategy, *p, u),
            r.light < self.light_total(),
    ;

    fn light_count(&self) -> (n: usize)
        ensures
            n == self.light_total(),
    ;

    fn light_n_samples(&self, light: usize) -> (n: i32)
        requires
            light < self.light_total(),
        ensures
            n == self.samples_of(light as int),
    ;

    fn light_le(&self, light: usize, ray: &Ray) -> (r: RGBSpectrum)
        requires
            light < self.light_total(),
        ensures
            r == self.escaped(light as int, *ray),
    ;

    fn le(&self, isect: &SurfaceInteraction<Self::Scattering>, w: &Vector3f) -> (r: RGBSpectrum)
        ensures
            r == self.emitted(*isect, *w),
    ;

    fn compute_scattering_functions(
        &self,
        isect: SurfaceInteraction<Self::Scattering>,
        ray: &Ray,
    ) -> (r: SurfaceInteraction<Self::Scattering>)
        ensures
            r == self.shaded(isect, *ray),
    ;

    fn spawn_ray(&self, isect: &SurfaceInteraction<Self::Scattering>, wi: &Vector3f) -> (r: Ray)
        ensures
            r == self.spawned(*isect, *wi),
    ;

    fn estimate_direct(
        &self,
        isect: &SurfaceInteraction<Self::Scattering>,
        u_scattering: &Point2f,
        light: usize,
        u_light: &Point2f,
    ) -> (r: RGBSpectrum)
        requires
            light < self.light_total(),
        ensures
            r == self.direct(*isect, *u_scattering, light as int, *u_light),
    ;
}

/// The scene as an integrator sees it: what a ray meets, and the lighting.
pub trait Scene: Lighting {
    /// The nearest surface point that `ray` meets, if it meets any.
    open spec fn hit(&self, ray: Ray) -> Option<SurfaceInteraction<Self::Scattering>> {
        arbitrary()
    }

    fn intersect(&self, ray: &Ray) -> (r: Option<SurfaceInteraction<Self::Scattering>>)
        ensures
            r == self.hit(*ray),
    ;
}

/// The coefficients of black.
pub open spec fn black() -> Seq<Float> {
    uniform3(Float { bits: 0 })
}

/// The sum of the estimates for the first `count` pairs of sample points of
/// one light, added up from black in their order.
pub open spec fn light_samples_sum<S: Scene>(
    scene: &S,
    isect: SurfaceInteraction<S::Scattering>,
    light: int,
    u_scattering: Seq<Point2f>,
    u_light: Seq<Point2f>,
    count: int,
) -> Seq<Float>
    decreases count,
{
    if count <= 0 {
        black()
    } else {
        sum3(
            light_samples_sum(scene, isect, light, u_scattering, u_light, count - 1),
            scene.direct(isect, u_scattering[count - 1], light, u_light[count - 1]).c@,
        )
    }
}

/// The estimate of the direct light from the first `upto` lights together,
/// and the sampler as the estimate leaves it.
///
/// Each light takes two reserved arrays from the sampler, one of points on the
/// light and one of points for the scattering functions, both of the size
/// kept for it in `counts`; its estimates are averaged. Where an array is
/// missing, the light gets a single estimate from two fresh sample points.
pub open spec fn all_lights<S: Scene, P: Sampler>(
    scene: &S,
    isect: SurfaceInteraction<S::Scattering>,
    sampler: P,
    counts: Seq<i32>,
    upto: int,
) -> (Seq<Float>, P)
    decreases upto,
{
    if upto <= 0 {
        (black(), sampler)
    } else {
        let (l, s0) = all_lights(scene, isect, sampler, counts, upto - 1);
        let light = upto - 1;
        let n = counts[light];
        let u_light = s0.next_2d_array(n);
        let s1 = s0.after_2d_array(n);
        let u_scattering = s1.next_2d_array(n);
        let s2 = s1.after_2d_array(n);
        if u_light.len() == 0 || u_scattering.len() == 0 {
            let ul = s2.next_2d();
            let s3 = s2.after_2d();
            let us = s3.next_2d();
            let s4 = s3.after_2d();
            (sum3(l, scene.direct(isect, us, light, ul).c@), s4)
        } else {
            let ld = light_samples_sum(scene, isect, light, u_scattering, u_light, n as int);
            (sum3(l, quotient3(ld, uniform3(Float::of(nearest_to(n as nat))))), s2)
        }
    }
}

/// The light that one sample point picks among `n`: the whole part of the
/// point times `n`, and the last light where that is beyond.
pub open spec fn picked_light(u: Float, n: nat) -> int {
    let scaled = truncation(u.product(Float::of(nearest_to(n)))@);
    if scaled >= n {
        n - 1
    } else {
        scaled as int
    }
}

/// The estimate of the direct light from one light picked at random, each
/// light being as likely as another, and the sampler as the estimate leaves
/// it. The estimate is divided by the chance of the pick, one in the number of
/// lights. Without lights it is black, and the sampler is not touched.
pub open spec fn one_light<S: Scene, P: Sampler>(
    scene: &S,
    isect: SurfaceInteraction<S::Scattering>,
    sampler: P,
) -> (Seq<Float>, P) {
    let n = scene.light_total();
    if n == 0 {
        (black(), sampler)
    } else {
        let light = picked_light(sampler.next_1d(), n);
        let s1 = sampler.after_1d();
        let light_pdf = Float { bits: ONE_BITS }.quotient(Float::of(nearest_to(n)));
        let ul = s1.next_2d();
        let s2 = s1.after_2d();
        let us = s2.next_2d();
        let s3 = s2.after_2d();
        (quotient3(scene.direct(isect, us, light, ul).c@, uniform3(light_pdf)), s3)
    }
}

/// Estimates the direct light at `isect` from every light, with the number
/// of samples kept for each in `n_light_samples`.
pub fn uniform_sample_all_lights<S: Scene, P: Sampler>(
    isect: &SurfaceInteraction<S::Scattering>,
    scene: &S,
    sampler: &mut P,
    n_light_samples: &Vec<i32>,
) -> (l: RGBSpectrum)
    requires
        n_light_samples@.len() >= scene.light_total(),
    ensures
        (l.c@, *final(sampler)) == all_lights(
            scene,
            *isect,
            *old(sampler),
            n_light_samples@,
            scene.light_total() as int,
        ),
{
    let mut l: RGBSpectrum = RGBSpectrum::new(Float { bits: 0 });
    let lights: usize = scene.light_count();
    let mut j: usize = 0;
    while j < lights
        invariant
            j <= lights == scene.light_total(),
            n_light_samples@.len() >= lights,
            (l.c@, *sampler) == all_lights(scene, *isect, *old(sampler), n_light_samples@, j as int),
        decreases lights - j,
    {
        let n_samples: i32 = n_light_samples[j];
        let u_light_array: Vec<Point2f> = sampler.get_2d_array(n_samples);
        let u_scattering_array: Vec<Point2f> = sampler.get_2d_array(n_samples);
        if u_light_array.len() == 0 || u_scattering_array.len() == 0 {
            // a single sample for the illumination from this light
            let u_light: Point2f = sampler.get_2d();
            let u_scattering: Point2f = sampler.get_2d();
            l = l.add(scene.estimate_direct(isect, &u_scattering, j, &u_light));
        } else {
            let mut ld: RGBSpectrum = RGBSpectrum::new(Float { bits: 0 });
            let mut k: usize = 0;
            while k < n_samples as usize
                invariant
                    k <= n_samples,
                    j < lights == scene.light_total(),
                    u_light_array@.len() == n_samples,
                    u_scattering_array@.len() == n_samples,
                    ld.c@ == light_samples_sum(
                        scene,
                        *isect,
                        j as int,
                        u_scattering_array@,
                        u_light_array@,
                        k as int,
                    ),
                decreases n_samples - k,
            {
                ld = ld.add(
                    scene.estimate_direct(isect, &u_scattering_array[k], j, &u_light_array[k]),
                );
                k = k + 1;
            }
            let count: Float = Float::from_u64(n_samples as u64);
            l = l.add(ld.div(RGBSpectrum::new(count)));
        }
        j = j + 1;
    }
    l
}

/// Estimates the direct light at `isect` from one light picked at random.
pub fn uniform_sample_one_light<S: Scene, P: Sampler>(
    isect: &SurfaceInteraction<S::Scattering>,
    scene: &S,
    sampler: &mut P,
) -> (l: RGBSpectrum)
    ensures
        (l.c@, *final(sampler)) == one_light(scene, *isect, *old(sampler)),
{
    let n_lights: usize = scene.light_count();
    if n_lights == 0 {
        return RGBSpectrum::new(Float { bits: 0 });
    }
    let count: Float = Float::from_u64(n_lights as u64);
    let scaled: u64 = sampler.get_1d().mul(count).to_u64();
    let light_num: usize = if scaled >= n_lights as u64 {
        n_lights - 1
    } else {
        scaled as usize
    };
    let light_pdf: Float = Float { bits: ONE_BITS }.div(count);
    let u_light: Point2f = sampler.get_2d();
    let u_scattering: Point2f = sampler.get_2d();
    scene.estimate_direct(isect, &u_scattering, light_num, &u_light).div(
        RGBSpectrum::new(light_pdf),
    )
}

} // verus!
