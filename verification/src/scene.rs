//! A scene: the accelerator over its primitives, together with its lighting.
//! It is built once and not changed afterwards, so that any number of
//! workers can ask it at the same time.

use vstd::prelude::*;
use crate::bvh::{BVHAccel, Primitive};
use crate::directlighting::{DirectLightingIntegrator, escaped_sum};
use crate::float::Float;
use crate::geometry::{Point2f, Point3f, Ray, Vector3f};
use crate::integrator::{Lighting, LightPick, LightSampleStrategy, Sampler, Scene,
    SurfaceInteraction, black};
use crate::spectrum::RGBSpectrum;

verus! {

/// What a ray meets, without the parameter at which it meets it.
pub open spec fn met<F>(found: Option<(F, Float)>) -> Option<F> {
    match found {
        Some(pair) => Some(pair.0),
        None => None,
    }
}

/// A scene whose primitives, of the type `P`, lie in a bounding volume
/// hierarchy, and whose lighting is `L`.
pub struct AcceleratedScene<P: Primitive<Found = SurfaceInteraction<L::Scattering>>, L: Lighting> {
    accelerator: BVHAccel<P>,
    lighting: L,
}

impl<P: Primitive<Found = SurfaceInteraction<L::Scattering>>, L: Lighting> AcceleratedScene<P, L> {
    /// The hierarchy is well formed.
    #[verifier::type_invariant]
    spec fn inv(&self) -> bool {
        self.accelerator.wf()
    }

    /// The hierarchy over the primitives.
    pub closed spec fn accelerator(&self) -> BVHAccel<P> {
        self.accelerator
    }

    /// The lighting.
    pub closed spec fn lighting(&self) -> L {
        self.lighting
    }

    /// The scene of a hierarchy and a lighting.
    pub fn new(accelerator: BVHAccel<P>, lighting: L) -> (r: Self)
        requires
            accelerator.wf(),
        ensures
            r.accelerator() == accelerator,
            r.lighting() == lighting,
    {
        AcceleratedScene { accelerator, lighting }
    }

    /// Finds whether `ray` meets anything.
    pub fn intersect_p(&self, ray: &Ray) -> (r: bool)
        ensures
            r == self.accelerator().occluded(*ray),
            r == (self.hit(*ray) is Some),
    {
        proof {
            use_type_invariant(self);
            self.accelerator.lemma_occluded_iff_nearest(*ray);
        }
        self.accelerator.intersect_p(ray)
    }

    /// The number of primitives.
    pub fn primitive_count(&self) -> (n: usize)
        ensures
            n == self.accelerator().primitives@.len(),
    {
        self.accelerator.primitives.len()
    }

    /// In a scene without primitives no ray meets anything, so that the
    /// radiance along every ray is what the lights send after it, and black
    /// where there are no lights either.
    pub proof fn lemma_empty_scene<S: Sampler>(
        &self,
        integrator: &DirectLightingIntegrator,
        ray: Ray,
        sampler: S,
        depth: int,
    )
        requires
            self.accelerator().wf(),
            self.accelerator().primitives@.len() == 0,
        ensures
            self.hit(ray) is None,
            integrator.radiance(self, ray, sampler, depth) == (
                escaped_sum(self, ray, self.light_total() as int),
                sampler,
            ),
            self.light_total() == 0 ==> integrator.radiance(self, ray, sampler, depth).0 == black(),
    {
        self.accelerator.lemma_nothing_to_meet(ray);
        crate::directlighting::lemma_radiance_of_a_miss(integrator, self, ray, sampler, depth);
    }
}

impl<P: Primitive<Found = SurfaceInteraction<L::Scattering>>, L: Lighting> Lighting for AcceleratedScene<
    P,
    L,
> {
    type Scattering = L::Scattering;

    open spec fn light_total(&self) -> nat {
        self.lighting().light_total()
    }

    open spec fn samples_of(&self, light: int) -> i32 {
        self.lighting().samples_of(light)
    }

    open spec fn escaped(&self, light: int, ray: Ray) -> RGBSpectrum {
        self.lighting().escaped(light, ray)
    }

    open spec fn emitted(&self, isect: SurfaceInteraction<L::Scattering>, w: Vector3f) -> RGBSpectrum {
        self.lighting().emitted(isect, w)
    }

    open spec fn shaded(&self, isect: SurfaceInteraction<L::Scattering>, ray: Ray)
        -> SurfaceInteraction<L::Scattering> {
        self.lighting().shaded(isect, ray)
    }

    open spec fn spawned(&self, isect: SurfaceInteraction<L::Scattering>, wi: Vector3f) -> Ray {
        self.lighting().spawned(isect, wi)
    }

    open spec fn direct(
        &self,
        isect: SurfaceInteraction<L::Scattering>,
        u_scattering: Point2f,
        light: int,
        u_light: Point2f,
    ) -> RGBSpectrum {
        self.lighting().direct(isect, u_scattering, light, u_light)
    }

    open spec fn picked(&self, strategy: LightSampleStrategy, p: Point3f, u: Float) -> LightPick {
        self.lighting().picked(strategy, p, u)
    }

    fn pick_light(&self, strategy: LightSampleStrategy, p: &Point3f, u: Float) -> (r: LightPick) {
        self.lighting.pick_light(strategy, p, u)
    }

    fn light_count(&self) -> (n: usize) {
        self.lighting.light_count()
    }

    fn light_n_samples(&self, light: usize) -> (n: i32) {
        self.lighting.light_n_samples(light)
    }

    fn light_le(&self, light: usize, ray: &Ray) -> (r: RGBSpectrum) {
        self.lighting.light_le(light, ray)
    }

    fn le(&self, isect: &SurfaceInteraction<L::Scattering>, w: &Vector3f) -> (r: RGBSpectrum) {
        self.lighting.le(isect, w)
    }

    fn compute_scattering_functions(
        &self,
        isect: SurfaceInteraction<L::Scattering>,
        ray: &Ray,
    ) -> (r: SurfaceInteraction<L::Scattering>) {
        self.lighting.compute_scattering_functions(isect, ray)
    }

    fn spawn_ray(&self, isect: &SurfaceInteraction<L::Scattering>, wi: &Vector3f) -> (r: Ray) {
        self.lighting.spawn_ray(isect, wi)
    }

    fn estimate_direct(
        &self,
        isect: &SurfaceInteraction<L::Scattering>,
        u_scattering: &Point2f,
        light: usize,
        u_light: &Point2f,
    ) -> (r: RGBSpectrum) {
        self.lighting.estimate_direct(isect, u_scattering, light, u_light)
    }
}

impl<P: Primitive<Found = SurfaceInteraction<L::Scattering>>, L: Lighting> Scene for AcceleratedScene<
    P,
    L,
> {
    /// What the walk through the hierarchy finds first.
    open spec fn hit(&self, ray: Ray) -> Option<SurfaceInteraction<L::Scattering>> {
        met(self.accelerator().nearest(ray))
    }

    fn intersect(&self, ray: &Ray) -> (r: Option<SurfaceInteraction<L::Scattering>>) {
        proof {
            use_type_invariant(self);
        }
        match self.accelerator.intersect(ray) {
            Some(pair) => Some(pair.0),
            None => None,
        }
    }
}

} // verus!
