//! The direct-lighting integrator: the radiance along a ray is what the
//! surface it meets emits, what reaches that surface straight from the
//! lights, and, up to a fixed depth, what comes by way of perfect reflection
//! and refraction. Light that has bounced off anything else is left out.

use vstd::prelude::*;
use crate::float::Float;
use crate::geometry::{Bounds2i, Normal3f, Point2f, Ray, RayDifferential, Vector3f, vec3_abs_dot_nrm,
    vec3_dot_nrm};
use crate::integrator::{Bsdf, BsdfSample, Sampler, Scene, SurfaceInteraction, all_lights, black,
    one_light, uniform_sample_all_lights, uniform_sample_one_light, SPECULAR_REFLECTION,
    SPECULAR_TRANSMISSION};
use crate::pbrt::{ONE_BITS, TWO_BITS};
use crate::spectrum::{RGBSpectrum, product3, sum3, uniform3};

verus! {

/// How the light that comes straight from the lights is estimated.
#[derive(Debug, Clone, Copy, PartialEq, Eq, Structural)]
pub enum LightStrategy {
    /// Every light is sampled, each with the number of samples it asks for.
    UniformSampleAll,
    /// One light is picked at random and sampled once.
    UniformSampleOne,
}

/// Direct lighting, without global illumination.
pub struct DirectLightingIntegrator {
    pub pixel_bounds: Bounds2i,
    pub strategy: LightStrategy,
    pub max_depth: i64,
    pub n_light_samples: Vec<i32>,
}

/// The ray `r` with the differential `d`.
pub open spec fn with_differential(r: Ray, d: RayDifferential) -> Ray {
    Ray { o: r.o, d: r.d, t_max: r.t_max, time: r.time, differential: Some(d) }
}

/// How the shading normal changes from a pixel to its neighbour, given how
/// the surface parameters change: `dndu * du + dndv * dv`.
pub open spec fn normal_change<B>(isect: SurfaceInteraction<B>, du: Float, dv: Float) -> Normal3f {
    isect.shading.dndu.scaled(du).plus(isect.shading.dndv.scaled(dv))
}

/// How the outgoing direction changes towards a neighbouring pixel whose ray
/// has the direction `direction`: `-direction - wo`.
pub open spec fn outgoing_change(direction: Vector3f, wo: Vector3f) -> Vector3f {
    direction.negated().minus(wo)
}

/// The direction of a neighbouring pixel's ray after perfect reflection:
/// `wi - dwo + 2 * (dn * (wo . ns) + ns * ddn)`, where `dwo` and `dn` are the
/// changes of the outgoing direction and of the normal towards that pixel and
/// `ddn` is the change of `wo . ns`.
pub open spec fn reflected_direction(
    wi: Vector3f,
    wo: Vector3f,
    ns: Normal3f,
    dwo: Vector3f,
    dn: Normal3f,
) -> Vector3f {
    let ddn = dwo.dot_normal(ns).sum(wo.dot_normal(dn));
    wi.minus(dwo).plus(
        Vector3f::of_normal(dn.scaled(wo.dot_normal(ns)).plus(ns.scaled(ddn))).scaled(
            Float { bits: TWO_BITS },
        ),
    )
}

/// The differential of the ray that leaves `isect` by perfect reflection
/// into `wi`, for an incoming ray with the differential `d`.
pub open spec fn reflected_differential<B>(
    isect: SurfaceInteraction<B>,
    d: RayDifferential,
    wi: Vector3f,
) -> RayDifferential {
    let wo = isect.wo;
    let ns = isect.shading.n;
    RayDifferential {
        rx_origin: isect.p.moved(isect.dpdx),
        ry_origin: isect.p.moved(isect.dpdy),
        rx_direction: reflected_direction(
            wi,
            wo,
            ns,
            outgoing_change(d.rx_direction, wo),
            normal_change(isect, isect.dudx, isect.dvdx),
        ),
        ry_direction: reflected_direction(
            wi,
            wo,
            ns,
            outgoing_change(d.ry_direction, wo),
            normal_change(isect, isect.dudy, isect.dvdy),
        ),
    }
}

/// The relative index of refraction as a ray meets it: `eta` for a ray that
/// leaves on the side of the shading normal, its reciprocal for one that
/// leaves on the other side.
pub open spec fn oriented_eta(eta: Float, wo: Vector3f, ns: Normal3f) -> Float {
    if wo.dot_normal(ns)@.lt(Float { bits: 0 }@) {
        Float { bits: ONE_BITS }.quotient(eta)
    } else {
        eta
    }
}

/// The direction of a neighbouring pixel's ray after perfect refraction:
/// `wi + eta * dwo - (dn * mu + ns * dmu)`, where
/// `mu = eta * (w . ns) - wi . ns` with `w = -wo`, and
/// `dmu = (eta - eta^2 * (w . ns) / (wi . ns)) * ddn`.
pub open spec fn transmitted_direction(
    wi: Vector3f,
    wo: Vector3f,
    ns: Normal3f,
    eta: Float,
    dwo: Vector3f,
    dn: Normal3f,
) -> Vector3f {
    let w = wo.negated();
    let ddn = dwo.dot_normal(ns).sum(wo.dot_normal(dn));
    let mu = eta.product(w.dot_normal(ns)).difference(wi.dot_normal(ns));
    let dmu = eta.difference(
        eta.product(eta).product(w.dot_normal(ns)).quotient(wi.dot_normal(ns)),
    ).product(ddn);
    wi.plus(dwo.scaled(eta)).minus(Vector3f::of_normal(dn.scaled(mu).plus(ns.scaled(dmu))))
}

/// The differential of the ray that leaves `isect` by perfect refraction
/// into `wi`, for an incoming ray with the differential `d` and a surface of
/// relative index `eta`.
pub open spec fn transmitted_differential<B>(
    isect: SurfaceInteraction<B>,
    d: RayDifferential,
    wi: Vector3f,
    eta: Float,
) -> RayDifferential {
    let wo = isect.wo;
    let ns = isect.shading.n;
    let across = oriented_eta(eta, wo, ns);
    RayDifferential {
        rx_origin: isect.p.moved(isect.dpdx),
        ry_origin: isect.p.moved(isect.dpdy),
        rx_direction: transmitted_direction(
            wi,
            wo,
            ns,
            across,
            outgoing_change(d.rx_direction, wo),
            normal_change(isect, isect.dudx, isect.dvdx),
        ),
        ry_direction: transmitted_direction(
            wi,
            wo,
            ns,
            across,
            outgoing_change(d.ry_direction, wo),
            normal_change(isect, isect.dudy, isect.dvdy),
        ),
    }
}

/// Whether a drawn direction carries light: its density is positive, the
/// scattering functions are not black for it, and it does not graze the
/// surface. A NaN in the density fails the test; one in a coefficient or in
/// the cosine passes it.
pub open spec fn carries_light(sample: BsdfSample, ns: Normal3f) -> bool {
    &&& Float { bits: 0 }@.lt(sample.pdf@)
    &&& !(sample.f@[0].is_zero() && sample.f@[1].is_zero() && sample.f@[2].is_zero())
    &&& !sample.wi.dot_normal(ns).absolute()@.same(Float { bits: 0 }@)
}

/// The radiance that comes back along a drawn direction, weighted:
/// `f * li * (|wi . ns| / pdf)`.
pub open spec fn weighted(sample: BsdfSample, ns: Normal3f, li: Seq<Float>) -> Seq<Float> {
    product3(
        product3(sample.f.c@, li),
        uniform3(sample.wi.dot_normal(ns).absolute().quotient(sample.pdf)),
    )
}

/// The sum of what the first `upto` lights send along a ray that leaves the
/// scene, added up from black in the order of the lights.
pub open spec fn escaped_sum<S: Scene>(scene: &S, ray: Ray, upto: int) -> Seq<Float>
    decreases upto,
{
    if upto <= 0 {
        black()
    } else {
        sum3(escaped_sum(scene, ray, upto - 1), scene.escaped(upto - 1, ray).c@)
    }
}

/// The sample counts of the first `upto` lights, each rounded as the sampler
/// prefers.
pub open spec fn rounded_counts<S: Scene, P: Sampler>(scene: &S, sampler: P, upto: int) -> Seq<i32> {
    Seq::new(upto as nat, |j: int| sampler.rounded_count(scene.samples_of(j)))
}

/// The sampler after two arrays have been reserved for each of the first
/// `upto` lights, of the size kept for the light in `counts`.
pub open spec fn requested_once<P: Sampler>(sampler: P, counts: Seq<i32>, upto: int) -> P
    decreases upto,
{
    if upto <= 0 {
        sampler
    } else {
        requested_once(sampler, counts, upto - 1).after_request(counts[upto - 1]).after_request(
            counts[upto - 1],
        )
    }
}

/// The sampler after `rounds` rounds of reserving two arrays for each of
/// `lights` lights.
pub open spec fn requested<P: Sampler>(sampler: P, counts: Seq<i32>, lights: int, rounds: int) -> P
    decreases rounds,
{
    if rounds <= 0 {
        sampler
    } else {
        requested_once(requested(sampler, counts, lights, rounds - 1), counts, lights)
    }
}

/// Whether `after` and `later` are what preprocessing makes of the
/// integrator `before` and the sampler `sampler`.
///
/// With the strategy that samples every light, the integrator gets a sample
/// count for each light behind those that it has, rounded as the sampler
/// prefers, and the sampler has reserved, for each level of depth, two arrays
/// for each light, of the size kept at the light's place. With the other
/// strategy nothing changes.
pub open spec fn preprocessed<S: Scene, P: Sampler>(
    before: DirectLightingIntegrator,
    after: DirectLightingIntegrator,
    scene: &S,
    sampler: P,
    later: P,
) -> bool {
    &&& after.strategy == before.strategy
    &&& after.max_depth == before.max_depth
    &&& after.pixel_bounds == before.pixel_bounds
    &&& before.strategy == LightStrategy::UniformSampleOne ==> {
        &&& after.n_light_samples@ == before.n_light_samples@
        &&& later == sampler
    }
    &&& before.strategy == LightStrategy::UniformSampleAll ==> {
        &&& after.n_light_samples@ == before.n_light_samples@ + rounded_counts(
            scene,
            sampler,
            scene.light_total() as int,
        )
        &&& later == requested(
            sampler,
            after.n_light_samples@,
            scene.light_total() as int,
            before.max_depth as int,
        )
    }
}

/// The differential of a perfectly reflected ray.
pub fn reflect_differential<B>(isect: &SurfaceInteraction<B>, d: &RayDifferential, wi: &Vector3f)
    -> (r: RayDifferential)
    ensures
        r == reflected_differential(*isect, *d, *wi),
{
    let wo: Vector3f = isect.wo;
    let ns: Normal3f = isect.shading.n;
    let two: Float = Float { bits: TWO_BITS };
    let dndx: Normal3f = isect.shading.dndu.mul(isect.dudx).add(isect.shading.dndv.mul(isect.dvdx));
    let dndy: Normal3f = isect.shading.dndu.mul(isect.dudy).add(isect.shading.dndv.mul(isect.dvdy));
    let dwodx: Vector3f = d.rx_direction.neg().sub(wo);
    let dwody: Vector3f = d.ry_direction.neg().sub(wo);
    let ddndx: Float = vec3_dot_nrm(&dwodx, &ns).add(vec3_dot_nrm(&wo, &dndx));
    let ddndy: Float = vec3_dot_nrm(&dwody, &ns).add(vec3_dot_nrm(&wo, &dndy));
    RayDifferential {
        rx_origin: isect.p.add_vector(isect.dpdx),
        ry_origin: isect.p.add_vector(isect.dpdy),
        rx_direction: wi.sub(dwodx).add(
            Vector3f::from(dndx.mul(vec3_dot_nrm(&wo, &ns)).add(ns.mul(ddndx))).mul(two),
        ),
        ry_direction: wi.sub(dwody).add(
            Vector3f::from(dndy.mul(vec3_dot_nrm(&wo, &ns)).add(ns.mul(ddndy))).mul(two),
        ),
    }
}

/// The differential of a perfectly refracted ray, for a surface of relative
/// index `eta`.
pub fn transmit_differential<B>(
    isect: &SurfaceInteraction<B>,
    d: &RayDifferential,
    wi: &Vector3f,
    eta: Float,
) -> (r: RayDifferential)
    ensures
        r == transmitted_differential(*isect, *d, *wi, eta),
{
    let wo: Vector3f = isect.wo;
    let ns: Normal3f = isect.shading.n;
    let mut eta: Float = eta;
    let w: Vector3f = wo.neg();
    if vec3_dot_nrm(&wo, &ns).lt(Float { bits: 0 }) {
        eta = Float { bits: ONE_BITS }.div(eta);
    }
    let dndx: Normal3f = isect.shading.dndu.mul(isect.dudx).add(isect.shading.dndv.mul(isect.dvdx));
    let dndy: Normal3f = isect.shading.dndu.mul(isect.dudy).add(isect.shading.dndv.mul(isect.dvdy));
    let dwodx: Vector3f = d.rx_direction.neg().sub(wo);
    let dwody: Vector3f = d.ry_direction.neg().sub(wo);
    let ddndx: Float = vec3_dot_nrm(&dwodx, &ns).add(vec3_dot_nrm(&wo, &dndx));
    let ddndy: Float = vec3_dot_nrm(&dwody, &ns).add(vec3_dot_nrm(&wo, &dndy));
    let mu: Float = eta.mul(vec3_dot_nrm(&w, &ns)).sub(vec3_dot_nrm(wi, &ns));
    let dmudx: Float = eta.sub(
        eta.mul(eta).mul(vec3_dot_nrm(&w, &ns)).div(vec3_dot_nrm(wi, &ns)),
    ).mul(ddndx);
    let dmudy: Float = eta.sub(
        eta.mul(eta).mul(vec3_dot_nrm(&w, &ns)).div(vec3_dot_nrm(wi, &ns)),
    ).mul(ddndy);
    RayDifferential {
        rx_origin: isect.p.add_vector(isect.dpdx),
        ry_origin: isect.p.add_vector(isect.dpdy),
        rx_direction: wi.add(dwodx.mul(eta)).sub(Vector3f::from(dndx.mul(mu).add(ns.mul(dmudx)))),
        ry_direction: wi.add(dwody.mul(eta)).sub(Vector3f::from(dndy.mul(mu).add(ns.mul(dmudy)))),
    }
}

/// Whether a drawn direction carries light.
pub fn sample_carries_light(sample: &BsdfSample, ns: &Normal3f) -> (r: bool)
    ensures
        r == carries_light(*sample, *ns),
{
    sample.pdf.gt(Float { bits: 0 }) && !sample.f.is_black() && vec3_abs_dot_nrm(
        &sample.wi,
        ns,
    ).ne(Float { bits: 0 })
}

/// The radiance `li` that comes back along a drawn direction, weighted by
/// the scattering functions, the cosine and the density.
pub fn weigh(sample: &BsdfSample, ns: &Normal3f, li: RGBSpectrum) -> (r: RGBSpectrum)
    ensures
        r.c@ == weighted(*sample, *ns, li.c@),
{
    sample.f.mul(li).mul(RGBSpectrum::new(vec3_abs_dot_nrm(&sample.wi, ns).div(sample.pdf)))
}

impl DirectLightingIntegrator {
    /// How many levels of reflection and refraction are left at `depth`.
    pub open spec fn budget(&self, depth: int) -> nat {
        if self.max_depth > depth {
            (self.max_depth - depth) as nat
        } else {
            0
        }
    }

    /// The radiance along `ray` at the depth `depth`, and the sampler as the
    /// estimate leaves it.
    ///
    /// Where the ray meets a surface: what the surface emits towards the ray,
    /// then, if there are lights, the direct light by the integrator's
    /// strategy, then, while `depth + 1` lies below the maximal depth, the
    /// perfectly reflected and the perfectly refracted light. Where the ray
    /// meets nothing: what the lights send along a ray that leaves the scene.
    pub open spec fn radiance<S: Scene, P: Sampler>(
        &self,
        scene: &S,
        ray: Ray,
        sampler: P,
        depth: int,
    ) -> (Seq<Float>, P)
        decreases 2 * self.budget(depth),
    {
        match scene.hit(ray) {
            Some(found) => {
                let isect = scene.shaded(found, ray);
                let emitted = sum3(black(), scene.emitted(isect, isect.wo).c@);
                let (lit, s1) = if scene.light_total() > 0 {
                    let (direct, s) = match self.strategy {
                        LightStrategy::UniformSampleAll => all_lights(
                            scene,
                            isect,
                            sampler,
                            self.n_light_samples@,
                            scene.light_total() as int,
                        ),
                        LightStrategy::UniformSampleOne => one_light(scene, isect, sampler),
                    };
                    (sum3(emitted, direct), s)
                } else {
                    (emitted, sampler)
                };
                if depth + 1 < self.max_depth {
                    let (r, s2) = self.reflected(scene, ray, isect, s1, depth);
                    let (t, s3) = self.transmitted(scene, ray, isect, s2, depth);
                    (sum3(sum3(lit, r), t), s3)
                } else {
                    (lit, s1)
                }
            },
            None => (escaped_sum(scene, ray, scene.light_total() as int), sampler),
        }
    }

    /// The perfectly reflected light at `isect`, and the sampler as the
    /// estimate leaves it: black for a surface without scattering functions
    /// or a drawn direction that carries no light, and else the weighted
    /// radiance along the reflected ray, one level deeper.
    pub open spec fn reflected<S: Scene, P: Sampler>(
        &self,
        scene: &S,
        ray: Ray,
        isect: SurfaceInteraction<S::Scattering>,
        sampler: P,
        depth: int,
    ) -> (Seq<Float>, P)
        decreases 2 * self.budget(depth + 1) + 1,
    {
        match isect.bsdf {
            Some(bsdf) => {
                let sample = bsdf.sampled(isect.wo, sampler.next_2d(), SPECULAR_REFLECTION);
                let s1 = sampler.after_2d();
                if carries_light(sample, isect.shading.n) {
                    let plain = scene.spawned(isect, sample.wi);
                    let rd = match ray.differential {
                        Some(d) => with_differential(
                            plain,
                            reflected_differential(isect, d, sample.wi),
                        ),
                        None => plain,
                    };
                    let (li, s2) = self.radiance(scene, rd, s1, depth + 1);
                    (weighted(sample, isect.shading.n, li), s2)
                } else {
                    (black(), s1)
                }
            },
            None => (black(), sampler),
        }
    }

    /// The perfectly refracted light at `isect`, and the sampler as the
    /// estimate leaves it.
    pub open spec fn transmitted<S: Scene, P: Sampler>(
        &self,
        scene: &S,
        ray: Ray,
        isect: SurfaceInteraction<S::Scattering>,
        sampler: P,
        depth: int,
    ) -> (Seq<Float>, P)
        decreases 2 * self.budget(depth + 1) + 1,
    {
        match isect.bsdf {
            Some(bsdf) => {
                let sample = bsdf.sampled(isect.wo, sampler.next_2d(), SPECULAR_TRANSMISSION);
                let s1 = sampler.after_2d();
                if carries_light(sample, isect.shading.n) {
                    let plain = scene.spawned(isect, sample.wi);
                    let rd = match ray.differential {
                        Some(d) => with_differential(
                            plain,
                            transmitted_differential(isect, d, sample.wi, bsdf.refraction()),
                        ),
                        None => plain,
                    };
                    let (li, s2) = self.radiance(scene, rd, s1, depth + 1);
                    (weighted(sample, isect.shading.n, li), s2)
                } else {
                    (black(), s1)
                }
            },
            None => (black(), sampler),
        }
    }

    pub fn new(strategy: LightStrategy, max_depth: i64, pixel_bounds: Bounds2i) -> (r: Self)
        ensures
            r.strategy == strategy,
            r.max_depth == max_depth,
            r.pixel_bounds == pixel_bounds,
            r.n_light_samples@.len() == 0,
    {
        DirectLightingIntegrator {
            pixel_bounds: pixel_bounds,
            strategy: strategy,
            max_depth: max_depth,
            n_light_samples: Vec::new(),
        }
    }

    pub fn get_pixel_bounds(&self) -> (r: Bounds2i)
        ensures
            r == self.pixel_bounds,
    {
        self.pixel_bounds
    }

    /// Estimates the light that comes by perfect reflection at `isect`.
    pub fn specular_reflect<S: Scene, P: Sampler>(
        &self,
        ray: &Ray,
        isect: &SurfaceInteraction<S::Scattering>,
        scene: &S,
        sampler: &mut P,
        depth: i32,
    ) -> (r: RGBSpectrum)
        requires
            depth < 0x7fff_ffff,
            self.max_depth <= 0x7fff_ffff,
            self.strategy == LightStrategy::UniformSampleAll ==> self.n_light_samples@.len()
                >= scene.light_total(),
        ensures
            (r.c@, *final(sampler)) == self.reflected(
                scene,
                *ray,
                *isect,
                *old(sampler),
                depth as int,
            ),
        decreases 2 * self.budget(depth + 1) + 1,
    {
        let wo: Vector3f = isect.wo;
        let ns: Normal3f = isect.shading.n;
        match &isect.bsdf {
            Some(bsdf) => {
                let u: Point2f = sampler.get_2d();
                let sample: BsdfSample = bsdf.sample_f(&wo, &u, SPECULAR_REFLECTION);
                if sample_carries_light(&sample, &ns) {
                    let mut rd: Ray = scene.spawn_ray(isect, &sample.wi);
                    match &ray.differential {
                        Some(d) => {
                            rd.differential = Some(reflect_differential(isect, d, &sample.wi));
                        },
                        None => {},
                    }
                    let li: RGBSpectrum = self.li(&rd, scene, sampler, depth + 1);
                    weigh(&sample, &ns, li)
                } else {
                    RGBSpectrum::new(Float { bits: 0 })
                }
            },
            None => RGBSpectrum::new(Float { bits: 0 }),
        }
    }

    /// Estimates the light that comes by perfect refraction at `isect`.
    pub fn specular_transmit<S: Scene, P: Sampler>(
        &self,
        ray: &Ray,
        isect: &SurfaceInteraction<S::Scattering>,
        scene: &S,
        sampler: &mut P,
        depth: i32,
    ) -> (r: RGBSpectrum)
        requires
            depth < 0x7fff_ffff,
            self.max_depth <= 0x7fff_ffff,
            self.strategy == LightStrategy::UniformSampleAll ==> self.n_light_samples@.len()
                >= scene.light_total(),
        ensures
            (r.c@, *final(sampler)) == self.transmitted(
                scene,
                *ray,
                *isect,
                *old(sampler),
                depth as int,
            ),
        decreases 2 * self.budget(depth + 1) + 1,
    {
        let wo: Vector3f = isect.wo;
        let ns: Normal3f = isect.shading.n;
        match &isect.bsdf {
            Some(bsdf) => {
                let u: Point2f = sampler.get_2d();
                let sample: BsdfSample = bsdf.sample_f(&wo, &u, SPECULAR_TRANSMISSION);
                if sample_carries_light(&sample, &ns) {
                    let mut rd: Ray = scene.spawn_ray(isect, &sample.wi);
                    match &ray.differential {
                        Some(d) => {
                            rd.differential = Some(
                                transmit_differential(isect, d, &sample.wi, bsdf.eta()),
                            );
                        },
                        None => {},
                    }
                    let li: RGBSpectrum = self.li(&rd, scene, sampler, depth + 1);
                    weigh(&sample, &ns, li)
                } else {
                    RGBSpectrum::new(Float { bits: 0 })
                }
            },
            None => RGBSpectrum::new(Float { bits: 0 }),
        }
    }

    /// Estimates the radiance that arrives along `ray`.
    pub fn li<S: Scene, P: Sampler>(&self, ray: &Ray, scene: &S, sampler: &mut P, depth: i32) -> (l:
        RGBSpectrum)
        requires
            self.max_depth <= 0x7fff_ffff,
            self.strategy == LightStrategy::UniformSampleAll ==> self.n_light_samples@.len()
                >= scene.light_total(),
        ensures
            (l.c@, *final(sampler)) == self.radiance(scene, *ray, *old(sampler), depth as int),
        decreases 2 * self.budget(depth as int),
    {
        let mut l: RGBSpectrum = RGBSpectrum::new(Float { bits: 0 });
        match scene.intersect(ray) {
            Some(found) => {
                let isect: SurfaceInteraction<S::Scattering> = scene.compute_scattering_functions(
                    found,
                    ray,
                );
                let wo: Vector3f = isect.wo;
                l = l.add(scene.le(&isect, &wo));
                if scene.light_count() > 0 {
                    match self.strategy {
                        LightStrategy::UniformSampleAll => {
                            l = l.add(
                                uniform_sample_all_lights(
                                    &isect,
                                    scene,
                                    sampler,
                                    &self.n_light_samples,
                                ),
                            );
                        },
                        LightStrategy::UniformSampleOne => {
                            l = l.add(uniform_sample_one_light(&isect, scene, sampler));
                        },
                    }
                }
                if (depth as i64) + 1 < self.max_depth {
                    l = l.add(self.specular_reflect(ray, &isect, scene, sampler, depth));
                    l = l.add(self.specular_transmit(ray, &isect, scene, sampler, depth));
                }
            },
            None => {
                let lights: usize = scene.light_count();
                let mut j: usize = 0;
                while j < lights
                    invariant
                        j <= lights == scene.light_total(),
                        l.c@ == escaped_sum(scene, *ray, j as int),
                    decreases lights - j,
                {
                    l = l.add(scene.light_le(j, ray));
                    j = j + 1;
                }
            },
        }
        l
    }

    /// Fixes the number of samples for each light and reserves the sample
    /// arrays that sampling every light will take: two for each light, for
    /// each level of depth. With the other strategy nothing is done.
    pub fn preprocess<S: Scene, P: Sampler>(&mut self, scene: &S, sampler: &mut P)
        ensures
            preprocessed(*old(self), *final(self), scene, *old(sampler), *final(sampler)),
    {
        match self.strategy {
            LightStrategy::UniformSampleAll => {
                let lights: usize = scene.light_count();
                let mut i: usize = 0;
                while i < lights
                    invariant
                        i <= lights == scene.light_total(),
                        *sampler == *old(sampler),
                        self.strategy == old(self).strategy,
                        self.max_depth == old(self).max_depth,
                        self.pixel_bounds == old(self).pixel_bounds,
                        self.n_light_samples@ == old(self).n_light_samples@ + rounded_counts(
                            scene,
                            *old(sampler),
                            i as int,
                        ),
                    decreases lights - i,
                {
                    let count: i32 = sampler.round_count(scene.light_n_samples(i));
                    self.n_light_samples.push(count);
                    assert(self.n_light_samples@ =~= old(self).n_light_samples@ + rounded_counts(
                        scene,
                        *old(sampler),
                        i + 1,
                    ));
                    i = i + 1;
                }
                let mut round: i64 = 0;
                while round < self.max_depth
                    invariant
                        0 <= round,
                        round <= self.max_depth || round == 0,
                        lights == scene.light_total(),
                        self.n_light_samples@.len() >= lights,
                        self.strategy == old(self).strategy,
                        self.max_depth == old(self).max_depth,
                        self.pixel_bounds == old(self).pixel_bounds,
                        self.n_light_samples@ == old(self).n_light_samples@ + rounded_counts(
                            scene,
                            *old(sampler),
                            lights as int,
                        ),
                        *sampler == requested(
                            *old(sampler),
                            self.n_light_samples@,
                            lights as int,
                            round as int,
                        ),
                    decreases self.max_depth - round,
                {
                    let ghost before = *sampler;
                    let mut j: usize = 0;
                    while j < lights
                        invariant
                            j <= lights,
                            self.n_light_samples@.len() >= lights,
                            *sampler == requested_once(before, self.n_light_samples@, j as int),
                        decreases lights - j,
                    {
                        sampler.request_2d_array(self.n_light_samples[j]);
                        sampler.request_2d_array(self.n_light_samples[j]);
                        j = j + 1;
                    }
                    round = round + 1;
                }
            },
            LightStrategy::UniformSampleOne => {},
        }
    }
}

/// A ray that meets nothing collects what the lights send after it, at any
/// depth, and draws nothing from the sampler: in a scene without surfaces
/// every ray does. Without lights it collects nothing.
pub proof fn lemma_radiance_of_a_miss<S: Scene, P: Sampler>(
    integrator: &DirectLightingIntegrator,
    scene: &S,
    ray: Ray,
    sampler: P,
    depth: int,
)
    requires
        scene.hit(ray) is None,
    ensures
        integrator.radiance(scene, ray, sampler, depth) == (
            escaped_sum(scene, ray, scene.light_total() as int),
            sampler,
        ),
        scene.light_total() == 0 ==> integrator.radiance(scene, ray, sampler, depth).0 == black(),
{
}

} // verus!
