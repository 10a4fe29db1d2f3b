//! The path integrator: the radiance along a ray is gathered along a path
//! that is drawn bounce by bounce through the scene. At each surface point
//! one light is sampled, and the path goes on in a direction drawn from the
//! scattering functions; after some bounces a path that carries little is
//! ended at random, and one that survives is weighed up to make good for
//! those that do not.

use vstd::prelude::*;
use crate::float::Float;
use crate::convert::nearest_to;
use crate::geometry::{Bounds2i, Normal3f, Point2f, Ray, Vector3f, vec3_abs_dot_nrm, vec3_dot_nrm};
use crate::integrator::{Bsdf, BsdfSample, LightPick, LightSampleStrategy, Sampler, Scene,
    SurfaceInteraction, black, has_lobe, holds_lobe, picked_light, BSDF_ALL, BSDF_NON_SPECULAR,
    BSDF_SPECULAR, BSDF_TRANSMISSION};
use crate::pbrt::ONE_BITS;
use crate::spectrum::{RGBSpectrum, product3, quotient3, sum3, uniform3};

verus! {

/// The encoding of 0.05, the least chance with which a path is ended.
pub const LEAST_END_CHANCE_BITS: u32 = 0x3d4c_cccd;

/// Multi-bounce path tracing.
pub struct PathIntegrator {
    pub pixel_bounds: Bounds2i,
    /// The number of bounces after which a path ends.
    pub max_depth: u32,
    /// The throughput below which a path may be ended at random.
    pub rr_threshold: Float,
    /// The number of bounces up to which no path is ended at random.
    pub rr_depth: u32,
    /// How the light to sample is picked.
    pub light_strategy: LightSampleStrategy,
}

/// The light that a strategy picks, and the chance of the pick: the library's
/// own pick where every light is as likely as another, and the scene's pick
/// else.
pub open spec fn light_picked<S: Scene>(
    scene: &S,
    strategy: LightSampleStrategy,
    isect: SurfaceInteraction<S::Scattering>,
    u: Float,
) -> LightPick {
    match strategy {
        LightSampleStrategy::Uniform => LightPick {
            light: picked_light(u, scene.light_total()) as usize,
            pdf: Float { bits: ONE_BITS }.quotient(Float::of(nearest_to(scene.light_total()))),
        },
        _ => scene.picked(strategy, isect.p, u),
    }
}

/// The estimate of the direct light from one light picked by `strategy`,
/// divided by the chance of the pick, and the sampler as the estimate leaves
/// it. Without lights it is black and the sampler is not touched; where the
/// chance of the pick is zero it is black and one number has been drawn.
pub open spec fn one_picked_light<S: Scene, P: Sampler>(
    scene: &S,
    strategy: LightSampleStrategy,
    isect: SurfaceInteraction<S::Scattering>,
    sampler: P,
) -> (Seq<Float>, P) {
    if scene.light_total() == 0 {
        (black(), sampler)
    } else {
        let pick = light_picked(scene, strategy, isect, sampler.next_1d());
        let s1 = sampler.after_1d();
        if pick.pdf@.same((Float { bits: 0 })@) {
            (black(), s1)
        } else {
            let ul = s1.next_2d();
            let s2 = s1.after_2d();
            let us = s2.next_2d();
            let s3 = s2.after_2d();
            (quotient3(scene.direct(isect, us, pick.light as int, ul).c@, uniform3(pick.pdf)), s3)
        }
    }
}

/// The radiance `l` with what the first `upto` lights send along a ray that
/// leaves the scene, each weighed by `beta`, added in the order of the
/// lights.
pub open spec fn escaped_weighted<S: Scene>(
    scene: &S,
    ray: Ray,
    beta: Seq<Float>,
    l: Seq<Float>,
    upto: int,
) -> Seq<Float>
    decreases upto,
{
    if upto <= 0 {
        l
    } else {
        sum3(
            escaped_weighted(scene, ray, beta, l, upto - 1),
            product3(beta, scene.escaped(upto - 1, ray).c@),
        )
    }
}

/// The throughput after a bounce: `beta * (f * |wi . ns| / pdf)`.
pub open spec fn carried(beta: Seq<Float>, sample: BsdfSample, ns: Normal3f) -> Seq<Float> {
    product3(
        beta,
        quotient3(
            product3(sample.f.c@, uniform3(sample.wi.dot_normal(ns).absolute())),
            uniform3(sample.pdf),
        ),
    )
}

/// The scale of the throughput by refraction after a bounce: where the path
/// is refracted perfectly it is multiplied by the square of the relative
/// index, or by its reciprocal where the path leaves the denser side.
pub open spec fn refracted_scale(
    eta_scale: Float,
    lobes: u8,
    eta: Float,
    wo: Vector3f,
    n: Normal3f,
) -> Float {
    if holds_lobe(lobes, BSDF_SPECULAR) && holds_lobe(lobes, BSDF_TRANSMISSION) {
        if (Float { bits: 0 })@.lt(wo.dot_normal(n)@) {
            eta_scale.product(eta.product(eta))
        } else {
            eta_scale.product(Float { bits: ONE_BITS }.quotient(eta.product(eta)))
        }
    } else {
        eta_scale
    }
}

/// The largest of three coefficients.
pub open spec fn largest(c: Seq<Float>) -> Float {
    c[0].larger(c[1]).larger(c[2])
}

/// The chance with which a path of the throughput `most` is ended: one less
/// the throughput, and at least 0.05.
pub open spec fn end_chance(most: Float) -> Float {
    Float { bits: LEAST_END_CHANCE_BITS }.larger(Float { bits: ONE_BITS }.difference(most))
}

impl PathIntegrator {
    /// The radiance gathered along a path from its state after `bounces`
    /// bounces on, and the sampler as the path leaves it.
    ///
    /// `l` is what has been gathered, `beta` the throughput, `ray` the ray
    /// that the path follows next, `specular_bounce` whether the last bounce
    /// was a perfect reflection or refraction, `eta_scale` the scale of the
    /// throughput by refraction.
    ///
    /// What the ray meets emits into the path at the first bounce and after a
    /// specular one (elsewhere the light sampling has counted it); a ray that
    /// meets nothing takes there what the lights send after it, and ends the
    /// path, as does the maximal depth. A surface without scattering
    /// functions is passed through. Else one light is sampled, unless the
    /// surface is all specular, and a direction is drawn; a black value or a
    /// zero density ends the path. Beyond `rr_depth` bounces a path whose
    /// throughput lies below `rr_threshold` is ended with the chance
    /// `end_chance`, and weighed up by what is left of it where it goes on.
    pub open spec fn traced<S: Scene, P: Sampler>(
        &self,
        scene: &S,
        l: Seq<Float>,
        beta: Seq<Float>,
        ray: Ray,
        specular_bounce: bool,
        eta_scale: Float,
        sampler: P,
        bounces: int,
    ) -> (Seq<Float>, P)
        decreases self.max_depth + 1 - bounces,
    {
        let l1 = if bounces == 0 || specular_bounce {
            match scene.hit(ray) {
                Some(found) => sum3(l, product3(beta, scene.emitted(found, ray.d.negated()).c@)),
                None => escaped_weighted(scene, ray, beta, l, scene.light_total() as int),
            }
        } else {
            l
        };
        match scene.hit(ray) {
            None => (l1, sampler),
            Some(found) => if bounces >= self.max_depth {
                (l1, sampler)
            } else {
                let isect = scene.shaded(found, ray);
                match isect.bsdf {
                    None => self.traced(
                        scene,
                        l1,
                        beta,
                        scene.spawned(isect, ray.d),
                        specular_bounce,
                        eta_scale,
                        sampler,
                        bounces + 1,
                    ),
                    Some(bsdf) => {
                        let (l2, s1) = if bsdf.lobes(BSDF_NON_SPECULAR) > 0 {
                            let (ld, s) = one_picked_light(scene, self.light_strategy, isect, sampler);
                            (sum3(l1, product3(beta, ld)), s)
                        } else {
                            (l1, sampler)
                        };
                        let wo = ray.d.negated();
                        let sample = bsdf.sampled(wo, s1.next_2d(), BSDF_ALL);
                        let s2 = s1.after_2d();
                        if (sample.f@[0].is_zero() && sample.f@[1].is_zero() && sample.f@[2].is_zero())
                            || sample.pdf@.same((Float { bits: 0 })@) {
                            (l2, s2)
                        } else {
                            let beta1 = carried(beta, sample, isect.shading.n);
                            let specular = holds_lobe(sample.sampled_type, BSDF_SPECULAR);
                            let scale = refracted_scale(
                                eta_scale,
                                sample.sampled_type,
                                bsdf.refraction(),
                                wo,
                                isect.n,
                            );
                            let ray1 = scene.spawned(isect, sample.wi);
                            let most = largest(product3(beta1, uniform3(scale)));
                            if most@.lt(self.rr_threshold@) && bounces > self.rr_depth {
                                let q = end_chance(most);
                                let s3 = s2.after_1d();
                                if s2.next_1d()@.lt(q@) {
                                    (l2, s3)
                                } else {
                                    self.traced(
                                        scene,
                                        l2,
                                        quotient3(
                                            beta1,
                                            uniform3(Float { bits: ONE_BITS }.difference(q)),
                                        ),
                                        ray1,
                                        specular,
                                        scale,
                                        s3,
                                        bounces + 1,
                                    )
                                }
                            } else {
                                self.traced(scene, l2, beta1, ray1, specular, scale, s2, bounces + 1)
                            }
                        }
                    },
                }
            },
        }
    }

    /// The radiance along a camera ray, and the sampler as the estimate
    /// leaves it: a path that starts with nothing gathered and a throughput
    /// of one.
    pub open spec fn radiance<S: Scene, P: Sampler>(&self, scene: &S, ray: Ray, sampler: P) -> (
        Seq<Float>,
        P,
    ) {
        self.traced(
            scene,
            black(),
            uniform3(Float { bits: ONE_BITS }),
            ray,
            false,
            Float { bits: ONE_BITS },
            sampler,
            0,
        )
    }

    pub fn new(
        max_depth: u32,
        pixel_bounds: Bounds2i,
        rr_threshold: Float,
        rr_depth: u32,
        light_strategy: LightSampleStrategy,
    ) -> (r: PathIntegrator)
        ensures
            r.max_depth == max_depth,
            r.pixel_bounds == pixel_bounds,
            r.rr_threshold == rr_threshold,
            r.rr_depth == rr_depth,
            r.light_strategy == light_strategy,
    {
        PathIntegrator { pixel_bounds, max_depth, rr_threshold, rr_depth, light_strategy }
    }

    pub fn get_pixel_bounds(&self) -> (r: Bounds2i)
        ensures
            r == self.pixel_bounds,
    {
        self.pixel_bounds
    }

    /// Estimates the radiance that arrives along `ray`.
    pub fn li<S: Scene, P: Sampler>(&self, ray: &Ray, scene: &S, sampler: &mut P) -> (r: RGBSpectrum)
        ensures
            (r.c@, *final(sampler)) == self.radiance(scene, *ray, *old(sampler)),
    {
        let one: Float = Float { bits: ONE_BITS };
        let mut l: RGBSpectrum = RGBSpectrum::new(Float { bits: 0 });
        let mut beta: RGBSpectrum = RGBSpectrum::new(one);
        let mut ray: Ray = *ray;
        let mut specular_bounce: bool = false;
        let mut eta_scale: Float = one;
        let mut bounces: u32 = 0;
        let ghost goal = self.radiance(scene, ray, *old(sampler));
        loop
            invariant_except_break
                self.traced(
                    scene,
                    l.c@,
                    beta.c@,
                    ray,
                    specular_bounce,
                    eta_scale,
                    *sampler,
                    bounces as int,
                ) == goal,
            invariant
                bounces <= self.max_depth,
            ensures
                (l.c@, *sampler) == goal,
            decreases self.max_depth - bounces,
        {
            match self.bounce(scene, sampler, &mut l, &mut beta, &mut ray, &mut specular_bounce, &mut eta_scale, bounces) {
                true => {
                    bounces = bounces + 1;
                },
                false => {
                    break ;
                },
            }
        }
        l
    }

    /// Takes a path one bounce further, and says whether it goes on.
    fn bounce<S: Scene, P: Sampler>(
        &self,
        scene: &S,
        sampler: &mut P,
        l: &mut RGBSpectrum,
        beta: &mut RGBSpectrum,
        ray: &mut Ray,
        specular_bounce: &mut bool,
        eta_scale: &mut Float,
        bounces: u32,
    ) -> (goes_on: bool)
        requires
            bounces <= self.max_depth,
        ensures
            goes_on ==> bounces < self.max_depth && self.traced(
                scene,
                final(l).c@,
                final(beta).c@,
                *final(ray),
                *final(specular_bounce),
                *final(eta_scale),
                *final(sampler),
                bounces + 1,
            ) == self.traced(
                scene,
                old(l).c@,
                old(beta).c@,
                *old(ray),
                *old(specular_bounce),
                *old(eta_scale),
                *old(sampler),
                bounces as int,
            ),
            !goes_on ==> (final(l).c@, *final(sampler)) == self.traced(
                scene,
                old(l).c@,
                old(beta).c@,
                *old(ray),
                *old(specular_bounce),
                *old(eta_scale),
                *old(sampler),
                bounces as int,
            ),
    {
        let one: Float = Float { bits: ONE_BITS };
        let zero: Float = Float { bits: 0 };
        let hit: Option<SurfaceInteraction<S::Scattering>> = scene.intersect(ray);
        let found: SurfaceInteraction<S::Scattering> = match hit {
            Some(found) => {
                if bounces == 0 || *specular_bounce {
                    let w: Vector3f = ray.d.neg();
                    *l = l.add(beta.mul(scene.le(&found, &w)));
                }
                found
            },
            None => {
                if bounces == 0 || *specular_bounce {
                    let lights: usize = scene.light_count();
                    let mut j: usize = 0;
                    while j < lights
                        invariant
                            j <= lights == scene.light_total(),
                            l.c@ == escaped_weighted(scene, *ray, beta.c@, old(l).c@, j as int),
                        decreases lights - j,
                    {
                        *l = l.add(beta.mul(scene.light_le(j, ray)));
                        j = j + 1;
                    }
                }
                return false;
            },
        };
        if bounces >= self.max_depth {
            return false;
        }
        let isect: SurfaceInteraction<S::Scattering> = scene.compute_scattering_functions(found, ray);
        match &isect.bsdf {
            None => {
                let d: Vector3f = ray.d;
                *ray = scene.spawn_ray(&isect, &d);
                true
            },
            Some(bsdf) => {
                if bsdf.num_components(BSDF_NON_SPECULAR) > 0 {
                    let ld: RGBSpectrum = sample_one_light(&isect, scene, sampler, self.light_strategy);
                    *l = l.add(beta.mul(ld));
                }
                let wo: Vector3f = ray.d.neg();
                let u: Point2f = sampler.get_2d();
                let sample: BsdfSample = bsdf.sample_f(&wo, &u, BSDF_ALL);
                if sample.f.is_black() || sample.pdf.eq(zero) {
                    return false;
                }
                let cosine: Float = vec3_abs_dot_nrm(&sample.wi, &isect.shading.n);
                *beta = beta.mul(
                    sample.f.mul(RGBSpectrum::new(cosine)).div(RGBSpectrum::new(sample.pdf)),
                );
                *specular_bounce = has_lobe(sample.sampled_type, BSDF_SPECULAR);
                if *specular_bounce && has_lobe(sample.sampled_type, BSDF_TRANSMISSION) {
                    let eta: Float = bsdf.eta();
                    if vec3_dot_nrm(&wo, &isect.n).gt(zero) {
                        *eta_scale = eta_scale.mul(eta.mul(eta));
                    } else {
                        *eta_scale = eta_scale.mul(one.div(eta.mul(eta)));
                    }
                }
                *ray = scene.spawn_ray(&isect, &sample.wi);
                let most: Float = beta.mul(RGBSpectrum::new(*eta_scale)).max_component_value();
                if most.lt(self.rr_threshold) && bounces > self.rr_depth {
                    let q: Float = Float { bits: LEAST_END_CHANCE_BITS }.max(one.sub(most));
                    if sampler.get_1d().lt(q) {
                        return false;
                    }
                    *beta = beta.div(RGBSpectrum::new(one.sub(q)));
                }
                true
            },
        }
    }
}

/// Estimates the direct light at `isect` from one light, picked by
/// `strategy`.
pub fn sample_one_light<S: Scene, P: Sampler>(
    isect: &SurfaceInteraction<S::Scattering>,
    scene: &S,
    sampler: &mut P,
    strategy: LightSampleStrategy,
) -> (l: RGBSpectrum)
    ensures
        (l.c@, *final(sampler)) == one_picked_light(scene, strategy, *isect, *old(sampler)),
{
    let n_lights: usize = scene.light_count();
    if n_lights == 0 {
        return RGBSpectrum::new(Float { bits: 0 });
    }
    let u: Float = sampler.get_1d();
    let pick: LightPick = match strategy {
        LightSampleStrategy::Uniform => {
            let count: Float = Float::from_u64(n_lights as u64);
            let scaled: u64 = u.mul(count).to_u64();
            LightPick {
                light: if scaled >= n_lights as u64 {
                    n_lights - 1
                } else {
                    scaled as usize
                },
                pdf: Float { bits: ONE_BITS }.div(count),
            }
        },
        _ => scene.pick_light(strategy, &isect.p, u),
    };
    if pick.pdf.eq(Float { bits: 0 }) {
        return RGBSpectrum::new(Float { bits: 0 });
    }
    let u_light: Point2f = sampler.get_2d();
    let u_scattering: Point2f = sampler.get_2d();
    scene.estimate_direct(isect, &u_scattering, pick.light, &u_light).div(
        RGBSpectrum::new(pick.pdf),
    )
}

} // verus!
