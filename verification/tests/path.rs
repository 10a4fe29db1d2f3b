use rs_pbrt::directlighting::{DirectLightingIntegrator, LightStrategy};
use rs_pbrt::float::Float;
use rs_pbrt::geometry::{Bounds2i, Normal3f, Point2f, Point2i, Point3f, Ray, Vector3f};
use rs_pbrt::integrator::{
    has_lobe, uniform_sample_all_lights, uniform_sample_one_light, Bsdf, BsdfSample, LightPick,
    LightSampleStrategy, Lighting, Sampler, Scene, Shading, SurfaceInteraction, BSDF_ALL, BSDF_DIFFUSE,
    BSDF_GLOSSY, BSDF_NON_SPECULAR, BSDF_REFLECTION, BSDF_SPECULAR, BSDF_TRANSMISSION,
};
use rs_pbrt::path::{sample_one_light, PathIntegrator};
use rs_pbrt::spectrum::RGBSpectrum;
use std::cell::Cell;

fn num(x: f32) -> Float {
    Float::from_bits(x.to_bits())
}

fn plain(a: Float) -> f32 {
    f32::from_bits(a.to_bits())
}

fn grey(v: f32) -> RGBSpectrum {
    RGBSpectrum::new(num(v))
}

fn colour(s: &RGBSpectrum) -> [f32; 3] {
    [plain(s.c[0]), plain(s.c[1]), plain(s.c[2])]
}

fn bounds() -> Bounds2i {
    Bounds2i { p_min: Point2i { x: 0, y: 0 }, p_max: Point2i { x: 4, y: 4 } }
}

fn down() -> Ray {
    Ray {
        o: Point3f { x: num(0.0), y: num(0.0), z: num(3.0) },
        d: Vector3f { x: num(0.0), y: num(0.0), z: num(-1.0) },
        t_max: num(f32::INFINITY),
        time: num(0.0),
        differential: None,
    }
}

/// A surface that scatters half of the light straight back, by a lobe of
/// its kind.
#[derive(Clone, Copy)]
struct Half {
    lobe: u8,
    value: f32,
    pdf: f32,
}

impl Bsdf for Half {
    fn sample_f(&self, wo: &Vector3f, _u: &Point2f, _flags: u8) -> BsdfSample {
        BsdfSample { f: grey(self.value), wi: *wo, pdf: num(self.pdf), sampled_type: self.lobe }
    }

    fn eta(&self) -> Float {
        num(1.5)
    }

    fn num_components(&self, flags: u8) -> i32 {
        if flags & self.lobe & (BSDF_DIFFUSE | BSDF_GLOSSY | BSDF_SPECULAR) != 0 {
            1
        } else {
            0
        }
    }
}

/// A stream of the numbers that it is given, over and over.
struct Fixed {
    numbers: Vec<f32>,
    drawn: usize,
}

impl Fixed {
    fn next(&mut self) -> f32 {
        self.drawn += 1;
        self.numbers[(self.drawn - 1) % self.numbers.len()]
    }
}

impl Sampler for Fixed {
    fn get_1d(&mut self) -> Float {
        num(self.next())
    }

    fn get_2d(&mut self) -> Point2f {
        let x = self.next();
        let y = self.next();
        Point2f { x: num(x), y: num(y) }
    }

    fn round_count(&self, n: i32) -> i32 {
        n
    }

    fn request_2d_array(&mut self, _n: i32) {}

    fn get_2d_array(&mut self, n: i32) -> Vec<Point2f> {
        (0..n)
            .map(|_| {
                let x = self.next();
                let y = self.next();
                Point2f { x: num(x), y: num(y) }
            })
            .collect()
    }
}

/// Two plates that face each other, so that a path bounces between them for
/// ever, under lights of different strength.
struct Corridor {
    surface: Option<Half>,
    emission: f32,
    lights: Vec<f32>,
    open_after: usize,
    intersections: Cell<usize>,
}

impl Corridor {
    fn new(surface: Option<Half>, emission: f32, lights: Vec<f32>) -> Corridor {
        Corridor { surface, emission, lights, open_after: usize::MAX, intersections: Cell::new(0) }
    }
}

impl Lighting for Corridor {
    type Scattering = Half;

    fn pick_light(&self, strategy: LightSampleStrategy, _p: &Point3f, u: Float) -> LightPick {
        match strategy {
            // the last light has all the power
            LightSampleStrategy::Power => LightPick { light: self.lights.len() - 1, pdf: num(1.0) },
            // no light matters at this place
            _ => LightPick { light: 0, pdf: num(if plain(u) < 2.0 { 0.0 } else { 1.0 }) },
        }
    }

    fn light_count(&self) -> usize {
        self.lights.len()
    }

    fn light_n_samples(&self, _light: usize) -> i32 {
        4
    }

    fn light_le(&self, light: usize, _ray: &Ray) -> RGBSpectrum {
        grey(self.lights[light] / 8.0)
    }

    fn le(&self, _isect: &SurfaceInteraction<Half>, _w: &Vector3f) -> RGBSpectrum {
        grey(self.emission)
    }

    fn compute_scattering_functions(
        &self,
        isect: SurfaceInteraction<Half>,
        _ray: &Ray,
    ) -> SurfaceInteraction<Half> {
        SurfaceInteraction { bsdf: self.surface, ..isect }
    }

    fn spawn_ray(&self, isect: &SurfaceInteraction<Half>, wi: &Vector3f) -> Ray {
        Ray { o: isect.p, d: *wi, t_max: num(f32::INFINITY), time: num(0.0), differential: None }
    }

    fn estimate_direct(
        &self,
        _isect: &SurfaceInteraction<Half>,
        _u_scattering: &Point2f,
        light: usize,
        _u_light: &Point2f,
    ) -> RGBSpectrum {
        grey(self.lights[light])
    }

}


impl Scene for Corridor {

    fn intersect(&self, ray: &Ray) -> Option<SurfaceInteraction<Half>> {
        self.intersections.set(self.intersections.get() + 1);
        if self.intersections.get() > self.open_after {
            return None;
        }
        let up = Normal3f { x: num(0.0), y: num(0.0), z: num(1.0) };
        let flat = Normal3f { x: num(0.0), y: num(0.0), z: num(0.0) };
        let zero = Vector3f { x: num(0.0), y: num(0.0), z: num(0.0) };
        Some(SurfaceInteraction {
            p: ray.o,
            wo: ray.d.neg(),
            n: up,
            shading: Shading { n: up, dndu: flat, dndv: flat },
            dpdx: zero,
            dpdy: zero,
            dudx: num(0.0),
            dvdx: num(0.0),
            dudy: num(0.0),
            dvdy: num(0.0),
            bsdf: None,
        })
    }

}

fn path(max_depth: u32, rr_threshold: f32, strategy: LightSampleStrategy) -> PathIntegrator {
    PathIntegrator::new(max_depth, bounds(), num(rr_threshold), 3, strategy)
}

fn diffuse() -> Half {
    Half { lobe: BSDF_REFLECTION | BSDF_DIFFUSE, value: 0.5, pdf: 1.0 }
}

fn mirror() -> Half {
    Half { lobe: BSDF_REFLECTION | BSDF_SPECULAR, value: 0.5, pdf: 1.0 }
}

#[test]
fn lobes_are_told_apart() {
    assert!(has_lobe(BSDF_ALL, BSDF_SPECULAR));
    assert!(has_lobe(BSDF_REFLECTION | BSDF_SPECULAR, BSDF_REFLECTION));
    assert!(!has_lobe(BSDF_REFLECTION | BSDF_SPECULAR, BSDF_TRANSMISSION));
    assert!(!has_lobe(BSDF_NON_SPECULAR, BSDF_SPECULAR));
    assert!(has_lobe(BSDF_NON_SPECULAR, BSDF_GLOSSY));
    assert!(!has_lobe(0, BSDF_DIFFUSE));
    assert!(!has_lobe(BSDF_ALL, 0));
    assert_eq!(BSDF_ALL, BSDF_REFLECTION | BSDF_TRANSMISSION | BSDF_DIFFUSE | BSDF_GLOSSY | BSDF_SPECULAR);
    assert_eq!(BSDF_NON_SPECULAR, BSDF_ALL & !BSDF_SPECULAR);
}

#[test]
fn a_path_ends_at_the_maximal_depth() {
    for max_depth in [0u32, 1, 2, 5, 9] {
        let scene = Corridor::new(Some(diffuse()), 0.0, vec![1.0]);
        let mut sampler = Fixed { numbers: vec![0.5], drawn: 0 };
        // an endless threshold never ends a path at random
        path(max_depth, 0.0, LightSampleStrategy::Uniform).li(&down(), &scene, &mut sampler);
        assert_eq!(scene.intersections.get(), max_depth as usize + 1);
    }
}

#[test]
fn a_path_gathers_what_each_bounce_receives() {
    let scene = Corridor::new(Some(diffuse()), 0.25, vec![1.0]);
    let mut sampler = Fixed { numbers: vec![0.5], drawn: 0 };
    let l = path(3, 0.0, LightSampleStrategy::Uniform).li(&down(), &scene, &mut sampler);
    // emission counts at the first bounce only; each bounce receives 1 from
    // the light and passes half of what it carries on
    assert_eq!(colour(&l), [0.25 + 1.0 + 0.5 + 0.25; 3]);
}

#[test]
fn emission_counts_again_after_a_specular_bounce() {
    let scene = Corridor::new(Some(mirror()), 0.25, vec![1.0]);
    let mut sampler = Fixed { numbers: vec![0.5], drawn: 0 };
    let l = path(3, 0.0, LightSampleStrategy::Uniform).li(&down(), &scene, &mut sampler);
    // a mirror is not sampled for direct light, but what it shows emits
    assert_eq!(colour(&l), [0.25 + 0.125 + 0.0625 + 0.03125; 3]);
}

#[test]
fn a_ray_that_leaves_takes_what_the_lights_send() {
    let mut scene = Corridor::new(Some(mirror()), 0.0, vec![1.0, 3.0]);
    scene.open_after = 0;
    let mut sampler = Fixed { numbers: vec![0.5], drawn: 0 };
    let l = path(3, 0.0, LightSampleStrategy::Uniform).li(&down(), &scene, &mut sampler);
    assert_eq!(colour(&l), [0.5; 3]);
    assert_eq!(sampler.drawn, 0);
    // after two mirrors: a quarter of it
    let mut scene = Corridor::new(Some(mirror()), 0.0, vec![1.0, 3.0]);
    scene.open_after = 2;
    let l = path(5, 0.0, LightSampleStrategy::Uniform).li(&down(), &scene, &mut sampler);
    assert_eq!(colour(&l), [0.125; 3]);
    // after two diffuse bounces it is not counted again
    let mut scene = Corridor::new(Some(diffuse()), 0.0, vec![1.0, 3.0]);
    scene.open_after = 2;
    let mut sampler = Fixed { numbers: vec![0.75], drawn: 0 };
    let l = path(5, 0.0, LightSampleStrategy::Uniform).li(&down(), &scene, &mut sampler);
    assert_eq!(colour(&l), [6.0 + 3.0; 3]);
}

#[test]
fn degenerate_samples_end_a_path() {
    for surface in [
        Half { lobe: BSDF_REFLECTION | BSDF_SPECULAR, value: 0.0, pdf: 1.0 },
        Half { lobe: BSDF_REFLECTION | BSDF_SPECULAR, value: 0.5, pdf: 0.0 },
    ] {
        let scene = Corridor::new(Some(surface), 0.125, vec![1.0]);
        let mut sampler = Fixed { numbers: vec![0.5], drawn: 0 };
        let l = path(10, 0.0, LightSampleStrategy::Uniform).li(&down(), &scene, &mut sampler);
        assert_eq!(colour(&l), [0.125; 3]);
        assert_eq!(scene.intersections.get(), 1);
    }
}

#[test]
fn a_surface_without_scattering_is_passed_through() {
    let scene = Corridor::new(None, 0.125, vec![1.0]);
    let mut sampler = Fixed { numbers: vec![0.5], drawn: 0 };
    let l = path(4, 0.0, LightSampleStrategy::Uniform).li(&down(), &scene, &mut sampler);
    assert_eq!(colour(&l), [0.125; 3]);
    assert_eq!(scene.intersections.get(), 5);
    assert_eq!(sampler.drawn, 0);
}

#[test]
fn weak_paths_are_ended_at_random_and_survivors_weighed_up() {
    // the throughput halves with each bounce: 0.5, 0.25, ... After the
    // fourth bounce it is 1/32 < 0.1, so the path ends with the chance
    // 1 - 1/32; the number 0.99 lets it through and it is weighed up to 1.
    let scene = Corridor::new(Some(mirror()), 1.0, vec![]);
    let mut sampler = Fixed { numbers: vec![0.99], drawn: 0 };
    let l = path(5, 0.1, LightSampleStrategy::Uniform).li(&down(), &scene, &mut sampler);
    let survived = 1.0 + 0.5 + 0.25 + 0.125 + 0.0625 + (0.03125f32 / (1.0 - (1.0 - 0.03125)));
    assert_eq!(colour(&l), [survived; 3]);
    // the number 0.5 ends it
    let scene = Corridor::new(Some(mirror()), 1.0, vec![]);
    let mut sampler = Fixed { numbers: vec![0.5], drawn: 0 };
    let l = path(5, 0.1, LightSampleStrategy::Uniform).li(&down(), &scene, &mut sampler);
    assert_eq!(colour(&l), [1.0 + 0.5 + 0.25 + 0.125 + 0.0625; 3]);
    assert_eq!(scene.intersections.get(), 5);
}

#[test]
fn the_strategy_picks_the_light() {
    let scene = Corridor::new(Some(diffuse()), 0.0, vec![1.0, 2.0, 4.0]);
    let isect = scene.compute_scattering_functions(scene.intersect(&down()).unwrap(), &down());
    let mut sampler = Fixed { numbers: vec![0.5], drawn: 0 };
    // uniform: 0.5 of 3 lights picks light 1, with the chance 1/3
    let l = sample_one_light(&isect, &scene, &mut sampler, LightSampleStrategy::Uniform);
    assert_eq!(colour(&l), [2.0f32 / (1.0 / 3.0); 3]);
    assert_eq!(colour(&l), colour(&uniform_sample_one_light(&isect, &scene, &mut sampler)));
    // by power: the scene picks the last light for certain
    let l = sample_one_light(&isect, &scene, &mut sampler, LightSampleStrategy::Power);
    assert_eq!(colour(&l), [4.0; 3]);
    // a pick without chance gives nothing, and draws one number only
    let before = sampler.drawn;
    let l = sample_one_light(&isect, &scene, &mut sampler, LightSampleStrategy::Spatial);
    assert_eq!(colour(&l), [0.0; 3]);
    assert_eq!(sampler.drawn, before + 1);
    let dark = Corridor::new(Some(diffuse()), 0.0, vec![]);
    let l = sample_one_light(&isect, &dark, &mut sampler, LightSampleStrategy::Power);
    assert_eq!(colour(&l), [0.0; 3]);
}

#[test]
fn sampling_one_light_averages_to_sampling_all() {
    let scene = Corridor::new(Some(diffuse()), 0.0, vec![0.25, 1.0, 2.5, 0.75, 3.25]);
    let isect = scene.compute_scattering_functions(scene.intersect(&down()).unwrap(), &down());
    let mut none = Fixed { numbers: vec![0.5], drawn: 0 };
    let all = uniform_sample_all_lights(&isect, &scene, &mut none, &vec![1, 1, 1, 1, 1]);
    assert_eq!(colour(&all), [7.75; 3]);
    // a stream that is spread evenly over the unit interval
    let mut state: u64 = 99;
    let mut sum = 0.0f64;
    let n = 20_000;
    for _ in 0..n {
        state = state.wrapping_mul(6364136223846793005).wrapping_add(1442695040888963407);
        let u = ((state >> 40) as f32) / 16_777_216.0;
        let mut sampler = Fixed { numbers: vec![u], drawn: 0 };
        let one = uniform_sample_one_light(&isect, &scene, &mut sampler);
        sum += plain(one.c[0]) as f64;
    }
    let mean = sum / n as f64;
    assert!((mean - 7.75).abs() < 0.25, "mean {}", mean);
}

#[test]
fn direct_lighting_with_one_sample_each_matches_in_the_mean() {
    let scene = Corridor::new(None, 0.0, vec![1.0, 2.0, 3.0]);
    let mut all = DirectLightingIntegrator::new(LightStrategy::UniformSampleAll, 1, bounds());
    let mut sampler = Fixed { numbers: vec![0.5], drawn: 0 };
    all.preprocess(&scene, &mut sampler);
    let every = all.li(&down(), &scene, &mut sampler, 0);
    assert_eq!(colour(&every), [6.0; 3]);
    let one = DirectLightingIntegrator::new(LightStrategy::UniformSampleOne, 1, bounds());
    let mut sum = 0.0f64;
    for k in 0..3000 {
        let mut sampler = Fixed { numbers: vec![(k as f32 + 0.5) / 3000.0], drawn: 0 };
        sum += plain(one.li(&down(), &scene, &mut sampler, 0).c[1]) as f64;
    }
    assert!((sum / 3000.0 - 6.0).abs() < 1.0e-3);
}
