use rs_pbrt::directlighting::{DirectLightingIntegrator, LightStrategy};
use rs_pbrt::film::Film;
use rs_pbrt::float::Float;
use rs_pbrt::geometry::{Bounds2i, Normal3f, Point2f, Point2i, Point3f, Ray, Vector3f};
use rs_pbrt::integrator::{
    Bsdf, BsdfSample, LightPick, LightSampleStrategy, Lighting, Sampler, Scene, Shading, SurfaceInteraction,
};
use rs_pbrt::path::PathIntegrator;
use rs_pbrt::render::{
    render, render_pixel, render_tile, Camera, Integrator, RenderSettings, SamplerSource,
};
use rs_pbrt::spectrum::RGBSpectrum;
use rs_pbrt::tiles::{TileGrid, TileQueue};

fn num(x: f32) -> Float {
    Float::from_bits(x.to_bits())
}

fn plain(a: Float) -> f32 {
    f32::from_bits(a.to_bits())
}

fn rect(x0: i32, y0: i32, x1: i32, y1: i32) -> Bounds2i {
    Bounds2i { p_min: Point2i { x: x0, y: y0 }, p_max: Point2i { x: x1, y: y1 } }
}

struct NoScattering;

impl Bsdf for NoScattering {
    fn sample_f(&self, _wo: &Vector3f, _u: &Point2f, _flags: u8) -> BsdfSample {
        BsdfSample {
            f: RGBSpectrum::new(num(0.0)),
            wi: Vector3f { x: num(0.0), y: num(0.0), z: num(1.0) },
            pdf: num(0.0),
            sampled_type: 0,
        }
    }

    fn eta(&self) -> Float {
        num(1.0)
    }

    fn num_components(&self, _flags: u8) -> i32 {
        1
    }
}

/// A pseudo-random stream, seeded by the pixel that it is made for.
struct Stream {
    state: u64,
}

impl Stream {
    fn unit(&mut self) -> f32 {
        self.state = self.state.wrapping_mul(6364136223846793005).wrapping_add(1442695040888963407);
        ((self.state >> 40) as f32) / 16_777_216.0
    }
}

impl Sampler for Stream {
    fn get_1d(&mut self) -> Float {
        num(self.unit())
    }

    fn get_2d(&mut self) -> Point2f {
        let x = self.unit();
        let y = self.unit();
        Point2f { x: num(x), y: num(y) }
    }

    fn round_count(&self, n: i32) -> i32 {
        n
    }

    fn request_2d_array(&mut self, _n: i32) {}

    fn get_2d_array(&mut self, _n: i32) -> Vec<Point2f> {
        Vec::new()
    }
}

struct Seeded {
    seed: u64,
}

impl SamplerSource for Seeded {
    type Stream = Stream;

    fn for_tile(&self, origin: Point2i) -> Stream {
        Stream { state: self.seed ^ ((origin.x as u64) << 32) ^ (origin.y as u32 as u64) }
    }
}

/// Rays straight down the z axis, through the sample point of the pixel.
struct Orthographic;

impl Camera for Orthographic {
    fn generate_ray(&self, pixel: Point2i, film_sample: &Point2f, _lens: &Point2f) -> Ray {
        Ray {
            o: Point3f {
                x: num(pixel.x as f32 + plain(film_sample.x)),
                y: num(pixel.y as f32 + plain(film_sample.y)),
                z: num(5.0),
            },
            d: Vector3f { x: num(0.0), y: num(0.0), z: num(-1.0) },
            t_max: num(f32::INFINITY),
            time: num(0.0),
            differential: None,
        }
    }
}

/// A square plate over the pixels from (2, 2) to (6, 6), which glows by its
/// place; beyond it a sky whose lights send a fixed radiance.
struct Plate {
    lights: usize,
    with_nan: bool,
}

impl Lighting for Plate {
    type Scattering = NoScattering;

    fn pick_light(&self, _strategy: LightSampleStrategy, _p: &Point3f, _u: Float) -> LightPick {
        LightPick { light: 0, pdf: num(1.0) }
    }

    fn light_count(&self) -> usize {
        self.lights
    }

    fn light_n_samples(&self, _light: usize) -> i32 {
        1
    }

    fn light_le(&self, _light: usize, _ray: &Ray) -> RGBSpectrum {
        RGBSpectrum::rgb(num(0.125), num(0.25), num(0.5))
    }

    fn le(&self, isect: &SurfaceInteraction<NoScattering>, _w: &Vector3f) -> RGBSpectrum {
        let x = plain(isect.p.x);
        if self.with_nan && x.fract() < 0.25 {
            RGBSpectrum::new(num(f32::NAN))
        } else if x.fract() > 0.9 {
            RGBSpectrum::new(num(1000.0))
        } else {
            RGBSpectrum::rgb(num(x), num(plain(isect.p.y)), num(0.5))
        }
    }

    fn compute_scattering_functions(
        &self,
        isect: SurfaceInteraction<NoScattering>,
        _ray: &Ray,
    ) -> SurfaceInteraction<NoScattering> {
        isect
    }

    fn spawn_ray(&self, isect: &SurfaceInteraction<NoScattering>, wi: &Vector3f) -> Ray {
        Ray { o: isect.p, d: *wi, t_max: num(f32::INFINITY), time: num(0.0), differential: None }
    }

    fn estimate_direct(
        &self,
        _isect: &SurfaceInteraction<NoScattering>,
        _u_scattering: &Point2f,
        _light: usize,
        _u_light: &Point2f,
    ) -> RGBSpectrum {
        RGBSpectrum::new(num(0.0625))
    }

}


impl Scene for Plate {

    fn intersect(&self, ray: &Ray) -> Option<SurfaceInteraction<NoScattering>> {
        let (x, y) = (plain(ray.o.x), plain(ray.o.y));
        if !(2.0..6.0).contains(&x) || !(2.0..6.0).contains(&y) {
            return None;
        }
        let zero = Vector3f { x: num(0.0), y: num(0.0), z: num(0.0) };
        let up = Normal3f { x: num(0.0), y: num(0.0), z: num(1.0) };
        let flat = Normal3f { x: num(0.0), y: num(0.0), z: num(0.0) };
        Some(SurfaceInteraction {
            p: Point3f { x: num(x), y: num(y), z: num(0.0) },
            wo: Vector3f { x: num(0.0), y: num(0.0), z: num(1.0) },
            n: up,
            shading: Shading { n: up, dndu: flat, dndv: flat },
            dpdx: zero,
            dpdy: zero,
            dudx: num(0.0),
            dvdx: num(0.0),
            dudy: num(0.0),
            dvdy: num(0.0),
            bsdf: None,
        })
    }

}

fn settings(spp: u32) -> RenderSettings {
    RenderSettings { samples_per_pixel: spp, luminance_clamp: num(100.0) }
}

fn integrator() -> Integrator {
    Integrator::DirectLighting(DirectLightingIntegrator::new(
        LightStrategy::UniformSampleOne,
        3,
        rect(0, 0, 8, 8),
    ))
}

fn path_integrator() -> Integrator {
    Integrator::Path(PathIntegrator::new(
        5,
        rect(0, 0, 8, 8),
        num(1.0),
        3,
        LightSampleStrategy::Uniform,
    ))
}

fn encodings(film: &Film) -> Vec<(u32, u32, u32, u64)> {
    film.pixels
        .iter()
        .map(|px| (px.sum.c[0].to_bits(), px.sum.c[1].to_bits(), px.sum.c[2].to_bits(), px.count))
        .collect()
}

fn whole_image(tile_size: i32, spp: u32, scene: &Plate) -> Film {
    let image = rect(0, 0, 8, 8);
    let grid = TileGrid::new(image, tile_size).unwrap();
    let mut queue = TileQueue::new(grid.tile_count());
    let mut film = Film::new(image);
    render(&integrator(), scene, &Orthographic, &Seeded { seed: 42 }, settings(spp), &grid, &mut queue, &mut film);
    assert!(queue.is_exhausted());
    film
}

#[test]
fn a_rendering_repeats_itself() {
    let scene = Plate { lights: 2, with_nan: true };
    let a = whole_image(4, 6, &scene);
    let b = whole_image(4, 6, &scene);
    assert_eq!(encodings(&a), encodings(&b));
}

#[test]
fn tiles_rendered_in_any_order_give_the_same_image() {
    let scene = Plate { lights: 2, with_nan: true };
    let image = rect(0, 0, 8, 8);
    let grid = TileGrid::new(image, 3).unwrap();
    let in_order = whole_image(3, 5, &scene);
    let mut backwards = Film::new(image);
    let mut t = grid.tile_count();
    while t > 0 {
        t -= 1;
        let tile = render_tile(&integrator(), &scene, &Orthographic, &Seeded { seed: 42 }, settings(5), grid.tile_bounds(t));
        backwards.merge(&tile);
    }
    assert_eq!(encodings(&in_order), encodings(&backwards));
    let mut shuffled = Film::new(image);
    for t in [4u64, 0, 8, 2, 6, 1, 7, 3, 5] {
        let tile = render_tile(&integrator(), &scene, &Orthographic, &Seeded { seed: 42 }, settings(5), grid.tile_bounds(t));
        shuffled.merge(&tile);
    }
    assert_eq!(encodings(&in_order), encodings(&shuffled));
}

#[test]
fn invalid_samples_are_left_out() {
    let scene = Plate { lights: 1, with_nan: true };
    let film = whole_image(4, 40, &scene);
    // over the sky every sample counts; over the plate those are left out
    // that hold a NaN or glow beyond the clamp
    assert_eq!(film.get(Point2i { x: 0, y: 0 }).count, 40);
    assert_eq!(film.get(Point2i { x: 7, y: 1 }).count, 40);
    let on_plate = film.get(Point2i { x: 3, y: 3 });
    assert!(on_plate.count < 40 && on_plate.count > 0);
    for px in &film.pixels {
        for c in px.sum.c {
            assert!(!c.is_nan());
            assert!(!c.is_sign_negative());
            assert!(plain(c) <= 40.0 * 100.0 / 0.072169);
        }
    }
}

#[test]
fn an_empty_scene_shows_what_the_lights_send() {
    struct Nothing;
    impl Lighting for Nothing {
        type Scattering = NoScattering;

        fn pick_light(&self, _strategy: LightSampleStrategy, _p: &Point3f, _u: Float) -> LightPick {
        LightPick { light: 0, pdf: num(1.0) }
    }

    fn light_count(&self) -> usize {
            2
        }
        fn light_n_samples(&self, _light: usize) -> i32 {
            1
        }
        fn light_le(&self, light: usize, _ray: &Ray) -> RGBSpectrum {
            RGBSpectrum::new(num(0.25 * (light as f32 + 1.0)))
        }
        fn le(&self, _isect: &SurfaceInteraction<NoScattering>, _w: &Vector3f) -> RGBSpectrum {
            RGBSpectrum::new(num(0.0))
        }
        fn compute_scattering_functions(
            &self,
            isect: SurfaceInteraction<NoScattering>,
            _ray: &Ray,
        ) -> SurfaceInteraction<NoScattering> {
            isect
        }
        fn spawn_ray(&self, isect: &SurfaceInteraction<NoScattering>, wi: &Vector3f) -> Ray {
            Ray { o: isect.p, d: *wi, t_max: num(1.0), time: num(0.0), differential: None }
        }
        fn estimate_direct(
            &self,
            _isect: &SurfaceInteraction<NoScattering>,
            _u_scattering: &Point2f,
            _light: usize,
            _u_light: &Point2f,
        ) -> RGBSpectrum {
            RGBSpectrum::new(num(0.0))
        }
    }

    impl Scene for Nothing {
        fn intersect(&self, _ray: &Ray) -> Option<SurfaceInteraction<NoScattering>> {
            None
        }
    }
    let image = rect(0, 0, 5, 3);
    let grid = TileGrid::new(image, 2).unwrap();
    let mut queue = TileQueue::new(grid.tile_count());
    let mut film = Film::new(image);
    render(&integrator(), &Nothing, &Orthographic, &Seeded { seed: 1 }, settings(4), &grid, &mut queue, &mut film);
    for px in &film.pixels {
        assert_eq!(px.count, 4);
        assert_eq!(plain(px.sum.c[0]), 3.0);
        assert_eq!(plain(px.mean().c[1]), 0.75);
    }
}

#[test]
fn a_scene_without_lights_and_glow_gives_a_black_image() {
    struct Dark;
    impl Lighting for Dark {
        type Scattering = NoScattering;

        fn pick_light(&self, _strategy: LightSampleStrategy, _p: &Point3f, _u: Float) -> LightPick {
        LightPick { light: 0, pdf: num(1.0) }
    }

    fn light_count(&self) -> usize {
            0
        }
        fn light_n_samples(&self, _light: usize) -> i32 {
            1
        }
        fn light_le(&self, _light: usize, _ray: &Ray) -> RGBSpectrum {
            RGBSpectrum::new(num(1.0))
        }
        fn le(&self, _isect: &SurfaceInteraction<NoScattering>, _w: &Vector3f) -> RGBSpectrum {
            RGBSpectrum::new(num(0.0))
        }
        fn compute_scattering_functions(
            &self,
            isect: SurfaceInteraction<NoScattering>,
            _ray: &Ray,
        ) -> SurfaceInteraction<NoScattering> {
            SurfaceInteraction { bsdf: Some(NoScattering), ..isect }
        }
        fn spawn_ray(&self, isect: &SurfaceInteraction<NoScattering>, wi: &Vector3f) -> Ray {
            Ray { o: isect.p, d: *wi, t_max: num(1.0), time: num(0.0), differential: None }
        }
        fn estimate_direct(
            &self,
            _isect: &SurfaceInteraction<NoScattering>,
            _u_scattering: &Point2f,
            _light: usize,
            _u_light: &Point2f,
        ) -> RGBSpectrum {
            RGBSpectrum::new(num(1.0))
        }
    }

    impl Scene for Dark {
        fn intersect(&self, ray: &Ray) -> Option<SurfaceInteraction<NoScattering>> {
            Plate { lights: 0, with_nan: false }.intersect(ray)
        }
    }
    let image = rect(0, 0, 8, 8);
    let grid = TileGrid::new(image, 16).unwrap();
    let mut queue = TileQueue::new(grid.tile_count());
    let mut film = Film::new(image);
    render(&integrator(), &Dark, &Orthographic, &Seeded { seed: 1 }, settings(3), &grid, &mut queue, &mut film);
    for px in &film.pixels {
        assert_eq!(px.count, 3);
        assert!(px.sum.is_black());
    }
}

#[test]
fn a_stopped_queue_renders_nothing_more() {
    let scene = Plate { lights: 1, with_nan: false };
    let image = rect(0, 0, 8, 8);
    let grid = TileGrid::new(image, 4).unwrap();
    let mut queue = TileQueue::new(grid.tile_count());
    assert_eq!(queue.claim(), Some(0));
    queue.stop();
    let mut film = Film::new(image);
    render(&integrator(), &scene, &Orthographic, &Seeded { seed: 42 }, settings(2), &grid, &mut queue, &mut film);
    assert!(film.pixels.iter().all(|px| px.count == 0));
    assert_eq!(queue.next, 1);
}

#[test]
fn a_pixel_takes_its_samples_from_the_sampler() {
    let scene = Plate { lights: 1, with_nan: false };
    let mut film = Film::new(rect(0, 0, 2, 2));
    let mut sampler = Seeded { seed: 9 }.for_tile(Point2i { x: 0, y: 0 });
    render_pixel(&integrator(), &scene, &Orthographic, num(100.0), &mut film, Point2i { x: 1, y: 0 }, &mut sampler, 7);
    assert_eq!(film.get(Point2i { x: 1, y: 0 }).count, 7);
    assert_eq!(film.get(Point2i { x: 0, y: 0 }).count, 0);
    assert_eq!(plain(film.get(Point2i { x: 1, y: 0 }).sum.c[2]), 3.5);
    // two sample points of two numbers each for every sample
    let mut fresh = Seeded { seed: 9 }.for_tile(Point2i { x: 0, y: 0 });
    for _ in 0..28 {
        fresh.unit();
    }
    assert_eq!(fresh.state, sampler.state);
}

#[test]
fn both_integrators_render_through_the_same_tiles() {
    let scene = Plate { lights: 2, with_nan: false };
    let image = rect(0, 0, 8, 8);
    let grid = TileGrid::new(image, 4).unwrap();
    for integrator in [integrator(), path_integrator()] {
        assert_eq!(integrator.get_pixel_bounds(), rect(0, 0, 8, 8));
        let mut in_order = Film::new(image);
        let mut queue = TileQueue::new(grid.tile_count());
        render(&integrator, &scene, &Orthographic, &Seeded { seed: 5 }, settings(3), &grid, &mut queue, &mut in_order);
        let mut backwards = Film::new(image);
        for t in [3u64, 2, 1, 0] {
            let tile = render_tile(&integrator, &scene, &Orthographic, &Seeded { seed: 5 }, settings(3), grid.tile_bounds(t));
            backwards.merge(&tile);
        }
        assert_eq!(encodings(&in_order), encodings(&backwards));
        // the sky sends 0.125 + 0.125 in red with each sample
        assert_eq!(plain(in_order.get(Point2i { x: 0, y: 0 }).sum.c[0]), 0.75);
    }
}

#[test]
fn preprocessing_prepares_direct_lighting_only() {
    let scene = Plate { lights: 3, with_nan: false };
    let mut direct = Integrator::DirectLighting(DirectLightingIntegrator::new(
        LightStrategy::UniformSampleAll,
        2,
        rect(0, 0, 8, 8),
    ));
    let mut sampler = Seeded { seed: 1 }.for_tile(Point2i { x: 0, y: 0 });
    direct.preprocess(&scene, &mut sampler);
    match &direct {
        Integrator::DirectLighting(d) => assert_eq!(d.n_light_samples, vec![1, 1, 1]),
        Integrator::Path(_) => panic!("the integrator changed its kind"),
    }
    let mut path = path_integrator();
    path.preprocess(&scene, &mut sampler);
    match &path {
        Integrator::Path(p) => assert_eq!(p.max_depth, 5),
        Integrator::DirectLighting(_) => panic!("the integrator changed its kind"),
    }
}
