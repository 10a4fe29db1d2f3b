use rs_pbrt::bounds::Bounds3f;
use rs_pbrt::bvh::{BVHAccel, Primitive, SplitMethod};
use rs_pbrt::directlighting::{DirectLightingIntegrator, LightStrategy};
use rs_pbrt::film::Film;
use rs_pbrt::float::Float;
use rs_pbrt::geometry::{Bounds2i, Normal3f, Point2f, Point2i, Point3f, Ray, Vector3f};
use rs_pbrt::integrator::{
    Bsdf, BsdfSample, LightPick, LightSampleStrategy, Lighting, Sampler, Scene, Shading,
    SurfaceInteraction,
};
use rs_pbrt::path::PathIntegrator;
use rs_pbrt::render::{render, Camera, Integrator, RenderSettings, SamplerSource};
use rs_pbrt::scene::AcceleratedScene;
use rs_pbrt::spectrum::RGBSpectrum;
use rs_pbrt::tiles::{TileGrid, TileQueue};

fn num(x: f32) -> Float {
    Float::from_bits(x.to_bits())
}

fn plain(a: Float) -> f32 {
    f32::from_bits(a.to_bits())
}

fn point(x: f32, y: f32, z: f32) -> Point3f {
    Point3f { x: num(x), y: num(y), z: num(z) }
}

fn vector(x: f32, y: f32, z: f32) -> Vector3f {
    Vector3f { x: num(x), y: num(y), z: num(z) }
}

fn colour(s: &RGBSpectrum) -> [f32; 3] {
    [plain(s.c[0]), plain(s.c[1]), plain(s.c[2])]
}

#[derive(Clone, Copy)]
struct Matte;

impl Bsdf for Matte {
    fn sample_f(&self, _wo: &Vector3f, _u: &Point2f, _flags: u8) -> BsdfSample {
        BsdfSample {
            f: RGBSpectrum::new(num(0.0)),
            wi: vector(0.0, 0.0, 1.0),
            pdf: num(0.0),
            sampled_type: 0,
        }
    }

    fn eta(&self) -> Float {
        num(1.0)
    }

    fn num_components(&self, _flags: u8) -> i32 {
        1
    }
}

/// A disk in the plane z = 0, centred at the origin, that faces up the z
/// axis.
struct Disk {
    radius: f32,
}

impl Primitive for Disk {
    type Found = SurfaceInteraction<Matte>;

    fn world_bound(&self) -> Bounds3f {
        Bounds3f {
            p_min: point(-self.radius, -self.radius, 0.0),
            p_max: point(self.radius, self.radius, 0.0),
        }
    }

    fn intersect(&self, r: &Ray) -> Option<(SurfaceInteraction<Matte>, Float)> {
        let dz = plain(r.d.z);
        if dz == 0.0 {
            return None;
        }
        let t = -plain(r.o.z) / dz;
        if t <= 0.0 || t >= plain(r.t_max) {
            return None;
        }
        let x = plain(r.o.x) + t * plain(r.d.x);
        let y = plain(r.o.y) + t * plain(r.d.y);
        if x * x + y * y > self.radius * self.radius {
            return None;
        }
        let up = Normal3f { x: num(0.0), y: num(0.0), z: num(1.0) };
        let flat = Normal3f { x: num(0.0), y: num(0.0), z: num(0.0) };
        let zero = vector(0.0, 0.0, 0.0);
        Some((
            SurfaceInteraction {
                p: point(x, y, 0.0),
                wo: r.d.neg(),
                n: up,
                shading: Shading { n: up, dndu: flat, dndv: flat },
                dpdx: zero,
                dpdy: zero,
                dudx: num(0.0),
                dvdx: num(0.0),
                dudy: num(0.0),
                dvdy: num(0.0),
                bsdf: None,
            },
            num(t),
        ))
    }

    fn intersect_p(&self, r: &Ray) -> bool {
        self.intersect(r).is_some()
    }
}

/// Point lights of unit intensity at the height 2 above the origin, and a
/// matte surface that reflects a quarter of what falls on it.
struct Lamps {
    lights: usize,
}

impl Lighting for Lamps {
    type Scattering = Matte;

    fn pick_light(&self, _strategy: LightSampleStrategy, _p: &Point3f, _u: Float) -> LightPick {
        LightPick { light: 0, pdf: num(1.0) }
    }

    fn light_count(&self) -> usize {
        self.lights
    }

    fn light_n_samples(&self, _light: usize) -> i32 {
        1
    }

    fn light_le(&self, _light: usize, _ray: &Ray) -> RGBSpectrum {
        // a point light sends nothing along a ray that leaves the scene
        RGBSpectrum::new(num(0.0))
    }

    fn le(&self, _isect: &SurfaceInteraction<Matte>, _w: &Vector3f) -> RGBSpectrum {
        RGBSpectrum::new(num(0.0))
    }

    fn compute_scattering_functions(
        &self,
        isect: SurfaceInteraction<Matte>,
        _ray: &Ray,
    ) -> SurfaceInteraction<Matte> {
        SurfaceInteraction { bsdf: Some(Matte), ..isect }
    }

    fn spawn_ray(&self, isect: &SurfaceInteraction<Matte>, wi: &Vector3f) -> Ray {
        Ray { o: isect.p, d: *wi, t_max: num(f32::INFINITY), time: num(0.0), differential: None }
    }

    fn estimate_direct(
        &self,
        isect: &SurfaceInteraction<Matte>,
        _u_scattering: &Point2f,
        _light: usize,
        _u_light: &Point2f,
    ) -> RGBSpectrum {
        // reflectance * intensity * cosine / squared distance
        let (x, y) = (plain(isect.p.x), plain(isect.p.y));
        let squared = x * x + y * y + 4.0;
        let cosine = 2.0 / squared.sqrt();
        RGBSpectrum::new(num(0.25 * cosine / squared))
    }
}

fn disk_scene(lights: usize) -> AcceleratedScene<Disk, Lamps> {
    let accelerator = BVHAccel::new(vec![Disk { radius: 0.5 }], 1, SplitMethod::SurfaceAreaHeuristic);
    AcceleratedScene::new(accelerator, Lamps { lights })
}

fn empty_scene(lights: usize) -> AcceleratedScene<Disk, Lamps> {
    AcceleratedScene::new(BVHAccel::new(Vec::new(), 1, SplitMethod::Middle), Lamps { lights })
}

fn from_above(x: f32, y: f32) -> Ray {
    Ray { o: point(x, y, 3.0), d: vector(0.0, 0.0, -1.0), t_max: num(f32::INFINITY), time: num(0.0), differential: None }
}

struct Quiet;

impl Sampler for Quiet {
    fn get_1d(&mut self) -> Float {
        num(0.5)
    }

    fn get_2d(&mut self) -> Point2f {
        Point2f { x: num(0.5), y: num(0.5) }
    }

    fn round_count(&self, n: i32) -> i32 {
        n
    }

    fn request_2d_array(&mut self, _n: i32) {}

    fn get_2d_array(&mut self, _n: i32) -> Vec<Point2f> {
        Vec::new()
    }
}

struct QuietSource;

impl SamplerSource for QuietSource {
    type Stream = Quiet;

    fn for_tile(&self, _origin: Point2i) -> Quiet {
        Quiet
    }
}

/// Sixteen by sixteen pixels that look down on the square from -1 to 1.
struct Overhead;

impl Camera for Overhead {
    fn generate_ray(&self, pixel: Point2i, film_sample: &Point2f, _lens: &Point2f) -> Ray {
        from_above(
            (pixel.x as f32 + plain(film_sample.x)) / 8.0 - 1.0,
            (pixel.y as f32 + plain(film_sample.y)) / 8.0 - 1.0,
        )
    }
}

fn image() -> Bounds2i {
    Bounds2i { p_min: Point2i { x: 0, y: 0 }, p_max: Point2i { x: 16, y: 16 } }
}

fn rendered(scene: &AcceleratedScene<Disk, Lamps>, integrator: &Integrator) -> Film {
    let grid = TileGrid::new(image(), 4).unwrap();
    let mut queue = TileQueue::new(grid.tile_count());
    let mut film = Film::new(image());
    let settings = RenderSettings { samples_per_pixel: 2, luminance_clamp: num(1000.0) };
    render(integrator, scene, &Overhead, &QuietSource, settings, &grid, &mut queue, &mut film);
    film
}

fn direct() -> Integrator {
    Integrator::DirectLighting(DirectLightingIntegrator::new(LightStrategy::UniformSampleOne, 1, image()))
}

fn path() -> Integrator {
    Integrator::Path(PathIntegrator::new(1, image(), num(1.0), 3, LightSampleStrategy::Uniform))
}

#[test]
fn a_ray_through_the_centre_of_the_disk_meets_it_at_the_plane() {
    let scene = disk_scene(1);
    assert_eq!(scene.primitive_count(), 1);
    let hit = scene.intersect(&from_above(0.0, 0.0)).unwrap();
    assert_eq!([plain(hit.p.x), plain(hit.p.y), plain(hit.p.z)], [0.0, 0.0, 0.0]);
    assert!(scene.intersect_p(&from_above(0.0, 0.0)));
    assert!(scene.intersect(&from_above(0.25, -0.25)).is_some());
    for (x, y) in [(0.6f32, 0.0f32), (0.0, 0.6), (-0.51, 0.0), (3.0, 3.0), (0.4, 0.4)] {
        assert!(scene.intersect(&from_above(x, y)).is_none());
        assert!(!scene.intersect_p(&from_above(x, y)));
    }
    // a ray that ends before the plane
    let mut short = from_above(0.0, 0.0);
    short.t_max = num(2.5);
    assert!(scene.intersect(&short).is_none());
}

#[test]
fn the_disk_is_lit_by_the_light_above_it() {
    let scene = disk_scene(1);
    let integrator = DirectLightingIntegrator::new(LightStrategy::UniformSampleOne, 1, image());
    let mut sampler = Quiet;
    let centre = integrator.li(&from_above(0.0, 0.0), &scene, &mut sampler, 0);
    // a quarter of the unit intensity over the squared distance 4
    assert_eq!(colour(&centre), [0.0625; 3]);
    let rim = integrator.li(&from_above(0.3, 0.4), &scene, &mut sampler, 0);
    assert!(plain(rim.c[0]) < 0.0625 && plain(rim.c[0]) > 0.05);
    let beside = integrator.li(&from_above(0.6, 0.0), &scene, &mut sampler, 0);
    assert_eq!(colour(&beside), [0.0; 3]);
}

#[test]
fn a_scene_without_lights_gives_a_black_image() {
    let scene = disk_scene(0);
    for integrator in [direct(), path()] {
        let film = rendered(&scene, &integrator);
        assert_eq!(film.pixels.len(), 256);
        for px in &film.pixels {
            assert_eq!(px.count, 2);
            assert!(px.sum.is_black());
        }
    }
}

#[test]
fn a_scene_without_primitives_shows_the_background_everywhere() {
    for lights in [0usize, 2] {
        let scene = empty_scene(lights);
        assert_eq!(scene.primitive_count(), 0);
        assert!(scene.intersect(&from_above(0.0, 0.0)).is_none());
        for integrator in [direct(), path()] {
            let film = rendered(&scene, &integrator);
            let first = film.pixels[0];
            for px in &film.pixels {
                assert_eq!(px.count, 2);
                assert_eq!(colour(&px.sum), colour(&first.sum));
                assert!(px.sum.is_black());
            }
        }
    }
}

#[test]
fn the_image_shows_the_disk() {
    let scene = disk_scene(1);
    for integrator in [direct(), path()] {
        let film = rendered(&scene, &integrator);
        let centre = film.get(Point2i { x: 8, y: 8 });
        let corner = film.get(Point2i { x: 0, y: 0 });
        assert!(plain(centre.mean().c[0]) > 0.06);
        assert!(corner.sum.is_black());
        let lit = film.pixels.iter().filter(|px| !px.sum.is_black()).count();
        // the disk covers pi/16 of the square, about 50 of 256 pixels
        assert!(lit > 40 && lit < 62, "{} pixels", lit);
    }
}
