//! Rendering: each pixel of a tile takes a number of samples, each sample a
//! camera ray whose radiance the integrator estimates; the tiles of an image
//! are rendered one by one and merged.
//!
//! A tile is rendered with a sampler of its own, made for the tile's first
//! pixel, so that what a tile holds in the end depends on the tile alone, not
//! on when or by whom it is rendered.

use vstd::prelude::*;
use crate::directlighting::{DirectLightingIntegrator, LightStrategy, preprocessed};
use crate::path::PathIntegrator;
use crate::float::Float;
use crate::film::{Film, PixelValue, acceptable, blanks, combined, is_acceptable, merged, pixel_at,
    place, with_sample, lemma_pixel_at_inside, lemma_pixel_at_place, lemma_place_in_range};
use crate::geometry::{Bounds2i, Point2f, Point2i, Ray};
use crate::integrator::{Sampler, Scene};
use crate::spectrum::RGBSpectrum;
use crate::tiles::{TileGrid, TileQueue, inside, width_of, height_of};

verus! {

/// A camera, which turns a pixel and two sample points, one on the film and
/// one on the lens, into a ray.
pub trait Camera {
    open spec fn ray_through(&self, pixel: Point2i, film_sample: Point2f, lens_sample: Point2f)
        -> Ray {
        arbitrary()
    }

    fn generate_ray(&self, pixel: Point2i, film_sample: &Point2f, lens_sample: &Point2f) -> (r: Ray)
        ensures
            r == self.ray_through(pixel, *film_sample, *lens_sample),
    ;
}

/// Where samplers come from: one for each tile, made from the tile's first
/// pixel and from nothing else that changes between two renderings.
pub trait SamplerSource {
    type Stream: Sampler;

    open spec fn stream_for(&self, origin: Point2i) -> Self::Stream {
        arbitrary()
    }

    fn for_tile(&self, origin: Point2i) -> (r: Self::Stream)
        ensures
            r == self.stream_for(origin),
    ;
}

/// How an image is sampled: the number of samples that each pixel takes, and
/// the luminance above which a sample is left out.
#[derive(Debug, Clone, Copy)]
pub struct RenderSettings {
    pub samples_per_pixel: u32,
    pub luminance_clamp: Float,
}

/// The pixels of a tile and the sampler after one more sample for the pixel
/// `p`: two sample points are drawn, one for the film and one for the lens;
/// the camera makes a ray of them; the integrator estimates the radiance
/// along it; and the pixel takes the estimate if it is acceptable.
pub open spec fn sampled_once<S: Scene, C: Camera, P: Sampler>(
    integrator: &Integrator,
    scene: &S,
    camera: &C,
    clamp: Float,
    tile: Bounds2i,
    p: Point2i,
    values: Seq<PixelValue>,
    sampler: P,
) -> (Seq<PixelValue>, P) {
    let film_sample = sampler.next_2d();
    let s1 = sampler.after_2d();
    let lens_sample = s1.next_2d();
    let s2 = s1.after_2d();
    let ray = camera.ray_through(p, film_sample, lens_sample);
    let (l, s3) = integrator.estimate(scene, ray, s2);
    if acceptable(l, clamp) {
        (with_sample(values, tile, p, l), s3)
    } else {
        (values, s3)
    }
}

/// The pixels of a tile and the sampler after `count` samples for the pixel
/// `p`.
pub open spec fn pixel_rendered<S: Scene, C: Camera, P: Sampler>(
    integrator: &Integrator,
    scene: &S,
    camera: &C,
    clamp: Float,
    tile: Bounds2i,
    p: Point2i,
    values: Seq<PixelValue>,
    sampler: P,
    count: int,
) -> (Seq<PixelValue>, P)
    decreases count,
{
    if count <= 0 {
        (values, sampler)
    } else {
        let (v, s) = pixel_rendered(
            integrator,
            scene,
            camera,
            clamp,
            tile,
            p,
            values,
            sampler,
            count - 1,
        );
        sampled_once(integrator, scene, camera, clamp, tile, p, v, s)
    }
}

/// The pixels of a tile and its sampler after the first `done` pixels of the
/// tile, row by row, have taken their samples. The sampler is the one that
/// the source makes for the tile's first pixel.
pub open spec fn tile_rendered<S: Scene, C: Camera, Src: SamplerSource>(
    integrator: &Integrator,
    scene: &S,
    camera: &C,
    source: &Src,
    settings: RenderSettings,
    tile: Bounds2i,
    done: int,
) -> (Seq<PixelValue>, Src::Stream)
    decreases done,
{
    if done <= 0 {
        (blanks(width_of(tile) * height_of(tile)), source.stream_for(tile.p_min))
    } else {
        let (v, s) = tile_rendered(integrator, scene, camera, source, settings, tile, done - 1);
        pixel_rendered(
            integrator,
            scene,
            camera,
            settings.luminance_clamp,
            tile,
            pixel_at(tile, done - 1),
            v,
            s,
            settings.samples_per_pixel as int,
        )
    }
}

/// What a tile holds when it has been rendered.
pub open spec fn tile_image<S: Scene, C: Camera, Src: SamplerSource>(
    integrator: &Integrator,
    scene: &S,
    camera: &C,
    source: &Src,
    settings: RenderSettings,
    tile: Bounds2i,
) -> Seq<PixelValue> {
    tile_rendered(
        integrator,
        scene,
        camera,
        source,
        settings,
        tile,
        width_of(tile) * height_of(tile),
    ).0
}

/// Whether the integrator can be asked for radiance in `scene`: its maximal
/// depth fits a depth counter, and, where it samples every light, it has a
/// sample count for each.
pub open spec fn prepared<S: Scene>(integrator: &DirectLightingIntegrator, scene: &S) -> bool {
    &&& integrator.max_depth <= 0x7fff_ffff
    &&& integrator.strategy == LightStrategy::UniformSampleAll ==> integrator.n_light_samples@.len()
        >= scene.light_total()
}

/// An integrator: direct lighting, or path tracing.
pub enum Integrator {
    DirectLighting(DirectLightingIntegrator),
    Path(PathIntegrator),
}

impl Integrator {
    /// Whether the integrator can be asked for radiance in `scene`.
    pub open spec fn ready<S: Scene>(&self, scene: &S) -> bool {
        match self {
            Integrator::DirectLighting(direct) => prepared(direct, scene),
            Integrator::Path(_) => true,
        }
    }

    /// The radiance along a camera ray, and the sampler as the estimate
    /// leaves it.
    pub open spec fn estimate<S: Scene, P: Sampler>(&self, scene: &S, ray: Ray, sampler: P) -> (
        Seq<Float>,
        P,
    ) {
        match self {
            Integrator::DirectLighting(direct) => direct.radiance(scene, ray, sampler, 0),
            Integrator::Path(path) => path.radiance(scene, ray, sampler),
        }
    }

    /// Estimates the radiance that arrives along the camera ray `ray`.
    pub fn li<S: Scene, P: Sampler>(&self, ray: &Ray, scene: &S, sampler: &mut P) -> (l: RGBSpectrum)
        requires
            self.ready(scene),
        ensures
            (l.c@, *final(sampler)) == self.estimate(scene, *ray, *old(sampler)),
    {
        match self {
            Integrator::DirectLighting(direct) => direct.li(ray, scene, sampler, 0),
            Integrator::Path(path) => path.li(ray, scene, sampler),
        }
    }

    /// Does what the integrator has to do once before it is asked for
    /// radiance: direct lighting fixes its sample counts and reserves its
    /// sample arrays, path tracing does nothing.
    pub fn preprocess<S: Scene, P: Sampler>(&mut self, scene: &S, sampler: &mut P)
        ensures
            *old(self) is Path ==> *final(self) == *old(self) && *final(sampler) == *old(sampler),
            *old(self) is DirectLighting ==> *final(self) is DirectLighting,
            *old(self) is DirectLighting ==> preprocessed(
                (*old(self))->DirectLighting_0,
                (*final(self))->DirectLighting_0,
                scene,
                *old(sampler),
                *final(sampler),
            ),
    {
        match self {
            Integrator::DirectLighting(direct) => {
                direct.preprocess(scene, sampler);
            },
            Integrator::Path(_) => {},
        }
    }

    pub fn get_pixel_bounds(&self) -> (r: Bounds2i)
        ensures
            r == (match self {
                Integrator::DirectLighting(direct) => direct.pixel_bounds,
                Integrator::Path(path) => path.pixel_bounds,
            }),
    {
        match self {
            Integrator::DirectLighting(direct) => direct.get_pixel_bounds(),
            Integrator::Path(path) => path.get_pixel_bounds(),
        }
    }
}

/// Takes `count` samples for the pixel `p` of the tile that `film` holds.
pub fn render_pixel<S: Scene, C: Camera, P: Sampler>(
    integrator: &Integrator,
    scene: &S,
    camera: &C,
    clamp: Float,
    film: &mut Film,
    p: Point2i,
    sampler: &mut P,
    count: u32,
)
    requires
        integrator.ready(scene),
        old(film).wf(),
        inside(p, old(film).bounds),
        old(film).value_at(p).count + count <= 0xffff_ffff_ffff_ffff,
    ensures
        final(film).wf(),
        final(film).bounds == old(film).bounds,
        (final(film).values(), *final(sampler)) == pixel_rendered(
            integrator,
            scene,
            camera,
            clamp,
            old(film).bounds,
            p,
            old(film).values(),
            *old(sampler),
            count as int,
        ),
        final(film).value_at(p).count <= old(film).value_at(p).count + count,
        forall|q: Point2i|
            inside(q, old(film).bounds) && q != p ==> #[trigger] final(film).value_at(q) == old(
                film,
            ).value_at(q),
{
    let mut k: u32 = 0;
    while k < count
        invariant
            k <= count,
            integrator.ready(scene),
            film.wf(),
            film.bounds == old(film).bounds,
            inside(p, film.bounds),
            old(film).value_at(p).count + count <= 0xffff_ffff_ffff_ffff,
            film.value_at(p).count <= old(film).value_at(p).count + k,
            (film.values(), *sampler) == pixel_rendered(
                integrator,
                scene,
                camera,
                clamp,
                old(film).bounds,
                p,
                old(film).values(),
                *old(sampler),
                k as int,
            ),
            forall|q: Point2i|
                inside(q, old(film).bounds) && q != p ==> #[trigger] film.value_at(q) == old(
                    film,
                ).value_at(q),
        decreases count - k,
    {
        let film_sample: Point2f = sampler.get_2d();
        let lens_sample: Point2f = sampler.get_2d();
        let ray: Ray = camera.generate_ray(p, &film_sample, &lens_sample);
        let l: RGBSpectrum = integrator.li(&ray, scene, sampler);
        if is_acceptable(&l, clamp) {
            film.add_sample(p, &l);
        }
        k = k + 1;
    }
}

/// Renders a tile: each of its pixels, row by row, takes its samples from
/// the sampler that the source makes for the tile.
pub fn render_tile<S: Scene, C: Camera, Src: SamplerSource>(
    integrator: &Integrator,
    scene: &S,
    camera: &C,
    source: &Src,
    settings: RenderSettings,
    tile: Bounds2i,
) -> (film: Film)
    requires
        integrator.ready(scene),
        0 <= width_of(tile) <= 0x7fff_ffff,
        0 <= height_of(tile) <= 0x7fff_ffff,
        width_of(tile) * height_of(tile) <= usize::MAX,
    ensures
        film.wf(),
        film.bounds == tile,
        film.values() == tile_image(integrator, scene, camera, source, settings, tile),
        forall|q: Point2i|
            inside(q, tile) ==> (#[trigger] film.value_at(q)).count <= settings.samples_per_pixel,
{
    let mut film: Film = Film::new(tile);
    let mut sampler: Src::Stream = source.for_tile(tile.p_min);
    let ghost width = width_of(tile);
    let mut y: i32 = tile.p_min.y;
    while y < tile.p_max.y
        invariant
            integrator.ready(scene),
            film.wf(),
            film.bounds == tile,
            width == width_of(tile),
            0 <= width <= 0x7fff_ffff,
            tile.p_min.y <= y <= tile.p_max.y,
            (film.values(), sampler) == tile_rendered(
                integrator,
                scene,
                camera,
                source,
                settings,
                tile,
                (y - tile.p_min.y) * width,
            ),
            forall|q: Point2i|
                inside(q, tile) ==> (#[trigger] film.value_at(q)).count <= (if q.y < y {
                    settings.samples_per_pixel as int
                } else {
                    0
                }),
        decreases tile.p_max.y - y,
    {
        let mut x: i32 = tile.p_min.x;
        while x < tile.p_max.x
            invariant
                integrator.ready(scene),
                film.wf(),
                film.bounds == tile,
                width == width_of(tile),
                0 <= width <= 0x7fff_ffff,
                tile.p_min.y <= y < tile.p_max.y,
                tile.p_min.x <= x <= tile.p_max.x,
                (film.values(), sampler) == tile_rendered(
                    integrator,
                    scene,
                    camera,
                    source,
                    settings,
                    tile,
                    (y - tile.p_min.y) * width + (x - tile.p_min.x),
                ),
                forall|q: Point2i|
                    inside(q, tile) ==> (#[trigger] film.value_at(q)).count <= (if q.y < y || (q.y
                        == y && q.x < x) {
                        settings.samples_per_pixel as int
                    } else {
                        0
                    }),
            decreases tile.p_max.x - x,
        {
            let p: Point2i = Point2i { x, y };
            proof {
                lemma_pixel_at_place(tile, p);
            }
            assert(film.value_at(p).count <= 0);
            render_pixel(
                integrator,
                scene,
                camera,
                settings.luminance_clamp,
                &mut film,
                p,
                &mut sampler,
                settings.samples_per_pixel,
            );
            x = x + 1;
        }
        proof {
            assert((y - tile.p_min.y) * width + (tile.p_max.x - tile.p_min.x) == (y + 1
                - tile.p_min.y) * width) by (nonlinear_arith)
                requires
                    width == tile.p_max.x - tile.p_min.x,
            ;
        }
        y = y + 1;
    }
    proof {
        assert((tile.p_max.y - tile.p_min.y) * width == width_of(tile) * height_of(tile))
            by (nonlinear_arith)
            requires
                width == width_of(tile),
                height_of(tile) == tile.p_max.y - tile.p_min.y,
        ;
    }
    film
}

/// Renders the tiles that are left in the queue, in their order, and merges
/// each into the film of the image. Nothing is rendered where the work has
/// been stopped.
pub fn render<S: Scene, C: Camera, Src: SamplerSource>(
    integrator: &Integrator,
    scene: &S,
    camera: &C,
    source: &Src,
    settings: RenderSettings,
    grid: &TileGrid,
    queue: &mut TileQueue,
    film: &mut Film,
)
    requires
        integrator.ready(scene),
        grid.wf(),
        old(queue).wf(),
        old(queue).total == grid.count(),
        old(film).wf(),
        old(film).bounds == grid.bounds,
        forall|p: Point2i|
            inside(p, grid.bounds) ==> (#[trigger] old(film).value_at(p)).count
                + settings.samples_per_pixel <= 0xffff_ffff_ffff_ffff,
    ensures
        final(film).wf(),
        final(film).bounds == old(film).bounds,
        final(queue).stopped == old(queue).stopped,
        final(queue).total == old(queue).total,
        final(queue).next == (if old(queue).stopped {
            old(queue).next
        } else {
            old(queue).total
        }),
        forall|p: Point2i|
            inside(p, grid.bounds) ==> #[trigger] final(film).value_at(p) == (if !old(queue).stopped
                && old(queue).next <= grid.tile_of(p) {
                combined(
                    old(film).value_at(p),
                    tile_image(
                        integrator,
                        scene,
                        camera,
                        source,
                        settings,
                        grid.tile(grid.tile_of(p)),
                    )[place(grid.tile(grid.tile_of(p)), p)],
                )
            } else {
                old(film).value_at(p)
            }),
{
    loop
        invariant
            integrator.ready(scene),
            grid.wf(),
            queue.wf(),
            queue.total == grid.count(),
            queue.stopped == old(queue).stopped,
            queue.total == old(queue).total,
            old(queue).next <= queue.next,
            old(queue).stopped ==> queue.next == old(queue).next,
            film.wf(),
            film.bounds == grid.bounds,
            forall|p: Point2i|
                inside(p, grid.bounds) ==> (#[trigger] old(film).value_at(p)).count
                    + settings.samples_per_pixel <= 0xffff_ffff_ffff_ffff,
            forall|p: Point2i|
                inside(p, grid.bounds) ==> #[trigger] film.value_at(p) == (if old(queue).next
                    <= grid.tile_of(p) < queue.next {
                    combined(
                        old(film).value_at(p),
                        tile_image(
                            integrator,
                            scene,
                            camera,
                            source,
                            settings,
                            grid.tile(grid.tile_of(p)),
                        )[place(grid.tile(grid.tile_of(p)), p)],
                    )
                } else {
                    old(film).value_at(p)
                }),
        ensures
            queue.next == (if old(queue).stopped {
                old(queue).next
            } else {
                old(queue).total
            }),
        decreases queue.total - queue.next,
    {
        let claimed: Option<u64> = queue.claim();
        match claimed {
            None => {
                break ;
            },
            Some(index) => {
                let tile: Bounds2i = grid.tile_bounds(index);
                proof {
                    grid.lemma_tile_inside(index as int);
                    lemma_tile_fits(film, tile);
                }
                let rendered: Film = render_tile(integrator, scene, camera, source, settings, tile);
                let ghost before = *film;
                proof {
                    assert forall|p: Point2i| inside(p, tile) implies film.value_at(p).count + (
                    #[trigger] rendered.value_at(p)).count <= 0xffff_ffff_ffff_ffff by {
                        grid.lemma_tiles_partition(p, index as int);
                        assert(film.value_at(p) == old(film).value_at(p));
                    }
                }
                film.merge(&rendered);
                proof {
                    assert forall|p: Point2i| inside(p, grid.bounds) implies #[trigger] film.value_at(
                        p,
                    ) == (if old(queue).next <= grid.tile_of(p) < index + 1 {
                        combined(
                            old(film).value_at(p),
                            tile_image(
                                integrator,
                                scene,
                                camera,
                                source,
                                settings,
                                grid.tile(grid.tile_of(p)),
                            )[place(grid.tile(grid.tile_of(p)), p)],
                        )
                    } else {
                        old(film).value_at(p)
                    }) by {
                        grid.lemma_tiles_partition(p, index as int);
                        assert(before.value_at(p) == before.value_at(p));
                        if inside(p, tile) {
                            lemma_place_in_range(tile, p);
                            assert(rendered.value_at(p) == rendered.values()[place(tile, p)]);
                        }
                    }
                }
            },
        }
    }
    proof {
        assert forall|p: Point2i| inside(p, grid.bounds) implies old(queue).next <= grid.tile_of(p)
            < queue.next <==> !old(queue).stopped && old(queue).next <= grid.tile_of(p) by {
            if grid.count() > 0 {
                grid.lemma_tiles_partition(p, 0);
            } else {
                crate::tiles::lemma_no_tiles_no_pixels(*grid, p);
            }
        }
    }
}

/// A rectangle inside the rectangle of a film has no more pixels than the
/// film.
proof fn lemma_tile_fits(film: &Film, tile: Bounds2i)
    requires
        film.wf(),
        film.bounds.p_min.x <= tile.p_min.x <= tile.p_max.x <= film.bounds.p_max.x,
        film.bounds.p_min.y <= tile.p_min.y <= tile.p_max.y <= film.bounds.p_max.y,
    ensures
        width_of(tile) * height_of(tile) <= film.pixels@.len(),
        film.pixels@.len() <= usize::MAX,
{
    assert(width_of(tile) * height_of(tile) <= width_of(film.bounds) * height_of(film.bounds))
        by (nonlinear_arith)
        requires
            0 <= width_of(tile) <= width_of(film.bounds),
            0 <= height_of(tile) <= height_of(film.bounds),
    ;
    let n = film.pixels.len();
}

/// The pixels of an image after the tiles named in the first `upto` places
/// of `order` have been merged into them, in that order; `buffers` gives the
/// pixels that each tile holds.
pub open spec fn merged_in_order(
    values: Seq<PixelValue>,
    grid: TileGrid,
    buffers: spec_fn(int) -> Seq<PixelValue>,
    order: Seq<int>,
    upto: int,
) -> Seq<PixelValue>
    decreases upto,
{
    if upto <= 0 {
        values
    } else {
        merged(
            merged_in_order(values, grid, buffers, order, upto - 1),
            grid.bounds,
            buffers(order[upto - 1]),
            grid.tile(order[upto - 1]),
        )
    }
}

/// Whether `order` names tiles of the grid, and none twice.
pub open spec fn visits_once(grid: TileGrid, order: Seq<int>) -> bool {
    &&& forall|j: int| 0 <= j < order.len() ==> 0 <= #[trigger] order[j] < grid.count()
    &&& forall|j: int, k: int| 0 <= j < k < order.len() ==> order[j] != order[k]
}

/// Whether the tile `t` stands in one of the first `upto` places of `order`.
pub open spec fn visited(order: Seq<int>, upto: int, t: int) -> bool {
    exists|j: int| 0 <= j < upto && #[trigger] order[j] == t
}

/// After any number of tiles have been merged, each once, a pixel holds what
/// it held before, put together with the pixel of its own tile if that tile
/// is among them: what a pixel holds says nothing of the order of the
/// tiles.
pub proof fn lemma_merged_pixel(
    values: Seq<PixelValue>,
    grid: TileGrid,
    buffers: spec_fn(int) -> Seq<PixelValue>,
    order: Seq<int>,
    upto: int,
    i: int,
)
    requires
        grid.wf(),
        values.len() == width_of(grid.bounds) * height_of(grid.bounds),
        visits_once(grid, order),
        0 <= upto <= order.len(),
        0 <= i < values.len(),
    ensures
        merged_in_order(values, grid, buffers, order, upto).len() == values.len(),
        merged_in_order(values, grid, buffers, order, upto)[i] == ({
            let p = pixel_at(grid.bounds, i);
            let t = grid.tile_of(p);
            if visited(order, upto, t) {
                combined(values[i], buffers(t)[place(grid.tile(t), p)])
            } else {
                values[i]
            }
        }),
    decreases upto,
{
    let p = pixel_at(grid.bounds, i);
    let own = grid.tile_of(p);
    lemma_pixel_at_inside(grid.bounds, i);
    if upto > 0 {
        lemma_merged_pixel(values, grid, buffers, order, upto - 1, i);
        let t = order[upto - 1];
        grid.lemma_tiles_partition(p, t);
        if t == own {
            // the tile has not been merged before
            if visited(order, upto - 1, own) {
                let j = choose|j: int| 0 <= j < upto - 1 && #[trigger] order[j] == own;
                assert(order[j] != order[upto - 1]);
            }
            assert(visited(order, upto, own)) by {
                assert(order[upto - 1] == own);
            }
        } else {
            if visited(order, upto, own) {
                let j = choose|j: int| 0 <= j < upto && #[trigger] order[j] == own;
                assert(j < upto - 1);
                assert(visited(order, upto - 1, own));
            }
            if visited(order, upto - 1, own) {
                let j = choose|j: int| 0 <= j < upto - 1 && #[trigger] order[j] == own;
                assert(visited(order, upto, own));
            }
        }
    }
}

/// The image does not depend on the order in which the tiles are merged:
/// two orders that take the same tiles, each once, give the same pixels.
/// Since a tile holds what `tile_image` says, whoever renders it and
/// whenever, the image does not depend on the number of workers either.
pub proof fn lemma_order_does_not_matter(
    values: Seq<PixelValue>,
    grid: TileGrid,
    buffers: spec_fn(int) -> Seq<PixelValue>,
    first: Seq<int>,
    second: Seq<int>,
)
    requires
        grid.wf(),
        values.len() == width_of(grid.bounds) * height_of(grid.bounds),
        visits_once(grid, first),
        visits_once(grid, second),
        forall|t: int|
            visited(first, first.len() as int, t) <==> visited(second, second.len() as int, t),
    ensures
        merged_in_order(values, grid, buffers, first, first.len() as int) == merged_in_order(
            values,
            grid,
            buffers,
            second,
            second.len() as int,
        ),
{
    let a = merged_in_order(values, grid, buffers, first, first.len() as int);
    let b = merged_in_order(values, grid, buffers, second, second.len() as int);
    lemma_merged_len(values, grid, buffers, first, first.len() as int);
    lemma_merged_len(values, grid, buffers, second, second.len() as int);
    assert forall|i: int| 0 <= i < values.len() implies #[trigger] a[i] == b[i] by {
        lemma_merged_pixel(values, grid, buffers, first, first.len() as int, i);
        lemma_merged_pixel(values, grid, buffers, second, second.len() as int, i);
    }
    assert(a =~= b);
}

/// Merging keeps the number of pixels.
proof fn lemma_merged_len(
    values: Seq<PixelValue>,
    grid: TileGrid,
    buffers: spec_fn(int) -> Seq<PixelValue>,
    order: Seq<int>,
    upto: int,
)
    ensures
        merged_in_order(values, grid, buffers, order, upto).len() == values.len(),
    decreases upto,
{
    if upto > 0 {
        lemma_merged_len(values, grid, buffers, order, upto - 1);
    }
}

} // verus!
