use rs_pbrt::film::{is_acceptable, Film, Pixel};
use rs_pbrt::float::Float;
use rs_pbrt::geometry::{Bounds2i, Point2i};
use rs_pbrt::spectrum::RGBSpectrum;

fn num(x: f32) -> Float {
    Float::from_bits(x.to_bits())
}

fn rgb(r: f32, g: f32, b: f32) -> RGBSpectrum {
    RGBSpectrum::rgb(num(r), num(g), num(b))
}

fn rect(x0: i32, y0: i32, x1: i32, y1: i32) -> Bounds2i {
    Bounds2i { p_min: Point2i { x: x0, y: y0 }, p_max: Point2i { x: x1, y: y1 } }
}

fn at(x: i32, y: i32) -> Point2i {
    Point2i { x, y }
}

fn held(film: &Film, x: i32, y: i32) -> ([u32; 3], u64) {
    let px = film.get(at(x, y));
    ([px.sum.c[0].to_bits(), px.sum.c[1].to_bits(), px.sum.c[2].to_bits()], px.count)
}

fn encoded(r: f32, g: f32, b: f32) -> [u32; 3] {
    [r.to_bits(), g.to_bits(), b.to_bits()]
}

#[test]
fn samples_are_accepted_unless_invalid() {
    let clamp = num(10.0);
    assert!(is_acceptable(&rgb(0.0, 0.0, 0.0), clamp));
    assert!(is_acceptable(&rgb(1.0, 2.0, 3.0), clamp));
    assert!(is_acceptable(&rgb(-0.0, 2.0, 3.0), clamp));
    assert!(is_acceptable(&rgb(10.0, 10.0, 10.0), num(10.1)));
    assert!(!is_acceptable(&rgb(f32::NAN, 2.0, 3.0), clamp));
    assert!(!is_acceptable(&rgb(1.0, f32::NAN, 3.0), clamp));
    assert!(!is_acceptable(&rgb(1.0, 2.0, f32::NAN), clamp));
    assert!(!is_acceptable(&rgb(-1.0e-30, 2.0, 3.0), clamp));
    assert!(!is_acceptable(&rgb(1.0, 2.0, -3.0), clamp));
    assert!(!is_acceptable(&rgb(1.0, 20.0, 3.0), clamp));
    assert!(!is_acceptable(&rgb(f32::INFINITY, 0.0, 0.0), clamp));
    assert!(!is_acceptable(&rgb(3.0e38, 3.0e38, 3.0e38), num(2.0e38)));
    assert!(is_acceptable(&rgb(0.0, 0.0, 3.0e38), num(f32::MAX)));
    // a clamp that is no number exceeds nothing
    assert!(is_acceptable(&rgb(1.0, 2.0, 3.0), num(f32::NAN)));
}

#[test]
fn a_pixel_sums_its_samples_and_counts_them() {
    let mut px = Pixel::new();
    assert_eq!(px.count, 0);
    px.add_sample(&rgb(0.1, 0.2, 0.3));
    px.add_sample(&rgb(0.4, 0.5, 0.6));
    px.add_sample(&rgb(0.7, 0.8, 0.9));
    assert_eq!(px.count, 3);
    let sum = [0.0f32 + 0.1 + 0.4 + 0.7, 0.0f32 + 0.2 + 0.5 + 0.8, 0.0f32 + 0.3 + 0.6 + 0.9];
    assert_eq!([px.sum.c[0].to_bits(), px.sum.c[1].to_bits(), px.sum.c[2].to_bits()], encoded(sum[0], sum[1], sum[2]));
    let mean = px.mean();
    assert_eq!(mean.c[0].to_bits(), (sum[0] / 3.0).to_bits());
    assert_eq!(mean.c[2].to_bits(), (sum[2] / 3.0).to_bits());
}

#[test]
fn a_film_keeps_each_pixel_apart() {
    let mut film = Film::new(rect(-2, 3, 2, 6));
    assert_eq!(film.pixels.len(), 12);
    film.add_sample(at(-2, 3), &rgb(1.0, 0.0, 0.0));
    film.add_sample(at(1, 5), &rgb(0.0, 1.0, 0.0));
    film.add_sample(at(1, 5), &rgb(0.0, 2.0, 0.5));
    assert_eq!(held(&film, -2, 3), (encoded(1.0, 0.0, 0.0), 1));
    assert_eq!(held(&film, 1, 5), (encoded(0.0, 3.0, 0.5), 2));
    assert_eq!(held(&film, 0, 4), (encoded(0.0, 0.0, 0.0), 0));
    assert_eq!(film.pixels[0].count, 1);
    assert_eq!(film.pixels[11].count, 2);
}

#[test]
fn merging_a_tile_touches_its_pixels_only() {
    let mut film = Film::new(rect(0, 0, 6, 4));
    film.add_sample(at(2, 1), &rgb(0.25, 0.25, 0.25));
    film.add_sample(at(5, 3), &rgb(9.0, 9.0, 9.0));
    let mut tile = Film::new(rect(2, 1, 4, 3));
    tile.add_sample(at(2, 1), &rgb(0.5, 1.0, 1.5));
    tile.add_sample(at(3, 2), &rgb(0.125, 0.0, 0.0));
    tile.add_sample(at(3, 2), &rgb(0.125, 0.0, 0.0));
    film.merge(&tile);
    assert_eq!(held(&film, 2, 1), (encoded(0.75, 1.25, 1.75), 2));
    assert_eq!(held(&film, 3, 2), (encoded(0.25, 0.0, 0.0), 2));
    assert_eq!(held(&film, 3, 1), (encoded(0.0, 0.0, 0.0), 0));
    assert_eq!(held(&film, 5, 3), (encoded(9.0, 9.0, 9.0), 1));
    assert_eq!(held(&film, 0, 0), (encoded(0.0, 0.0, 0.0), 0));
}

#[test]
fn a_tile_merged_into_an_untouched_image_equals_direct_accumulation() {
    let samples = [
        (at(4, 4), rgb(0.1, 0.7, 0.3)),
        (at(5, 4), rgb(1.0e-3, 2.5, 0.0)),
        (at(4, 4), rgb(0.3, 0.3, 1.0e10)),
        (at(4, 5), rgb(-0.0, 0.2, 0.9)),
        (at(5, 4), rgb(0.6, 1.0e-20, 0.125)),
        (at(4, 4), rgb(0.05, 0.1, 7.0)),
    ];
    let mut direct = Film::new(rect(0, 0, 8, 8));
    let mut tile = Film::new(rect(4, 4, 6, 6));
    for (p, l) in &samples {
        direct.add_sample(*p, l);
        tile.add_sample(*p, l);
    }
    let mut merged = Film::new(rect(0, 0, 8, 8));
    merged.merge(&tile);
    for y in 0..8 {
        for x in 0..8 {
            assert_eq!(held(&merged, x, y), held(&direct, x, y));
        }
    }
}

#[test]
fn disjoint_tiles_merge_in_any_order() {
    let mut a = Film::new(rect(0, 0, 2, 2));
    a.add_sample(at(1, 1), &rgb(0.1, 0.2, 0.3));
    a.add_sample(at(0, 1), &rgb(0.7, 0.7, 0.7));
    let mut b = Film::new(rect(2, 0, 4, 2));
    b.add_sample(at(2, 0), &rgb(0.4, 0.5, 0.6));
    let mut first = Film::new(rect(0, 0, 4, 2));
    first.merge(&a);
    first.merge(&b);
    let mut second = Film::new(rect(0, 0, 4, 2));
    second.merge(&b);
    second.merge(&a);
    for y in 0..2 {
        for x in 0..4 {
            assert_eq!(held(&first, x, y), held(&second, x, y));
        }
    }
}
