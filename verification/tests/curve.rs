use rs_pbrt::curve::{blossom_bezier, CurveType};
use rs_pbrt::float::Float;
use rs_pbrt::geometry::{pnt3_lerp, vec3_abs_dot_nrm, vec3_dot_nrm, Normal3f, Point3f, Vector3f};

fn num(x: f32) -> Float {
    Float::from_bits(x.to_bits())
}

fn plain(a: Float) -> f32 {
    f32::from_bits(a.to_bits())
}

fn point(p: [f32; 3]) -> Point3f {
    Point3f { x: num(p[0]), y: num(p[1]), z: num(p[2]) }
}

fn coordinates(p: &Point3f) -> [f32; 3] {
    [plain(p.x), plain(p.y), plain(p.z)]
}

fn native_lerp(t: f32, a: [f32; 3], b: [f32; 3]) -> [f32; 3] {
    [a[0] * (1.0 - t) + b[0] * t, a[1] * (1.0 - t) + b[1] * t, a[2] * (1.0 - t) + b[2] * t]
}

const CONTROL: [[f32; 3]; 4] = [[0.0, 0.0, 0.0], [1.0, 2.0, 0.5], [3.0, 2.5, -1.0], [4.0, 0.0, 0.25]];

#[test]
fn points_interpolate_coordinate_by_coordinate() {
    for t in [0.0f32, 0.25, 0.5, 1.0, -0.5, 1.5] {
        let got = pnt3_lerp(num(t), point(CONTROL[1]), point(CONTROL[2]));
        assert_eq!(coordinates(&got), native_lerp(t, CONTROL[1], CONTROL[2]));
    }
}

#[test]
fn the_blossom_interpolates_three_times() {
    let p = [point(CONTROL[0]), point(CONTROL[1]), point(CONTROL[2]), point(CONTROL[3])];
    for (u0, u1, u2) in [(0.0f32, 0.0f32, 0.0f32), (1.0, 1.0, 1.0), (0.5, 0.5, 0.5), (0.2, 0.2, 0.9), (0.1, 0.6, 0.6)] {
        let a = [
            native_lerp(u0, CONTROL[0], CONTROL[1]),
            native_lerp(u0, CONTROL[1], CONTROL[2]),
            native_lerp(u0, CONTROL[2], CONTROL[3]),
        ];
        let b = [native_lerp(u1, a[0], a[1]), native_lerp(u1, a[1], a[2])];
        let want = native_lerp(u2, b[0], b[1]);
        assert_eq!(coordinates(&blossom_bezier(&p, num(u0), num(u1), num(u2))), want);
    }
}

#[test]
fn the_blossom_at_the_ends_gives_the_end_points() {
    let p = [point(CONTROL[0]), point(CONTROL[1]), point(CONTROL[2]), point(CONTROL[3])];
    assert_eq!(coordinates(&blossom_bezier(&p, num(0.0), num(0.0), num(0.0))), CONTROL[0]);
    assert_eq!(coordinates(&blossom_bezier(&p, num(1.0), num(1.0), num(1.0))), CONTROL[3]);
}

#[test]
fn curve_types_compare() {
    assert_eq!(CurveType::Flat, CurveType::Flat);
    assert_ne!(CurveType::Cylinder, CurveType::Ribbon);
}

#[test]
fn dot_products_sum_from_the_left() {
    let v = Vector3f { x: num(0.3), y: num(-0.2), z: num(0.933) };
    let n = Normal3f { x: num(0.05), y: num(-0.02), z: num(-0.998) };
    let want = 0.3f32 * 0.05 + -0.2f32 * -0.02 + 0.933f32 * -0.998;
    assert_eq!(vec3_dot_nrm(&v, &n).to_bits(), want.to_bits());
    assert_eq!(vec3_abs_dot_nrm(&v, &n).to_bits(), want.abs().to_bits());
}
