use rs_pbrt::cie::{CIE_X, CIE_Y, CIE_Y_INTEGRAL, CIE_Z};
use rs_pbrt::float::Float;
use rs_pbrt::spectrum::{
    interpolate_spectrum_samples, lerp_rgb, rgb_to_xyz, spectrum_samples_sorted, xyz_to_rgb,
    RGBSpectrum, SpectrumType,
};

fn num(x: f32) -> Float {
    Float::from_bits(x.to_bits())
}

fn plain(a: Float) -> f32 {
    f32::from_bits(a.to_bits())
}

fn triple(a: [f32; 3]) -> [Float; 3] {
    [num(a[0]), num(a[1]), num(a[2])]
}

fn spectrum(a: [f32; 3]) -> RGBSpectrum {
    RGBSpectrum::from_rgb(&triple(a))
}

fn encodings(s: &RGBSpectrum) -> [u32; 3] {
    [s.c[0].to_bits(), s.c[1].to_bits(), s.c[2].to_bits()]
}

fn encoded(a: [f32; 3]) -> [u32; 3] {
    [a[0].to_bits(), a[1].to_bits(), a[2].to_bits()]
}

fn numbers(a: &[f32]) -> Vec<Float> {
    a.iter().map(|x| num(*x)).collect()
}

const COLOURS: [[f32; 3]; 6] = [
    [0.0, 0.0, 0.0],
    [1.0, 1.0, 1.0],
    [0.25, 0.5, 0.75],
    [0.9131, 0.00271, 17.25],
    [-0.3, 1.0e-30, 3.0e20],
    [123456.79, 0.333333, 1.0e-41],
];

#[test]
fn rgb_to_xyz_is_the_matrix_product() {
    for rgb in COLOURS {
        let mut xyz = triple([0.0; 3]);
        rgb_to_xyz(&triple(rgb), &mut xyz);
        let want = [
            0.412453 * rgb[0] + 0.357580 * rgb[1] + 0.180423 * rgb[2],
            0.212671 * rgb[0] + 0.715160 * rgb[1] + 0.072169 * rgb[2],
            0.019334 * rgb[0] + 0.119193 * rgb[1] + 0.950227 * rgb[2],
        ];
        assert_eq!([xyz[0].to_bits(), xyz[1].to_bits(), xyz[2].to_bits()], encoded(want));
    }
}

#[test]
fn xyz_to_rgb_is_the_matrix_product() {
    for xyz in COLOURS {
        let mut rgb = triple([0.0; 3]);
        xyz_to_rgb(&triple(xyz), &mut rgb);
        let want = [
            3.240479 * xyz[0] - 1.537150 * xyz[1] - 0.498535 * xyz[2],
            -0.969256 * xyz[0] + 1.875991 * xyz[1] + 0.041556 * xyz[2],
            0.055648 * xyz[0] - 0.204043 * xyz[1] + 1.057311 * xyz[2],
        ];
        assert_eq!([rgb[0].to_bits(), rgb[1].to_bits(), rgb[2].to_bits()], encoded(want));
    }
}

#[test]
fn white_has_unit_luminance_up_to_rounding() {
    let y = plain(RGBSpectrum::new(num(1.0)).y());
    assert_eq!(y.to_bits(), (0.212671f32 * 1.0 + 0.715160 * 1.0 + 0.072169 * 1.0).to_bits());
    assert!((y - 1.0).abs() < 1.0e-6);
}

#[test]
fn luminance_is_the_weighted_sum() {
    for c in COLOURS {
        let want = 0.212671f32 * c[0] + 0.715160 * c[1] + 0.072169 * c[2];
        assert_eq!(spectrum(c).y().to_bits(), want.to_bits());
    }
}

#[test]
fn to_xyz_and_from_xyz_go_through_the_matrices() {
    let s = spectrum([0.25, 0.5, 0.75]);
    let mut xyz = triple([0.0; 3]);
    s.to_xyz(&mut xyz);
    let mut direct = triple([0.0; 3]);
    rgb_to_xyz(&s.c, &mut direct);
    assert_eq!(xyz[1].to_bits(), direct[1].to_bits());
    let back = RGBSpectrum::from_xyz(&xyz, SpectrumType::Reflectance);
    let mut rgb = triple([0.0; 3]);
    xyz_to_rgb(&xyz, &mut rgb);
    assert_eq!(encodings(&back), [rgb[0].to_bits(), rgb[1].to_bits(), rgb[2].to_bits()]);
    for i in 0..3 {
        assert!((plain(back.c[i]) - plain(s.c[i])).abs() < 1.0e-5);
    }
}

#[test]
fn constructors_place_the_coefficients() {
    assert_eq!(encodings(&RGBSpectrum::new(num(0.5))), encoded([0.5, 0.5, 0.5]));
    assert_eq!(encodings(&RGBSpectrum::from(num(0.5))), encoded([0.5, 0.5, 0.5]));
    assert_eq!(encodings(&RGBSpectrum::rgb(num(1.0), num(2.0), num(3.0))), encoded([1.0, 2.0, 3.0]));
    assert_eq!(encodings(&RGBSpectrum::default()), [0, 0, 0]);
    assert_eq!(encodings(&RGBSpectrum::zero()), [0, 0, 0]);
    let s = spectrum([1.0, 2.0, 3.0]);
    let mut out = triple([0.0; 3]);
    s.to_rgb(&mut out);
    assert_eq!([out[0].to_bits(), out[1].to_bits(), out[2].to_bits()], encoded([1.0, 2.0, 3.0]));
    assert_eq!(s.index(0).to_bits(), 1.0f32.to_bits());
    assert_eq!(s.index(2).to_bits(), 3.0f32.to_bits());
}

#[test]
fn black_is_all_zeros_of_either_sign() {
    assert!(spectrum([0.0, 0.0, 0.0]).is_black());
    assert!(spectrum([0.0, -0.0, 0.0]).is_black());
    assert!(spectrum([-0.0, -0.0, -0.0]).is_zero());
    assert!(!spectrum([0.0, 1.0e-45, 0.0]).is_black());
    assert!(!spectrum([0.0, 0.0, f32::NAN]).is_black());
    assert!(!spectrum([1.0, 0.0, 0.0]).is_zero());
}

#[test]
fn nans_are_found_in_any_place() {
    assert!(!spectrum([0.0, 1.0, f32::INFINITY]).has_nans());
    assert!(spectrum([f32::NAN, 1.0, 2.0]).has_nans());
    assert!(spectrum([0.0, f32::NAN, 2.0]).has_nans());
    assert!(spectrum([0.0, 1.0, f32::NAN]).has_nans());
}

#[test]
fn clamp_holds_each_coefficient_between_the_bounds() {
    let s = spectrum([-1.0, 0.5, 7.0]).clamp(num(0.0), num(1.0));
    assert_eq!(encodings(&s), encoded([0.0, 0.5, 1.0]));
    let s = spectrum([-1.0, 0.5, 7.0]).clamp(num(0.0), num(f32::INFINITY));
    assert_eq!(encodings(&s), encoded([0.0, 0.5, 7.0]));
}

#[test]
fn max_component_is_the_largest() {
    assert_eq!(plain(spectrum([1.0, 3.0, 2.0]).max_component_value()), 3.0);
    assert_eq!(plain(spectrum([5.0, 3.0, 2.0]).max_component_value()), 5.0);
    assert_eq!(plain(spectrum([-5.0, -3.0, -2.0]).max_component_value()), -2.0);
    assert_eq!(plain(spectrum([f32::NAN, 3.0, 2.0]).max_component_value()), 3.0);
    assert_eq!(plain(spectrum([1.0, f32::NAN, 2.0]).max_component_value()), 2.0);
}

#[test]
fn equality_is_that_of_numbers() {
    assert!(spectrum([1.0, 2.0, 3.0]).eq(&spectrum([1.0, 2.0, 3.0])));
    assert!(spectrum([0.0, 2.0, 3.0]).eq(&spectrum([-0.0, 2.0, 3.0])));
    assert!(!spectrum([1.0, 2.0, 3.0]).eq(&spectrum([1.0, 2.0, 3.5])));
    assert!(!spectrum([f32::NAN, 2.0, 3.0]).eq(&spectrum([f32::NAN, 2.0, 3.0])));
}

#[test]
fn arithmetic_works_coefficient_by_coefficient() {
    for a in COLOURS {
        for b in COLOURS {
            let (p, q) = (spectrum(a), spectrum(b));
            assert_eq!(encodings(&p.add(q)), encoded([a[0] + b[0], a[1] + b[1], a[2] + b[2]]));
            assert_eq!(encodings(&p.sub(q)), encoded([a[0] - b[0], a[1] - b[1], a[2] - b[2]]));
            assert_eq!(encodings(&p.mul(q)), encoded([a[0] * b[0], a[1] * b[1], a[2] * b[2]]));
            assert_eq!(encodings(&p.scale(q.c[1])), encoded([a[0] * b[1], a[1] * b[1], a[2] * b[1]]));
            let quotient = p.div(q);
            for i in 0..3 {
                let want = a[i] / b[i];
                if want.is_nan() {
                    assert!(quotient.c[i].is_nan());
                } else {
                    assert_eq!(quotient.c[i].to_bits(), want.to_bits());
                }
            }
            let mut r = p;
            r.add_assign(q);
            assert_eq!(encodings(&r), encodings(&p.add(q)));
            let mut r = p;
            r.mul_assign(q);
            assert_eq!(encodings(&r), encodings(&p.mul(q)));
        }
        assert_eq!(encodings(&spectrum(a).neg()), encoded([-a[0], -a[1], -a[2]]));
    }
    let halved = spectrum([1.0, 3.0, 5.0]).div_scalar(num(2.0));
    assert_eq!(encodings(&halved), encoded([0.5, 1.5, 2.5]));
}

#[test]
fn lerp_rgb_blends_two_spectra() {
    let (a, b) = ([0.25f32, 0.5, 0.75], [4.0f32, 3.0, 0.1]);
    for t in [0.0f32, 0.3, 0.5, 1.0, 1.7] {
        let got = lerp_rgb(num(t), &spectrum(a), &spectrum(b));
        let want = [
            a[0] * (1.0 - t) + b[0] * t,
            a[1] * (1.0 - t) + b[1] * t,
            a[2] * (1.0 - t) + b[2] * t,
        ];
        assert_eq!(encodings(&got), encoded(want));
    }
}

#[test]
fn sortedness_is_that_of_the_wavelengths() {
    let vals = numbers(&[0.0, 0.0, 0.0, 0.0]);
    assert!(spectrum_samples_sorted(&numbers(&[400.0, 500.0, 600.0, 700.0]), &vals, 4));
    assert!(spectrum_samples_sorted(&numbers(&[400.0, 500.0, 500.0, 700.0]), &vals, 4));
    assert!(!spectrum_samples_sorted(&numbers(&[400.0, 600.0, 500.0, 700.0]), &vals, 4));
    assert!(spectrum_samples_sorted(&numbers(&[400.0, 600.0, 500.0, 700.0]), &vals, 2));
    assert!(spectrum_samples_sorted(&numbers(&[400.0]), &vals, 1));
    assert!(spectrum_samples_sorted(&numbers(&[400.0]), &vals, 0));
}

fn native_interpolate(lambda: &[f32], vals: &[f32], l: f32) -> f32 {
    let n = lambda.len();
    if l <= lambda[0] {
        return vals[0];
    }
    if l >= lambda[n - 1] {
        return vals[n - 1];
    }
    let mut offset = 0;
    for i in 0..n - 1 {
        if lambda[i] <= l {
            offset = i;
        }
    }
    let t = (l - lambda[offset]) / (lambda[offset + 1] - lambda[offset]);
    (1.0 - t) * vals[offset] + t * vals[offset + 1]
}

#[test]
fn interpolation_is_piecewise_linear() {
    let lambda = [400.0f32, 450.0, 525.0, 600.0, 700.0];
    let vals = [0.1f32, 0.9, 0.3, 0.35, 2.0];
    let (l, v) = (numbers(&lambda), numbers(&vals));
    assert_eq!(plain(interpolate_spectrum_samples(&l, &v, 5, num(300.0))), 0.1);
    assert_eq!(plain(interpolate_spectrum_samples(&l, &v, 5, num(400.0))), 0.1);
    assert_eq!(plain(interpolate_spectrum_samples(&l, &v, 5, num(700.0))), 2.0);
    assert_eq!(plain(interpolate_spectrum_samples(&l, &v, 5, num(900.0))), 2.0);
    assert_eq!(plain(interpolate_spectrum_samples(&l, &v, 5, num(425.0))), 0.5);
    assert_eq!(plain(interpolate_spectrum_samples(&l, &v, 5, num(450.0))), 0.9);
    assert_eq!(plain(interpolate_spectrum_samples(&l, &v, 1, num(425.0))), 0.1);
    let mut x = 390.0f32;
    while x < 710.0 {
        let got = interpolate_spectrum_samples(&l, &v, 5, num(x));
        assert_eq!(got.to_bits(), native_interpolate(&lambda, &vals, x).to_bits(), "at {}", x);
        x += 0.37;
    }
}

#[test]
fn the_tables_hold_the_standard_observer() {
    assert_eq!(CIE_X[0], 0.0001299000f32.to_bits());
    assert_eq!(CIE_X[470], 0.000001251141f32.to_bits());
    assert_eq!(CIE_Y[0], 0.000003917000f32.to_bits());
    assert_eq!(CIE_Y[195], 1.0f32.to_bits());
    assert_eq!(CIE_Z[0], 0.0006061000f32.to_bits());
    assert_eq!(CIE_Y_INTEGRAL, 106.856895f32.to_bits());
    let mut sum = 0.0f64;
    for y in CIE_Y {
        sum += f32::from_bits(y) as f64;
    }
    assert!((sum - 106.856895).abs() < 1.0e-3);
}

fn native_from_sampled(lambda: &[f32], vals: &[f32]) -> [f32; 3] {
    let mut xyz = [0.0f32; 3];
    for i in 0..471 {
        let val = native_interpolate(lambda, vals, 360.0 + i as f32);
        xyz[0] += val * f32::from_bits(CIE_X[i]);
        xyz[1] += val * f32::from_bits(CIE_Y[i]);
        xyz[2] += val * f32::from_bits(CIE_Z[i]);
    }
    let scale = (830.0f32 - 360.0f32) / (106.856895f32 * 471.0f32);
    xyz[0] *= scale;
    xyz[1] *= scale;
    xyz[2] *= scale;
    [
        3.240479 * xyz[0] - 1.537150 * xyz[1] - 0.498535 * xyz[2],
        -0.969256 * xyz[0] + 1.875991 * xyz[1] + 0.041556 * xyz[2],
        0.055648 * xyz[0] - 0.204043 * xyz[1] + 1.057311 * xyz[2],
    ]
}

#[test]
fn from_sampled_integrates_against_the_observer() {
    let lambda = [380.0f32, 450.0, 525.5, 600.0, 780.0];
    let vals = [0.1f32, 0.9, 0.3, 0.35, 2.0];
    let got = RGBSpectrum::from_sampled(&numbers(&lambda), &numbers(&vals), 5);
    assert_eq!(encodings(&got), encoded(native_from_sampled(&lambda, &vals)));
}

#[test]
fn a_flat_spectrum_is_nearly_white() {
    let lambda = [300.0f32, 900.0];
    let vals = [1.0f32, 1.0];
    let got = RGBSpectrum::from_sampled(&numbers(&lambda), &numbers(&vals), 2);
    assert_eq!(encodings(&got), encoded(native_from_sampled(&lambda, &vals)));
    // the sum over 471 entries stands for an integral over 470 nm
    let y = plain(got.y());
    assert!((y - 470.0 / 471.0).abs() < 1.0e-4, "luminance {}", y);
}

#[test]
fn sqrt_takes_the_root_of_each_coefficient() {
    for c in COLOURS {
        let got = spectrum(c).sqrt();
        for i in 0..3 {
            let want = c[i].sqrt();
            if want.is_nan() {
                assert!(got.c[i].is_nan());
            } else {
                assert_eq!(got.c[i].to_bits(), want.to_bits());
            }
        }
    }
    assert_eq!(encodings(&spectrum([4.0, 9.0, 2.25]).sqrt()), encoded([2.0, 3.0, 1.5]));
}

#[test]
fn a_coefficient_can_be_changed_in_place() {
    let mut s = spectrum([1.0, 2.0, 3.0]);
    *s.index_mut(1) = num(7.0);
    assert_eq!(encodings(&s), encoded([1.0, 7.0, 3.0]));
    let middle = s.index_mut(2);
    *middle = middle.add(num(0.5));
    assert_eq!(encodings(&s), encoded([1.0, 7.0, 3.5]));
}
