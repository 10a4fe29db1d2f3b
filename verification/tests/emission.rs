use rs_pbrt::emission::{
    channel_fraction, curve_base, linear_part, on_linear_part, planck_exponent, planck_radiance,
    wien_peak,
};
use rs_pbrt::float::Float;

fn num(x: f32) -> Float {
    Float::from_bits(x.to_bits())
}

#[test]
fn the_exponent_of_plancks_law_is_computed_in_single_precision() {
    let c: f32 = 299792458.0 as f32;
    let h: f32 = 6.62606957e-34 as f32;
    let kb: f32 = 1.3806488e-23 as f32;
    for (lambda, t) in [(500.0f32, 6500.0f32), (360.0, 2700.0), (830.0, 10000.0), (555.5, 1.0), (1.0, 5000.0)] {
        let l: f32 = lambda * 1.0e-9 as f32;
        let want = (h * c) / (l * kb * t);
        assert_eq!(planck_exponent(num(lambda), num(t)).to_bits(), want.to_bits());
    }
}

#[test]
fn the_radiance_of_plancks_law_is_computed_in_single_precision() {
    let c: f32 = 299792458.0 as f32;
    let h: f32 = 6.62606957e-34 as f32;
    for (lambda, power) in [(500.0f32, 83.7f32), (360.0, 1.0e6), (830.0, 5.66), (600.0, 1.0), (450.0, 1.5)] {
        let l: f32 = lambda * 1.0e-9 as f32;
        let lambda5: f32 = (l * l) * (l * l) * l;
        let want = (2.0 as f32 * h * c * c) / (lambda5 * (power - 1.0 as f32));
        let got = planck_radiance(num(lambda), num(power));
        if want.is_nan() {
            assert!(got.is_nan());
        } else {
            assert_eq!(got.to_bits(), want.to_bits());
        }
    }
}

#[test]
fn a_blackbody_of_6500_kelvins_peaks_in_the_blue() {
    let t = 6500.0f32;
    let want = 2.8977721e-3 as f32 / t * 1.0e9 as f32;
    assert_eq!(wien_peak(num(t)).to_bits(), want.to_bits());
    assert!((want - 445.8).abs() < 0.1);
}

#[test]
fn the_srgb_curve_is_split_at_its_limit() {
    for v in 0..=255u8 {
        let value = v as f32 / 255.0;
        assert_eq!(channel_fraction(v).to_bits(), value.to_bits());
        assert_eq!(on_linear_part(num(value)), value <= 0.04045);
        assert_eq!(linear_part(num(value)).to_bits(), (value / 12.92).to_bits());
        assert_eq!(curve_base(num(value)).to_bits(), ((value + 0.055) * 1.0 / 1.055).to_bits());
    }
    assert!(on_linear_part(channel_fraction(10)));
    assert!(!on_linear_part(channel_fraction(11)));
}
