use rs_pbrt::float::Float;
use rs_pbrt::pbrt::{clamp_t, find_interval, lerp};

fn num(x: f32) -> Float {
    Float::from_bits(x.to_bits())
}

fn plain(a: Float) -> f32 {
    f32::from_bits(a.to_bits())
}

#[test]
fn clamp_t_keeps_what_lies_between() {
    assert_eq!(plain(clamp_t(num(0.5), num(0.0), num(1.0))), 0.5);
    assert_eq!(plain(clamp_t(num(-0.5), num(0.0), num(1.0))), 0.0);
    assert_eq!(plain(clamp_t(num(1.5), num(0.0), num(1.0))), 1.0);
    assert!(clamp_t(num(f32::NAN), num(0.0), num(1.0)).is_nan());
}

#[test]
fn lerp_weighs_the_two_ends() {
    for (t, a, b) in [(0.0f32, 2.0f32, 5.0f32), (1.0, 2.0, 5.0), (0.3, -7.25, 1.0e10), (0.5, 0.1, 0.2)] {
        assert_eq!(lerp(num(t), num(a), num(b)).to_bits(), ((1.0 - t) * a + t * b).to_bits());
    }
}

#[test]
fn find_interval_names_the_interval_that_holds_a_value() {
    let keys: Vec<Float> = [10.0f32, 20.0, 30.0, 40.0, 50.0].iter().map(|x| num(*x)).collect();
    assert_eq!(find_interval(&keys, 5, num(5.0)), 0);
    assert_eq!(find_interval(&keys, 5, num(10.0)), 0);
    assert_eq!(find_interval(&keys, 5, num(19.9)), 0);
    assert_eq!(find_interval(&keys, 5, num(20.0)), 1);
    assert_eq!(find_interval(&keys, 5, num(39.0)), 2);
    assert_eq!(find_interval(&keys, 5, num(40.0)), 3);
    assert_eq!(find_interval(&keys, 5, num(50.0)), 3);
    assert_eq!(find_interval(&keys, 5, num(1000.0)), 3);
    assert_eq!(find_interval(&keys, 2, num(15.0)), 0);
    assert_eq!(find_interval(&keys, 3, num(45.0)), 1);
    assert_eq!(find_interval(&keys, 5, num(f32::NAN)), 0);
}
