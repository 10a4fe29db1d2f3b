use rs_pbrt::float::Float;
use rs_pbrt::geometry::Point2i;
use rs_pbrt::integrator::Sampler;
use rs_pbrt::render::SamplerSource;
use rs_pbrt::sampler::{RandomSampler, SeededSamplers, INCREMENT, MULTIPLIER};

fn plain(a: Float) -> f32 {
    f32::from_bits(a.to_bits())
}

#[test]
fn the_sampler_follows_the_generator() {
    let mut sampler = RandomSampler { state: 12345 };
    let mut state: u64 = 12345;
    for _ in 0..10_000 {
        state = state.wrapping_mul(MULTIPLIER).wrapping_add(INCREMENT);
        let want = (state >> 40) as f32 / 16_777_216.0;
        let got = sampler.get_1d();
        assert_eq!(got.to_bits(), want.to_bits());
        assert!(plain(got) >= 0.0 && plain(got) < 1.0);
        assert_eq!(sampler.state, state);
    }
}

#[test]
fn a_sample_point_takes_two_numbers() {
    let mut pairs = RandomSampler { state: 7 };
    let mut singles = RandomSampler { state: 7 };
    for _ in 0..100 {
        let p = pairs.get_2d();
        let x = singles.get_1d();
        let y = singles.get_1d();
        assert_eq!((p.x.to_bits(), p.y.to_bits()), (x.to_bits(), y.to_bits()));
    }
    assert_eq!(pairs.state, singles.state);
}

#[test]
fn the_sampler_keeps_no_arrays() {
    let mut sampler = RandomSampler { state: 1 };
    assert_eq!(sampler.round_count(7), 7);
    sampler.request_2d_array(4);
    assert!(sampler.get_2d_array(4).is_empty());
    assert_eq!(sampler.state, 1);
}

#[test]
fn the_numbers_spread_over_the_unit_interval() {
    let mut sampler = RandomSampler { state: 99 };
    let mut buckets = [0u32; 10];
    let mut sum = 0.0f64;
    for _ in 0..100_000 {
        let u = plain(sampler.get_1d());
        buckets[(u * 10.0) as usize] += 1;
        sum += u as f64;
    }
    assert!((sum / 100_000.0 - 0.5).abs() < 0.01);
    assert!(buckets.iter().all(|b| *b > 9_000 && *b < 11_000));
}

#[test]
fn each_tile_has_a_sampler_of_its_own() {
    let source = SeededSamplers { seed: 42 };
    let a = source.for_tile(Point2i { x: 0, y: 0 });
    let again = source.for_tile(Point2i { x: 0, y: 0 });
    assert_eq!(a.state, again.state);
    assert_eq!(a.state, 42 + (1u64 << 63) + (1u64 << 31));
    let mut seen = std::collections::HashSet::new();
    for y in -20..20 {
        for x in -20..20 {
            assert!(seen.insert(source.for_tile(Point2i { x: x * 16, y: y * 16 }).state));
        }
    }
    for corner in [i32::MIN, i32::MAX] {
        assert!(seen.insert(source.for_tile(Point2i { x: corner, y: corner }).state));
    }
    assert_ne!(SeededSamplers { seed: 43 }.for_tile(Point2i { x: 0, y: 0 }).state, a.state);
    // a seed at the top of its range wraps around
    let high = SeededSamplers { seed: u64::MAX }.for_tile(Point2i { x: 0, y: 0 });
    assert_eq!(high.state, (1u64 << 63) + (1u64 << 31) - 1);
}
