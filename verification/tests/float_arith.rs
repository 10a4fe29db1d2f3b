use rs_pbrt::float::Float;

fn fl(x: f32) -> Float {
    Float::from_bits(x.to_bits())
}

fn native(a: Float) -> f32 {
    f32::from_bits(a.to_bits())
}

/// Equal encodings, or a NaN on both sides.
fn agrees(got: Float, want: f32) -> bool {
    if want.is_nan() {
        native(got).is_nan()
    } else {
        got.to_bits() == want.to_bits()
    }
}

struct Stream {
    state: u64,
}

impl Stream {
    fn next(&mut self) -> u64 {
        self.state = self.state.wrapping_mul(6364136223846793005).wrapping_add(1442695040888963407);
        self.state >> 16
    }

    /// An encoding: now any 32 bits, now one with a mid-range exponent, now
    /// one at the bottom of the range, now a special one.
    fn encoding(&mut self) -> u32 {
        let kind = self.next() % 10;
        let raw = self.next() as u32;
        match kind {
            0 => {
                let special = [
                    0x0000_0000u32,
                    0x8000_0000,
                    0x0000_0001,
                    0x8000_0001,
                    0x7f80_0000,
                    0xff80_0000,
                    0x7f7f_ffff,
                    0xff7f_ffff,
                    0x0080_0000,
                    0x007f_ffff,
                    0x3f80_0000,
                    0xbf80_0000,
                    0x7fc0_0000,
                    0x3380_0000,
                    0x3400_0000,
                    0x4b80_0000,
                    0x4b7f_ffff,
                ];
                special[(raw as usize) % special.len()]
            }
            1 | 2 | 3 | 4 => {
                let exponent = 100 + (self.next() as u32) % 51;
                (raw & 0x807f_ffff) | (exponent << 23)
            }
            5 => {
                let exponent = (self.next() as u32) % 4;
                (raw & 0x807f_ffff) | (exponent << 23)
            }
            _ => raw,
        }
    }
}

#[test]
fn addition_matches_hardware() {
    let mut s = Stream { state: 1 };
    for _ in 0..200_000 {
        let a = s.encoding();
        let b = s.encoding();
        let want = f32::from_bits(a) + f32::from_bits(b);
        let got = Float::from_bits(a).add(Float::from_bits(b));
        assert!(agrees(got, want), "{:#x} + {:#x}: {:#x} for {:#x}", a, b, got.to_bits(), want.to_bits());
    }
}

#[test]
fn subtraction_matches_hardware() {
    let mut s = Stream { state: 2 };
    for _ in 0..200_000 {
        let a = s.encoding();
        let b = s.encoding();
        let want = f32::from_bits(a) - f32::from_bits(b);
        let got = Float::from_bits(a).sub(Float::from_bits(b));
        assert!(agrees(got, want), "{:#x} - {:#x}: {:#x} for {:#x}", a, b, got.to_bits(), want.to_bits());
    }
}

#[test]
fn multiplication_matches_hardware() {
    let mut s = Stream { state: 3 };
    for _ in 0..200_000 {
        let a = s.encoding();
        let b = s.encoding();
        let want = f32::from_bits(a) * f32::from_bits(b);
        let got = Float::from_bits(a).mul(Float::from_bits(b));
        assert!(agrees(got, want), "{:#x} * {:#x}: {:#x} for {:#x}", a, b, got.to_bits(), want.to_bits());
    }
}

#[test]
fn division_matches_hardware() {
    let mut s = Stream { state: 4 };
    for _ in 0..200_000 {
        let a = s.encoding();
        let b = s.encoding();
        let want = f32::from_bits(a) / f32::from_bits(b);
        let got = Float::from_bits(a).div(Float::from_bits(b));
        assert!(agrees(got, want), "{:#x} / {:#x}: {:#x} for {:#x}", a, b, got.to_bits(), want.to_bits());
    }
}

#[test]
fn comparisons_match_hardware() {
    let mut s = Stream { state: 5 };
    for _ in 0..200_000 {
        let a = s.encoding();
        let b = s.encoding();
        let (x, y) = (f32::from_bits(a), f32::from_bits(b));
        let (p, q) = (Float::from_bits(a), Float::from_bits(b));
        assert_eq!(p.lt(q), x < y);
        assert_eq!(p.le(q), x <= y);
        assert_eq!(p.gt(q), x > y);
        assert_eq!(p.ge(q), x >= y);
        assert_eq!(p.eq(q), x == y);
        assert_eq!(p.ne(q), x != y);
    }
}

#[test]
fn classification_matches_hardware() {
    let mut s = Stream { state: 6 };
    for _ in 0..200_000 {
        let a = s.encoding();
        let x = f32::from_bits(a);
        let p = Float::from_bits(a);
        assert_eq!(p.is_nan(), x.is_nan());
        assert_eq!(p.is_infinite(), x.is_infinite());
        assert_eq!(p.is_finite(), x.is_finite());
        assert_eq!(p.is_zero(), x == 0.0);
        assert_eq!(p.is_sign_negative(), x.is_sign_negative());
        assert_eq!(p.neg().to_bits(), (-x).to_bits());
        assert_eq!(p.abs().to_bits(), x.abs().to_bits());
    }
}

#[test]
fn one_plus_one_is_two() {
    assert_eq!(fl(1.0).add(fl(1.0)).to_bits(), 2.0f32.to_bits());
}

#[test]
fn ties_go_to_the_even_significand() {
    // 2^24 + 1 lies halfway between 2^24 and 2^24 + 2
    assert_eq!(native(fl(16_777_216.0).add(fl(1.0))), 16_777_216.0);
    // 2^24 + 3 lies halfway between 2^24 + 2 and 2^24 + 4
    assert_eq!(native(fl(16_777_218.0).add(fl(1.0))), 16_777_220.0);
}

#[test]
fn sums_of_zeros_keep_a_common_sign() {
    assert_eq!(fl(-0.0).add(fl(-0.0)).to_bits(), 0x8000_0000);
    assert_eq!(fl(0.0).add(fl(-0.0)).to_bits(), 0);
    assert_eq!(fl(1.5).sub(fl(1.5)).to_bits(), 0);
    assert_eq!(fl(-1.5).add(fl(1.5)).to_bits(), 0);
}

#[test]
fn overflow_gives_infinity() {
    assert_eq!(fl(f32::MAX).add(fl(f32::MAX)).to_bits(), f32::INFINITY.to_bits());
    assert_eq!(fl(f32::MAX).mul(fl(-2.0)).to_bits(), f32::NEG_INFINITY.to_bits());
    assert_eq!(fl(1.0).div(fl(0.0)).to_bits(), f32::INFINITY.to_bits());
    assert_eq!(fl(-1.0).div(fl(0.0)).to_bits(), f32::NEG_INFINITY.to_bits());
}

#[test]
fn undefined_results_are_nan() {
    assert!(fl(0.0).div(fl(0.0)).is_nan());
    assert!(fl(f32::INFINITY).sub(fl(f32::INFINITY)).is_nan());
    assert!(fl(f32::INFINITY).mul(fl(0.0)).is_nan());
    assert!(fl(f32::INFINITY).div(fl(f32::NEG_INFINITY)).is_nan());
    assert!(fl(f32::NAN).add(fl(1.0)).is_nan());
}

#[test]
fn subnormal_results_are_rounded() {
    let tiny = f32::from_bits(1);
    assert_eq!(fl(tiny).mul(fl(0.5)).to_bits(), (tiny * 0.5).to_bits());
    assert_eq!(fl(tiny).mul(fl(0.75)).to_bits(), (tiny * 0.75).to_bits());
    assert_eq!(fl(f32::MIN_POSITIVE).div(fl(3.0)).to_bits(), (f32::MIN_POSITIVE / 3.0).to_bits());
}

#[test]
fn max_lets_a_nan_give_way() {
    assert_eq!(native(fl(1.0).max(fl(2.0))), 2.0);
    assert_eq!(native(fl(2.0).max(fl(1.0))), 2.0);
    assert_eq!(native(fl(f32::NAN).max(fl(1.0))), 1.0);
    assert_eq!(native(fl(1.0).max(fl(f32::NAN))), 1.0);
}

#[test]
fn square_roots_match_hardware() {
    let mut s = Stream { state: 7 };
    for _ in 0..200_000 {
        let a = s.encoding();
        let want = f32::from_bits(a).sqrt();
        let got = Float::from_bits(a).sqrt();
        assert!(agrees(got, want), "sqrt {:#x}: {:#x} for {:#x}", a, got.to_bits(), want.to_bits());
    }
    for x in [0.0f32, -0.0, 1.0, 2.0, 4.0, 0.25, 16_777_216.0, 1.0e-45, 2.0e-45, f32::MAX, f32::MIN_POSITIVE, f32::INFINITY] {
        assert_eq!(fl(x).sqrt().to_bits(), x.sqrt().to_bits(), "sqrt {}", x);
    }
    assert!(fl(-1.0).sqrt().is_nan());
    assert!(fl(f32::NEG_INFINITY).sqrt().is_nan());
    assert_eq!(fl(-0.0).sqrt().to_bits(), 0x8000_0000);
}

#[test]
fn every_small_whole_number_has_its_root() {
    for n in 0..70_000u32 {
        let x = n as f32;
        assert_eq!(fl(x).sqrt().to_bits(), x.sqrt().to_bits(), "sqrt {}", x);
    }
}
