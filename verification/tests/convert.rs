use rs_pbrt::float::Float;

#[test]
fn whole_numbers_convert_as_a_cast_does() {
    for x in [0u16, 1, 2, 3, 255, 360, 471, 830, 65535] {
        assert_eq!(Float::from_u16(x).to_bits(), (x as f32).to_bits());
    }
    let mut x: u64 = 1;
    for _ in 0..2000 {
        assert_eq!(Float::from_u64(x).to_bits(), (x as f32).to_bits(), "{}", x);
        assert_eq!(Float::from_u64(x >> 20).to_bits(), ((x >> 20) as f32).to_bits());
        assert_eq!(Float::from_u64(x >> 40).to_bits(), ((x >> 40) as f32).to_bits());
        x = x.wrapping_mul(6364136223846793005).wrapping_add(1442695040888963407);
    }
    assert_eq!(Float::from_u64(u64::MAX).to_bits(), (u64::MAX as f32).to_bits());
    assert_eq!(Float::from_u64(16_777_217).to_bits(), 16_777_216.0f32.to_bits());
    assert_eq!(Float::from_u64(16_777_219).to_bits(), 16_777_220.0f32.to_bits());
}

#[test]
fn numbers_truncate_as_a_cast_does() {
    for x in [
        0.0f32, -0.0, 0.5, 0.999, 1.0, 1.5, 2.999, 255.7, 16_777_216.0, 3.0e9, 1.0e19, 1.8e19, 1.9e19,
        3.0e38, f32::INFINITY, f32::NEG_INFINITY, f32::NAN, -1.0, -0.3, 1.0e-40, 8_388_607.5,
    ] {
        assert_eq!(Float::from_bits(x.to_bits()).to_u64(), x as u64, "{}", x);
    }
    let mut bits: u64 = 7;
    for _ in 0..20000 {
        bits = bits.wrapping_mul(6364136223846793005).wrapping_add(1442695040888963407);
        let x = f32::from_bits((bits >> 32) as u32);
        assert_eq!(Float::from_bits(x.to_bits()).to_u64(), x as u64, "{}", x);
    }
}
