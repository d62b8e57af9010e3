use formula::binary32::{
    is_nan, is_non_negative, is_positive, is_zero, same_number, E_BITS, INFINITY_BITS,
    NEGATIVE_ZERO_BITS, ONE_BITS,
};

fn samples() -> Vec<f32> {
    let mut all = vec![
        0.0,
        -0.0,
        1.0,
        -1.0,
        0.5,
        -2.75,
        f32::MIN_POSITIVE,
        -f32::MIN_POSITIVE,
        f32::from_bits(1),
        f32::from_bits(0x8000_0001),
        f32::MAX,
        f32::MIN,
        f32::INFINITY,
        f32::NEG_INFINITY,
        f32::NAN,
        -f32::NAN,
        f32::from_bits(0x7f80_0001),
        f32::from_bits(0xff80_0001),
        f32::from_bits(0x7fff_ffff),
        f32::from_bits(0xffff_ffff),
    ];
    // a spread over all patterns
    let mut bits: u32 = 0;
    for _ in 0..4096 {
        all.push(f32::from_bits(bits));
        bits = bits.wrapping_add(0x0010_0401);
    }
    all
}

#[test]
fn named_patterns() {
    assert_eq!(ONE_BITS, 1f32.to_bits());
    assert_eq!(E_BITS, std::f32::consts::E.to_bits());
    assert_eq!(INFINITY_BITS, f32::INFINITY.to_bits());
    assert_eq!(NEGATIVE_ZERO_BITS, (-0f32).to_bits());
}

#[test]
fn classes_agree_with_the_machine() {
    for x in samples() {
        let bits = x.to_bits();
        assert_eq!(is_zero(bits), x == 0.0, "zero {bits:#x}");
        assert_eq!(is_nan(bits), x.is_nan(), "nan {bits:#x}");
        assert_eq!(is_positive(bits), x > 0.0, "positive {bits:#x}");
        assert_eq!(is_non_negative(bits), x >= 0.0, "non-negative {bits:#x}");
    }
}

#[test]
fn equality_agrees_with_the_machine() {
    let all = samples();
    for a in &all[..40] {
        for b in &all {
            assert_eq!(same_number(a.to_bits(), b.to_bits()), a == b);
            assert_eq!(same_number(b.to_bits(), a.to_bits()), b == a);
        }
    }
}
