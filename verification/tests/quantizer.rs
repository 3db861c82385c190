use spark_bert::DEFAULT_MIN_SCORE_BITS;
use spark_bert::f32_lt_bits;
use spark_bert::fp8_e4m3_bits;
use spark_bert::quantize;

fn reference_fp8(x: f32) -> u8 {
    float8::F8E4M3::from_f32(x).to_bits()
}

#[test]
fn quantize_drops_scores_below_threshold() {
    assert_eq!(quantize(10.0f32.to_bits(), DEFAULT_MIN_SCORE_BITS), 0);
    assert_eq!(quantize(22.7135f32.to_bits(), DEFAULT_MIN_SCORE_BITS), 0);
    assert_eq!(quantize(0.0f32.to_bits(), DEFAULT_MIN_SCORE_BITS), 0);
    assert_eq!(quantize((-3.0f32).to_bits(), DEFAULT_MIN_SCORE_BITS), 0);
}

#[test]
fn quantize_keeps_scores_at_or_above_threshold() {
    let at = quantize(22.7136f32.to_bits(), DEFAULT_MIN_SCORE_BITS);
    assert_eq!(at, reference_fp8(22.7136));
    assert_eq!(at, 0x5B);
    let above = quantize(30.0f32.to_bits(), DEFAULT_MIN_SCORE_BITS);
    assert_eq!(above, reference_fp8(30.0));
    assert!(above > 0);
}

#[test]
fn quantize_is_consistent_at_the_threshold() {
    let w1 = quantize(22.7136f32.to_bits(), DEFAULT_MIN_SCORE_BITS);
    let w2 = quantize(22.7136f32.to_bits(), DEFAULT_MIN_SCORE_BITS);
    assert_eq!(w1, w2);
}

#[test]
fn fp8_encoding_matches_the_reference_on_specials() {
    for x in [
        0.0f32,
        -0.0,
        1.0,
        -1.0,
        0.9,
        0.4,
        448.0,
        -448.0,
        464.0,
        465.0,
        1.0e10,
        -1.0e10,
        f32::INFINITY,
        f32::NEG_INFINITY,
        f32::NAN,
        f32::MIN_POSITIVE,
        1.0e-45,
        0.015625,
        0.001,
        -5.0,
        22.7136,
        456.0,
        460.0,
    ] {
        assert_eq!(
            fp8_e4m3_bits(x.to_bits()),
            reference_fp8(x),
            "mismatch at {x} ({:#x})",
            x.to_bits()
        );
    }
}

#[test]
fn fp8_encoding_matches_the_reference_on_a_sweep() {
    // a deterministic pseudo-random sweep over bit patterns
    let mut state: u32 = 0x1234_5678;
    for _ in 0..20000 {
        state = state.wrapping_mul(1664525).wrapping_add(1013904223);
        let x = state;
        assert_eq!(
            fp8_e4m3_bits(x),
            reference_fp8(f32::from_bits(x)),
            "mismatch at bits {x:#x}"
        );
    }
    // and a dense sweep around the interesting small-magnitude range
    for hi in 0..=0xFFu32 {
        for lo in [0u32, 1, 0x7FFFF, 0x80000, 0x80001, 0x100000, 0x7FFFFF] {
            let x = (hi << 23) | lo;
            assert_eq!(fp8_e4m3_bits(x), reference_fp8(f32::from_bits(x)));
            let neg = x | 0x8000_0000;
            assert_eq!(fp8_e4m3_bits(neg), reference_fp8(f32::from_bits(neg)));
        }
    }
}

#[test]
fn bitwise_less_than_matches_float_order() {
    let samples = [
        0.0f32,
        -0.0,
        1.0,
        -1.0,
        22.7136,
        22.7135,
        f32::INFINITY,
        f32::NEG_INFINITY,
        f32::NAN,
        f32::MIN_POSITIVE,
        -1.0e-40,
        1.0e-40,
        3.0e38,
    ];
    for a in samples {
        for b in samples {
            assert_eq!(
                f32_lt_bits(a.to_bits(), b.to_bits()),
                a < b,
                "mismatch at {a} < {b}"
            );
        }
    }
}
