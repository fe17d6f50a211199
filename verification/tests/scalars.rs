use usearch::f16_precision::{Bf16HalfUSearchExt, F16HalfUSearchExt};
use usearch::{ScalarKind, VectorType, BF16, F16};

#[test]
fn f16_fixed_point_values_are_exact_for_small_powers() {
    // 1.0, 0.5, 2.0, -1.0 and the zeros, in IEEE 754 binary16.
    assert_eq!(F16 { bits: 0x3C00 }.to_int(), 65536);
    assert_eq!(F16 { bits: 0x3800 }.to_int(), 32768);
    assert_eq!(F16 { bits: 0x4000 }.to_int(), 131072);
    assert_eq!(F16 { bits: 0xBC00 }.to_int(), -65536);
    assert_eq!(F16 { bits: 0x0000 }.to_int(), 0);
    assert_eq!(F16 { bits: 0x8000 }.to_int(), 0);
}

#[test]
fn f16_values_agree_with_the_half_crate() {
    for v in [0.25f32, 1.5, 3.0, 100.0, -7.5] {
        let bits = half::f16::from_f32(v).to_bits();
        let fixed = F16 { bits }.to_int();
        assert_eq!(fixed, (v * 65536.0) as i64);
    }
}

#[test]
fn f16_infinity_saturates() {
    // Positive and negative infinity in binary16.
    assert_eq!(F16 { bits: 0x7C00 }.to_int(), 4294967296);
    assert_eq!(F16 { bits: 0xFC00 }.to_int(), -4294967296);
}

#[test]
fn bf16_values_agree_with_the_half_crate() {
    for v in [0.5f32, 1.0, 2.0, 256.0, -4.0] {
        let bits = half::bf16::from_f32(v).to_bits();
        let fixed = BF16 { bits }.to_int();
        assert_eq!(fixed, (v * 65536.0) as i64);
    }
}

#[test]
fn bf16_large_values_saturate() {
    // 2^40 in bfloat16 exceeds the fixed-point range.
    let bits = half::bf16::from_f32(1.1e12f32).to_bits();
    assert_eq!(BF16 { bits }.to_int(), 4294967296);
}

#[test]
fn i8_scalars_scale_by_the_fixed_point_unit() {
    assert_eq!(3i8.to_int(), 3 * 65536);
    assert_eq!((-3i8).to_int(), -3 * 65536);
    assert_eq!(i8::quant_type(), ScalarKind::I8);
    assert_eq!(F16::quant_type(), ScalarKind::F16);
    assert_eq!(BF16::quant_type(), ScalarKind::BF16);
}

#[test]
fn scalar_bits_round_trip() {
    for b in [0u64, 1, 127, 128, 255] {
        let s = <i8 as VectorType>::from_bits(b);
        assert_eq!(s.to_bits(), b);
    }
    let h = F16 { bits: 0x3C00 };
    assert_eq!(F16::from_bits(h.to_bits()), h);
    let g = BF16 { bits: 0x3F80 };
    assert_eq!(BF16::from_bits(g.to_bits()), g);
}

#[test]
fn f16_i16_conversions_keep_bit_patterns() {
    let words: Vec<i16> = vec![0x3C00, 0x3800 as i16, -1];
    let scalars = F16::from_i16s(&words);
    assert_eq!(scalars.len(), 3);
    assert_eq!(scalars[0].bits, 0x3C00);
    assert_eq!(scalars[2].bits, 0xFFFF);
    let back = F16::to_i16s(&scalars);
    assert_eq!(back, words);
}

#[test]
fn bf16_i16_conversions_keep_bit_patterns() {
    let words: Vec<i16> = vec![0x3F80 as i16, 0, -32768];
    let scalars = BF16::from_i16s(&words);
    assert_eq!(scalars[0].bits, 0x3F80);
    assert_eq!(scalars[2].bits, 0x8000);
    let back = BF16::to_i16s(&scalars);
    assert_eq!(back, words);
}
