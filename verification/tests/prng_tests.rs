use gemma4_fixture::prng::{
    bf16_bits_to_f32, bf16_signs, f32_to_bf16_bits, f4_nibbles, f8_banded, name_hash, push_u16, word,
    FNV_OFFSET,
};

#[test]
fn name_hash_of_empty_name_is_the_offset_basis() {
    assert_eq!(name_hash(""), FNV_OFFSET);
    assert_eq!(name_hash(""), 0xCBF2_9CE4_8422_2325);
}

#[test]
fn name_hash_matches_fnv1a_64() {
    assert_eq!(name_hash("a"), 0xaf63_dc4c_8601_ec8c);
    assert_eq!(name_hash("run0.global.pos"), 0x4c24_3add_dd73_717b);
}

#[test]
fn word_matches_the_splitmix_finalizer() {
    assert_eq!(word(0, 0), 0xe220_a839_7b1d_cdaf);
    assert_eq!(word(42, 7), 0xf7e9_f3f8_8cc0_4ad6);
}

#[test]
fn word_depends_only_on_seed_and_index() {
    let seed = name_hash("run1.decoder_feedforward.residual");
    let first: Vec<u64> = (0..16).map(|i| word(seed, i)).collect();
    let again: Vec<u64> = (0..16).rev().map(|i| word(seed, i)).collect();
    let again: Vec<u64> = again.into_iter().rev().collect();
    assert_eq!(first, again);
}

#[test]
fn bf16_rounding_of_exact_values_truncates() {
    assert_eq!(f32_to_bf16_bits(1.0f32.to_bits()), 0x3F80);
    assert_eq!(f32_to_bf16_bits((-2.0f32).to_bits()), 0xC000);
    assert_eq!(f32_to_bf16_bits(0x3F80_7FFF), 0x3F80);
}

#[test]
fn bf16_rounding_goes_to_nearest() {
    assert_eq!(f32_to_bf16_bits(0x3F80_8001), 0x3F81);
    assert_eq!(f32_to_bf16_bits(0x3F80_FFFF), 0x3F81);
}

#[test]
fn bf16_rounding_ties_to_even() {
    assert_eq!(f32_to_bf16_bits(0x3F80_8000), 0x3F80);
    assert_eq!(f32_to_bf16_bits(0x3F81_8000), 0x3F82);
}

#[test]
fn bf16_rounding_wraps_at_the_top() {
    assert_eq!(f32_to_bf16_bits(0xFFFF_8001), 0x0000);
}

#[test]
fn bf16_round_trip_is_exact_for_every_pattern() {
    for bits in 0..=u16::MAX {
        assert_eq!(f32_to_bf16_bits(bf16_bits_to_f32(bits)), bits);
    }
}

#[test]
fn bf16_widening_matches_f32() {
    assert_eq!(f32::from_bits(bf16_bits_to_f32(0x3F80)), 1.0);
    assert_eq!(f32::from_bits(bf16_bits_to_f32(0xC040)), -3.0);
}

#[test]
fn push_u16_appends_little_endian() {
    let mut out = vec![9u8];
    push_u16(&mut out, 0xABCD);
    assert_eq!(out, vec![9, 0xCD, 0xAB]);
}

#[test]
fn bf16_signs_keep_the_magnitude() {
    let out = bf16_signs("run0.sliding_attention_output.x_signs", 4, 0x3F80);
    assert_eq!(out, vec![128, 191, 128, 63, 128, 191, 128, 63]);
    for pair in out.chunks(2) {
        let value = u16::from_le_bytes([pair[0], pair[1]]);
        assert_eq!(value & 0x7FFF, 0x3F80);
    }
}

#[test]
fn bf16_signs_of_nothing_is_empty() {
    assert!(bf16_signs("x", 0, 0x3F80).is_empty());
}

#[test]
fn f8_banded_signed_values() {
    let out = f8_banded("run1.sliding_project_qkv.q_weight", 6, 7, 14, true);
    assert_eq!(out, vec![87, 241, 93, 195, 230, 212]);
}

#[test]
fn f8_banded_unsigned_values_stay_in_band() {
    let out = f8_banded("run0.decoder_feedforward.up_weight_scale", 6, 8, 10, false);
    assert_eq!(out, vec![78, 79, 81, 78, 72, 65]);
    let many = f8_banded("run0.decoder_feedforward.up_weight_scale", 500, 8, 10, false);
    for code in many {
        assert!(code < 0x80);
        let exponent = (code >> 3) & 0xF;
        assert!((8..=10).contains(&exponent));
    }
}

#[test]
fn f8_banded_single_exponent() {
    for code in f8_banded("one", 64, 14, 14, true) {
        assert_eq!((code >> 3) & 0xF, 14);
    }
}

#[test]
fn f4_nibbles_pack_two_per_byte() {
    let out = f4_nibbles("run2.decoder_feedforward.up_weight_packed", 8);
    assert_eq!(out, vec![25, 172, 223, 246]);
    let seed = name_hash("run2.decoder_feedforward.up_weight_packed");
    for (p, byte) in out.iter().enumerate() {
        assert_eq!(u64::from(byte & 0xF), word(seed, 2 * p) >> 60);
        assert_eq!(u64::from(byte >> 4), word(seed, 2 * p + 1) >> 60);
    }
}
