use sentiric_rtp_core::codecs::codec_data::{ALAW_TO_LINEAR_LUT, ULAW_TO_LINEAR_LUT};
use sentiric_rtp_core::codecs::g711::G711;
use sentiric_rtp_core::codecs::{
    CodecType, Decoder, Encoder, PcmaDecoder, PcmaEncoder, PcmuDecoder, PcmuEncoder,
};

/// G.711 A-law expansion, written as the standard words it.
fn alaw_reference(code: u8) -> i32 {
    let x = code ^ 0x55;
    let mantissa = (x & 0x0F) as i32;
    let segment = ((x & 0x70) >> 4) as i32;
    let magnitude = match segment {
        0 => (mantissa << 4) + 8,
        1 => (mantissa << 4) + 0x108,
        _ => ((mantissa << 4) + 0x108) << (segment - 1),
    };
    if x & 0x80 != 0 {
        magnitude
    } else {
        -magnitude
    }
}

/// G.711 mu-law expansion, written as the standard words it.
fn ulaw_reference(code: u8) -> i32 {
    let x = !code;
    let magnitude = ((((x & 0x0F) as i32) << 3) + 0x84) << ((x & 0x70) >> 4);
    if x & 0x80 != 0 {
        0x84 - magnitude
    } else {
        magnitude - 0x84
    }
}

#[test]
fn alaw_zero_codes() {
    assert_eq!(PcmaEncoder::linear_to_alaw(0), 0xD5);
    assert_eq!(PcmaEncoder::linear_to_alaw(-1), 0x55);
    assert_eq!(G711::linear_to_alaw(0), 0xD5);
    assert_eq!(G711::linear_to_alaw(-1), 0x55);
}

#[test]
fn alaw_zero_codes_decode_to_opposite_amplitudes() {
    let plus = G711::alaw_to_linear(0xD5);
    let minus = G711::alaw_to_linear(0x55);
    assert_eq!(plus, 8);
    assert_eq!(minus, -8);
    assert_eq!(plus, -minus);
}

#[test]
fn alaw_table_is_canonical() {
    for code in 0..=255u8 {
        assert_eq!(G711::alaw_to_linear(code) as i32, alaw_reference(code), "code {}", code);
        assert_eq!(ALAW_TO_LINEAR_LUT[code as usize] as i32, alaw_reference(code));
    }
    assert_eq!(G711::alaw_to_linear(0x00), -5504);
    assert_eq!(G711::alaw_to_linear(0x7E), -880);
    assert_eq!(G711::alaw_to_linear(0x7F), -848);
    assert_eq!(G711::alaw_to_linear(0xFE), 880);
    assert_eq!(G711::alaw_to_linear(0xFF), 848);
    assert_eq!(G711::alaw_to_linear(0xAA), 32256);
}

#[test]
fn ulaw_table_is_canonical() {
    for code in 0..=255u8 {
        assert_eq!(G711::ulaw_to_linear(code) as i32, ulaw_reference(code), "code {}", code);
        assert_eq!(ULAW_TO_LINEAR_LUT[code as usize] as i32, ulaw_reference(code));
    }
    assert_eq!(G711::ulaw_to_linear(0x00), -32124);
    assert_eq!(G711::ulaw_to_linear(0x80), 32124);
    assert_eq!(G711::ulaw_to_linear(0xFF), 0);
    assert_eq!(G711::ulaw_to_linear(0x7F), 0);
}

#[test]
fn alaw_codes_survive_decoding_and_encoding() {
    for code in 0..=255u8 {
        let pcm = G711::alaw_to_linear(code);
        assert_eq!(PcmaEncoder::linear_to_alaw(pcm), code);
        assert_eq!(G711::linear_to_alaw(pcm), code);
    }
}

#[test]
fn ulaw_codes_survive_decoding_and_encoding() {
    for code in 0..=255u8 {
        let pcm = G711::ulaw_to_linear(code);
        // Both zero codes decode to 0, which encodes as the positive one.
        let expected = if code == 0x7F { 0xFF } else { code };
        assert_eq!(PcmuEncoder::linear_to_ulaw(pcm), expected);
        assert_eq!(G711::linear_to_ulaw(pcm), expected);
    }
}

#[test]
fn both_alaw_encoders_agree_on_every_sample() {
    for pcm in i16::MIN..=i16::MAX {
        assert_eq!(PcmaEncoder::linear_to_alaw(pcm), G711::linear_to_alaw(pcm), "sample {}", pcm);
    }
}

#[test]
fn both_ulaw_encoders_agree_on_every_sample() {
    for pcm in i16::MIN..=i16::MAX {
        assert_eq!(PcmuEncoder::linear_to_ulaw(pcm), G711::linear_to_ulaw(pcm), "sample {}", pcm);
    }
}

#[test]
fn alaw_known_codes() {
    // 1000 lies in segment 2 (512..1024): mantissa (1000 >> 5) & 15 = 15.
    assert_eq!(PcmaEncoder::linear_to_alaw(1000), (0x80 | 0x20 | 0x0F) ^ 0x55);
    assert_eq!(G711::alaw_to_linear(PcmaEncoder::linear_to_alaw(1000)), 1008);
    assert_eq!(PcmaEncoder::linear_to_alaw(i16::MAX), (0x80 | 0x70 | 0x0F) ^ 0x55);
    assert_eq!(PcmaEncoder::linear_to_alaw(i16::MIN), (0x70 | 0x0F) ^ 0x55);
    assert_eq!(PcmaEncoder::linear_to_alaw(255), (0x80 | 0x0F) ^ 0x55);
    assert_eq!(PcmaEncoder::linear_to_alaw(256), (0x80 | 0x10) ^ 0x55);
}

#[test]
fn ulaw_known_codes() {
    assert_eq!(PcmuEncoder::linear_to_ulaw(0), 0xFF);
    // 1000 + 132 = 1132 lies in segment 3: mantissa (1132 >> 6) & 15 = 1.
    assert_eq!(PcmuEncoder::linear_to_ulaw(1000), !(0x30u8 | 0x01));
    assert_eq!(PcmuEncoder::linear_to_ulaw(-1000), !(0x80u8 | 0x30 | 0x01));
    // Clipping and the most negative sample.
    assert_eq!(PcmuEncoder::linear_to_ulaw(i16::MAX), 0x80);
    assert_eq!(PcmuEncoder::linear_to_ulaw(32635), 0x80);
    assert_eq!(PcmuEncoder::linear_to_ulaw(i16::MIN), 0x00);
    assert_eq!(PcmuEncoder::linear_to_ulaw(-32767), 0x00);
    assert_eq!(PcmuEncoder::linear_to_ulaw(-1), PcmuEncoder::linear_to_ulaw(1) & 0x7F);
}

#[test]
fn quantisation_error_stays_within_half_a_step() {
    for pcm in i16::MIN..=i16::MAX {
        let a = G711::alaw_to_linear(PcmaEncoder::linear_to_alaw(pcm)) as i32;
        assert!((a - pcm as i32).abs() <= 512, "A-law {} -> {}", pcm, a);
        let u = G711::ulaw_to_linear(PcmuEncoder::linear_to_ulaw(pcm)) as i32;
        assert!((u - pcm as i32).abs() <= 644, "mu-law {} -> {}", pcm, u);
    }
}

#[test]
fn unit_codecs_map_sample_by_sample() {
    let pcm = [0i16, -1, 1000, -1000, i16::MAX, i16::MIN];
    let alaw = PcmaEncoder {}.encode(&pcm);
    let ulaw = PcmuEncoder {}.encode(&pcm);
    for (i, s) in pcm.iter().enumerate() {
        assert_eq!(alaw[i], PcmaEncoder::linear_to_alaw(*s));
        assert_eq!(ulaw[i], PcmuEncoder::linear_to_ulaw(*s));
    }
    let back_a = PcmaDecoder {}.decode(&alaw);
    let back_u = PcmuDecoder {}.decode(&ulaw);
    for i in 0..pcm.len() {
        assert_eq!(back_a[i], ALAW_TO_LINEAR_LUT[alaw[i] as usize]);
        assert_eq!(back_u[i], ULAW_TO_LINEAR_LUT[ulaw[i] as usize]);
    }
    assert_eq!(PcmaEncoder {}.get_type(), CodecType::PCMA);
    assert_eq!(PcmuDecoder {}.get_type(), CodecType::PCMU);
}

#[test]
fn combined_codec_follows_its_law() {
    let pcm = [0i16, 5, -300, 12000];
    let mut a = G711::new(CodecType::PCMA);
    let mut u = G711::new(CodecType::PCMU);
    let mut other = G711::new(CodecType::TelephoneEvent);
    assert_eq!(Encoder::encode(&mut a, &pcm), PcmaEncoder {}.encode(&pcm));
    assert_eq!(Encoder::encode(&mut u, &pcm), PcmuEncoder {}.encode(&pcm));
    assert!(Encoder::encode(&mut other, &pcm).is_empty());
    let payload = [0xD5u8, 0x55, 0x00, 0xFF];
    assert_eq!(Decoder::decode(&mut a, &payload), PcmaDecoder {}.decode(&payload));
    assert_eq!(Decoder::decode(&mut u, &payload), PcmuDecoder {}.decode(&payload));
    assert!(Decoder::decode(&mut other, &payload).is_empty());
    assert_eq!(Encoder::get_type(&a), CodecType::PCMA);
    assert_eq!(Decoder::get_type(&u), CodecType::PCMU);
}
