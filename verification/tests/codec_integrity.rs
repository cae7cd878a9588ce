use sentiric_rtp_core::codecs::{CodecFactory, CodecType, Decoder, Encoder};
use std::f64::consts::PI;

fn generate_sine_wave(freq: f64, duration_ms: u32, sample_rate: u32) -> Vec<i16> {
    let num_samples = (sample_rate as u32 * duration_ms / 1000) as usize;
    let mut samples = Vec::with_capacity(num_samples);
    let amplitude = 28000.0;
    for i in 0..num_samples {
        let t = i as f64 / sample_rate as f64;
        let value = amplitude * (2.0 * PI * freq * t).sin();
        samples.push(value as i16);
    }
    samples
}

fn calculate_psnr(original: &[i16], processed: &[i16]) -> f64 {
    let min_len = std::cmp::min(original.len(), processed.len());
    if min_len == 0 {
        return 0.0;
    }
    let mut sum_sq_diff = 0.0;
    for i in 0..min_len {
        let diff = original[i] as f64 - processed[i] as f64;
        sum_sq_diff += diff * diff;
    }
    let mse = sum_sq_diff / min_len as f64;
    if mse < 1e-10 {
        return 100.0;
    }
    let max_val = 32767.0;
    20.0 * (max_val / mse.sqrt()).log10()
}

#[test]
fn test_pcma_quality() {
    let codec_type = CodecType::PCMA;
    let name = "PCMA (A-law)";
    let psnr_threshold = 35.0;
    println!("\n--- codec: {} ---", name);

    let original_pcm = generate_sine_wave(440.0, 1000, 8000);
    let mut encoder = CodecFactory::create_encoder(codec_type);
    let mut decoder = CodecFactory::create_decoder(codec_type);

    let encoded = encoder.encode(&original_pcm);
    let decoded = decoder.decode(&encoded);
    let psnr = calculate_psnr(&original_pcm, &decoded);

    println!("  PSNR: {:.2} dB (threshold: >{:.1} dB)", psnr, psnr_threshold);
    assert!(psnr > psnr_threshold, "{} PSNR ({:.2} dB) is below the threshold", name, psnr);
}

#[test]
fn test_pcmu_quality() {
    let codec_type = CodecType::PCMU;
    let name = "PCMU (u-law)";
    let psnr_threshold = 35.0;
    println!("\n--- codec: {} ---", name);

    let original_pcm = generate_sine_wave(440.0, 1000, 8000);
    let mut encoder = CodecFactory::create_encoder(codec_type);
    let mut decoder = CodecFactory::create_decoder(codec_type);

    let encoded = encoder.encode(&original_pcm);
    let decoded = decoder.decode(&encoded);
    let psnr = calculate_psnr(&original_pcm, &decoded);

    println!("  PSNR: {:.2} dB (threshold: >{:.1} dB)", psnr, psnr_threshold);
    assert!(psnr > psnr_threshold, "{} PSNR ({:.2} dB) is below the threshold", name, psnr);
}

#[test]
fn pcma_payload_has_one_octet_per_sample() {
    let pcm = generate_sine_wave(440.0, 20, 8000);
    let mut encoder = CodecFactory::create_encoder(CodecType::PCMA);
    let encoded = encoder.encode(&pcm);
    assert_eq!(encoded.len(), 160);
    let mut decoder = CodecFactory::create_decoder(CodecType::PCMA);
    assert_eq!(decoder.decode(&encoded).len(), 160);
}

#[test]
fn factory_makes_the_codec_asked_for() {
    for codec in [CodecType::PCMU, CodecType::PCMA, CodecType::TelephoneEvent] {
        assert!(CodecFactory::is_supported(codec));
        assert_eq!(CodecFactory::create_encoder(codec).get_type(), codec);
        assert_eq!(CodecFactory::create_decoder(codec).get_type(), codec);
    }
    assert!(!CodecFactory::is_supported(CodecType::G729));
}

#[test]
fn telephone_event_codec_carries_nothing() {
    let mut encoder = CodecFactory::create_encoder(CodecType::TelephoneEvent);
    let mut decoder = CodecFactory::create_decoder(CodecType::TelephoneEvent);
    assert!(encoder.encode(&[1, 2, 3]).is_empty());
    assert!(decoder.decode(&[1, 2, 3, 4]).is_empty());
}
