use sentiric_rtp_core::dsp::{simple_resample, AudioResampler};

#[test]
fn doubling_inserts_means() {
    assert_eq!(simple_resample(&[100, 200], 8000, 16000), vec![100, 150, 200, 200]);
}

#[test]
fn halving_averages_pairs() {
    assert_eq!(simple_resample(&[100, 150, 200, 220], 16000, 8000), vec![125, 210]);
}

#[test]
fn halving_keeps_an_unpaired_last_sample() {
    assert_eq!(simple_resample(&[100, 150, 7], 16000, 8000), vec![125, 7]);
    assert_eq!(simple_resample(&[9], 2, 1), vec![9]);
}

#[test]
fn means_round_toward_zero() {
    assert_eq!(simple_resample(&[1, 2], 8000, 16000), vec![1, 1, 2, 2]);
    assert_eq!(simple_resample(&[-1, -2], 8000, 16000), vec![-1, -1, -2, -2]);
    assert_eq!(simple_resample(&[-1, -2, 3, 4], 16000, 8000), vec![-1, 3]);
    assert_eq!(simple_resample(&[-3, 2], 16000, 8000), vec![0]);
    assert_eq!(simple_resample(&[i16::MIN, i16::MAX], 1, 2), vec![i16::MIN, 0, i16::MAX, i16::MAX]);
    assert_eq!(simple_resample(&[i16::MIN, i16::MIN], 2, 1), vec![i16::MIN]);
    assert_eq!(simple_resample(&[i16::MAX, i16::MAX], 2, 1), vec![i16::MAX]);
}

#[test]
fn equal_rates_copy() {
    assert_eq!(simple_resample(&[5, -6, 7], 8000, 8000), vec![5, -6, 7]);
}

#[test]
fn empty_input_and_zero_target_rate_give_nothing() {
    assert!(simple_resample(&[], 8000, 16000).is_empty());
    assert!(simple_resample(&[1, 2, 3], 8000, 0).is_empty());
    // With nothing to convert the source rate does not matter.
    assert!(simple_resample(&[], 0, 16000).is_empty());
    assert!(simple_resample(&[], 0, 0).is_empty());
    assert!(simple_resample(&[1, 2, 3], 0, 0).is_empty());
}

#[test]
fn tripling_interpolates_thirds() {
    // Positions 0, 1/3, 2/3, 1, 4/3, 5/3 on the input's axis.
    assert_eq!(simple_resample(&[0, 30], 1, 3), vec![0, 10, 20, 30, 30, 30]);
    assert_eq!(simple_resample(&[0, -10], 1, 3), vec![0, -3, -6, -10, -10, -10]);
}

#[test]
fn other_reductions_sample_the_line() {
    // 3:1 takes every third sample.
    assert_eq!(simple_resample(&[1, 2, 3, 4, 5, 6, 7], 3, 1), vec![1, 4, 7]);
    // 3:2 sits at 0, 1.5, 3, 4.5.
    assert_eq!(simple_resample(&[0, 10, 20, 30, 40, 50], 3, 2), vec![0, 15, 30, 45]);
}

#[test]
fn output_length_is_rounded_up() {
    assert_eq!(simple_resample(&[0; 160], 8000, 16000).len(), 320);
    assert_eq!(simple_resample(&[0; 320], 16000, 8000).len(), 160);
    assert_eq!(simple_resample(&[0; 161], 16000, 8000).len(), 81);
    assert_eq!(simple_resample(&[0; 10], 44100, 8000).len(), 2);
    assert_eq!(simple_resample(&[0; 441], 44100, 8000).len(), 80);
}

#[test]
fn test_resampler_upscale() {
    let input = vec![1000; 160];
    let mut resampler = AudioResampler::new(8000, 16000, 160);

    let output = resampler.process(&input);

    println!("Upscale: In {} -> Out {}", input.len(), output.len());
    assert!(output.len() >= 315 && output.len() <= 325, "wrong output length: {}", output.len());
}

#[test]
fn test_resampler_downscale() {
    let input = vec![1000; 320];
    let mut resampler = AudioResampler::new(16000, 8000, 320);

    let output = resampler.process(&input);

    println!("Downscale: In {} -> Out {}", input.len(), output.len());
    assert!(output.len() >= 158 && output.len() <= 162, "wrong output length: {}", output.len());
}

#[test]
fn test_continuity() {
    let input = vec![1000; 160];
    let mut resampler = AudioResampler::new(8000, 16000, 160);

    let out1 = resampler.process(&input);
    let out2 = resampler.process(&input);

    assert_eq!(out1.len(), out2.len(), "chunks must come out at equal length");
}

#[test]
fn cubic_doubling_of_a_step() {
    let mut resampler = AudioResampler::new(8000, 16000, 160);
    let first = resampler.process(&[1000; 160]);
    assert_eq!(first.len(), 318);
    // The curve rises out of the silence before the first chunk, overshoots
    // once and settles.
    assert_eq!(&first[..6], &[0, 500, 1000, 1062, 1000, 1000]);
    assert!(first[4..].iter().all(|s| *s == 1000));
    // The second chunk carries on where the first ended.
    let second = resampler.process(&[1000; 160]);
    assert_eq!(second.len(), 318);
    assert!(second.iter().all(|s| *s == 1000));
}

#[test]
fn cubic_halving_of_a_step() {
    let mut resampler = AudioResampler::new(16000, 8000, 320);
    let output = resampler.process(&[1000; 320]);
    assert_eq!(output.len(), 160);
    assert_eq!(output[0], 0);
    assert!(output[1..].iter().all(|s| *s == 1000));
}

#[test]
fn cubic_doubling_of_a_ramp() {
    let mut resampler = AudioResampler::new(1, 2, 0);
    assert_eq!(
        resampler.process(&[100, 200, 300, 400, 500]),
        vec![0, 43, 100, 150, 200, 250, 300, 350]
    );
}

#[test]
fn cubic_tripling_interpolates_thirds() {
    let mut resampler = AudioResampler::new(1, 3, 0);
    assert_eq!(
        resampler.process(&[100, 200, 300, 400, 500, 600]),
        vec![0, 25, 62, 100, 133, 166, 200, 233, 266, 300, 333, 366, 400, 433, 466]
    );
}

#[test]
fn cubic_overshoot_is_clamped() {
    let mut resampler = AudioResampler::new(1, 2, 0);
    assert_eq!(
        resampler.process(&[32767, 32767, -32768, -32768, 32767, 32767]),
        vec![0, 16383, 32767, 32767, 32767, 0, -32768, -32768, -32768, 0]
    );
}

#[test]
fn cubic_rounds_toward_zero() {
    let mut resampler = AudioResampler::new(1, 2, 0);
    assert_eq!(
        resampler.process(&[100, -200, 300, -400, 32767, 32767, -32768, -32768, 32767]),
        vec![0, 68, 100, -75, -200, 75, 300, -2091, -400, 16139, 32767, 32767, 32767, 0, -32768, -32768]
    );
}

#[test]
fn cubic_keeps_the_last_four_samples() {
    let mut split = AudioResampler::new(3, 2, 0);
    split.process(&[10, 20]);
    split.process(&[30, 40]);
    // With 10, 20, 30, 40 for history, the next chunk starts on 40.
    assert_eq!(split.process(&[50, 60, 70, 80, 90, 100, 110]), vec![40, 55, 70, 85]);

    let mut whole = AudioResampler::new(3, 2, 0);
    whole.process(&[10, 20, 30, 40]);
    assert_eq!(whole.process(&[50, 60, 70, 80, 90, 100, 110]), vec![40, 55, 70, 85]);
}

#[test]
fn cubic_short_chunks() {
    let mut resampler = AudioResampler::new(8000, 16000, 160);
    assert!(resampler.process(&[]).is_empty());
    // One sample opens no interval that could be closed yet.
    assert!(resampler.process(&[1000]).is_empty());
    assert_eq!(resampler.process(&[1000, 1000]), vec![1000, 1062]);
}

#[test]
fn equal_rates_pass_the_chunk_through() {
    let mut resampler = AudioResampler::new(8000, 8000, 160);
    assert_eq!(resampler.process(&[1, -2, 3]), vec![1, -2, 3]);
    assert!(resampler.process(&[]).is_empty());
}
