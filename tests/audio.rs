use dictate::conditioning::{condition_samples, resample_to_16k, TARGET_RATE};
use dictate::prefilter::prefilter_speech;
use dictate::silence::{find_dynamic_tail_start, frame_energies, noise_floor_of, speech_median_of, FULL_SCALE};
use dictate::trim::trim_silence;

const FRAME: usize = 320;
const LOUD: i32 = 100_000;

/// A 16 kHz signal made of runs of `(frames, level)`.
fn signal(parts: &[(usize, i32)]) -> Vec<i32> {
    let mut v = Vec::new();
    for &(frames, level) in parts {
        v.extend(std::iter::repeat(level).take(frames * FRAME));
    }
    v
}

#[test]
fn all_zero_signal_is_removed() {
    let mut samples = vec![0i32; 16_000];
    assert!(condition_samples(&mut samples, 16_000));
    assert!(samples.is_empty());
}

#[test]
fn short_all_zero_signal_is_removed_by_trim() {
    let mut samples = vec![0i32; 500];
    assert!(prefilter_speech(&mut samples, 16_000).is_none());
    assert_eq!(samples.len(), 500);
    let t = trim_silence(&mut samples, 16_000).unwrap();
    assert_eq!(t.trimmed_samples, 500);
    assert_eq!(t.trimmed_leading_samples, 500);
    assert_eq!(t.trimmed_trailing_samples, 0);
    assert!(samples.is_empty());
}

#[test]
fn uniform_full_scale_signal_has_no_speech_above_its_own_floor() {
    let mut samples = vec![FULL_SCALE as i32; 16_000];
    let v = prefilter_speech(&mut samples, 16_000).unwrap();
    assert_eq!(v.noise_floor, FULL_SCALE);
    assert_eq!(v.segments, 0);
    assert!(samples.is_empty());
}

#[test]
fn prefilter_keeps_padded_speech() {
    let mut samples = signal(&[(25, 0), (50, LOUD), (50, 0)]);
    let v = prefilter_speech(&mut samples, 16_000).unwrap();
    assert_eq!(samples.len(), 74 * FRAME);
    assert_eq!(v.kept_samples, 74 * FRAME);
    assert_eq!(v.removed_samples, 51 * FRAME);
    assert_eq!(v.segments, 1);
    assert_eq!(v.noise_floor, 0);
    assert_eq!(v.threshold, 2000);
    assert_eq!(v.keep_silence_ms, 800);
    assert_eq!(v.pad_ms, 240);
    assert_eq!(samples[12 * FRAME - 1], 0);
    assert_eq!(samples[12 * FRAME], LOUD);
    assert_eq!(samples[62 * FRAME - 1], LOUD);
    assert_eq!(samples[62 * FRAME], 0);
}

#[test]
fn prefilter_inserts_pause_between_distant_runs() {
    let mut samples = signal(&[(25, 0), (25, LOUD), (100, 0), (25, LOUD), (25, 0)]);
    let v = prefilter_speech(&mut samples, 16_000).unwrap();
    assert_eq!(v.segments, 2);
    assert_eq!(samples.len(), 49 * FRAME + 1920 + 49 * FRAME);
    assert!(samples[49 * FRAME..49 * FRAME + 1920].iter().all(|&x| x == 0));
    assert_eq!(samples[49 * FRAME + 1920 + 12 * FRAME], LOUD);
}

#[test]
fn prefilter_merges_close_runs() {
    let mut samples = signal(&[(30, 0), (20, LOUD), (30, 0), (20, LOUD), (50, 0)]);
    let v = prefilter_speech(&mut samples, 16_000).unwrap();
    assert_eq!(v.segments, 1);
    assert_eq!(samples.len(), (111 - 18 + 1) * FRAME);
}

#[test]
fn prefilter_drops_short_bursts() {
    let mut samples = signal(&[(25, 0), (5, LOUD), (25, 0)]);
    let v = prefilter_speech(&mut samples, 16_000).unwrap();
    assert_eq!(v.segments, 0);
    assert!(samples.is_empty());
}

#[test]
fn prefilter_leaves_whole_clip_speech_alone() {
    let mut samples = signal(&[(5, 0), (40, LOUD), (5, 0)]);
    let before = samples.clone();
    assert!(prefilter_speech(&mut samples, 16_000).is_none());
    assert_eq!(samples, before);
}

#[test]
fn trim_cuts_long_leading_silence() {
    let mut samples = signal(&[(50, 0), (50, LOUD)]);
    let t = trim_silence(&mut samples, 16_000).unwrap();
    assert_eq!(t.trimmed_leading_samples, 40 * FRAME);
    assert_eq!(t.trimmed_trailing_samples, 0);
    assert_eq!(t.trimmed_samples, 40 * FRAME);
    assert_eq!(t.leading_frames, 50);
    assert_eq!(samples.len(), 60 * FRAME);
    assert_eq!(samples[10 * FRAME], LOUD);
}

#[test]
fn trim_cuts_long_trailing_silence() {
    let mut samples = signal(&[(50, LOUD), (50, 0)]);
    let t = trim_silence(&mut samples, 16_000).unwrap();
    assert_eq!(t.trimmed_leading_samples, 0);
    assert_eq!(t.trimmed_trailing_samples, 31 * FRAME);
    assert_eq!(t.leading_frames, 0);
    assert_eq!(t.trailing_frames, 43);
    assert_eq!(t.threshold, 2000);
    assert_eq!(samples.len(), 69 * FRAME);
}

#[test]
fn trim_keeps_short_edge_silence() {
    let mut samples = signal(&[(10, 0), (50, LOUD), (10, 0)]);
    assert!(trim_silence(&mut samples, 16_000).is_none());
    assert_eq!(samples.len(), 70 * FRAME);
}

#[test]
fn conditioning_keeps_speech_and_reports_not_silent() {
    let mut samples = signal(&[(25, 0), (50, LOUD), (50, 0)]);
    assert!(!condition_samples(&mut samples, 16_000));
    assert_eq!(samples.len(), 74 * FRAME);
}

#[test]
fn frame_energy_is_mean_absolute_level() {
    let samples: Vec<i32> = vec![-4, 4, 2, -2, 7];
    let e = frame_energies(&samples, 2);
    assert_eq!(e, vec![4, 2, 7]);
}

#[test]
fn noise_floor_is_tenth_percentile() {
    let e: Vec<u64> = (1..=20).rev().collect();
    assert_eq!(noise_floor_of(&e), 3);
    assert_eq!(noise_floor_of(&vec![9]), 9);
}

#[test]
fn speech_median_needs_three_speech_frames() {
    assert_eq!(speech_median_of(&vec![5000, 0, 5000], 0), None);
    assert_eq!(speech_median_of(&vec![3000, 9000, 6000, 0], 0), Some(6000));
}

#[test]
fn dynamic_tail_found_after_sustained_drop() {
    let mut e = vec![100_000u64; 20];
    e.extend(vec![0u64; 30]);
    assert_eq!(find_dynamic_tail_start(&e, 100_000), Some(27));
    let short = vec![100_000u64; 24];
    assert_eq!(find_dynamic_tail_start(&short, 100_000), None);
    assert_eq!(find_dynamic_tail_start(&e, 0), None);
}

#[test]
fn resampling_is_identity_at_target_rate() {
    let input = vec![0.25f32, -0.5, 1.0];
    let out = resample_to_16k(input.clone(), TARGET_RATE, |_v: Vec<f32>, _r: u32| -> Result<Vec<f32>, String> {
        Err("converter must not run".to_string())
    });
    assert_eq!(out, Ok(input));
}

#[test]
fn resampling_hands_other_rates_to_converter() {
    let out = resample_to_16k(vec![1i32, 2, 3, 4], 32_000, |v: Vec<i32>, r: u32| -> Result<Vec<i32>, String> {
        assert_eq!(r, 32_000);
        Ok(v.into_iter().step_by(2).collect())
    });
    assert_eq!(out, Ok(vec![1, 3]));
}
