//! Tests of the resampling schedule, spectrogram framing, filterbank,
//! ranking and extension filtering.

use clapety_clap::config::InferenceConfig;
use clapety_clap::config::default_tags;
use clapety_clap::config::supported_exts;
use clapety_clap::MelWeight;
use clapety_clap::build_mel_filterbank;
use clapety_clap::caption_for;
use clapety_clap::hop_length;
use clapety_clap::is_supported;
use clapety_clap::invalid_path_error;
use clapety_clap::linear_resample;
use clapety_clap::log_mel_spectrogram;
use clapety_clap::rank_indices;
use clapety_clap::top_k_indices;
use clapety_clap::ClapetyError;

fn lerp(a: f32, b: f32, num: u64, den: u64) -> f32 {
    let frac = num as f32 / den as f32;
    a * (1.0 - frac) + b * frac
}

#[test]
fn resample_identity_same_rate() {
    let input: Vec<f32> = vec![0.25, -0.5, 0.75, 0.0];
    let out = linear_resample(&input, 44100, 44100, lerp);
    assert_eq!(out, input);
}

#[test]
fn resample_identity_empty_input() {
    let input: Vec<f32> = Vec::new();
    let out = linear_resample(&input, 44100, 48000, lerp);
    assert!(out.is_empty());
}

#[test]
fn resample_length_is_ceiling() {
    let input: Vec<f32> = vec![0.1, 0.2, 0.3, 0.4, 0.5];
    // ceil(5 * 7 / 3) = ceil(11.67) = 12
    let out = linear_resample(&input, 3, 7, lerp);
    assert_eq!(out.len(), 12);
    // ceil(5 * 1 / 2) = 3
    let out = linear_resample(&input, 2, 1, lerp);
    assert_eq!(out.len(), 3);
}

#[test]
fn resample_upsample_blends_neighbours() {
    let input: Vec<f32> = vec![0.0, 1.0];
    let out = linear_resample(&input, 1, 2, lerp);
    // positions 0, 1/2, 1, 3/2 -> blend, blend, last sample, last sample
    assert_eq!(out, vec![0.0, 0.5, 1.0, 1.0]);
}

#[test]
fn resample_downsample_picks_positions() {
    let input: Vec<f32> = vec![0.0, 1.0, 2.0, 3.0];
    let out = linear_resample(&input, 4, 2, lerp);
    assert_eq!(out, vec![0.0, 2.0]);
}

fn first_sample_frame(fr: Vec<f32>) -> Vec<f32> {
    vec![fr[0]; 64]
}

#[test]
fn empty_pcm_yields_empty_spectrogram() {
    let pcm: Vec<f32> = Vec::new();
    let mel = log_mel_spectrogram(&pcm, 48000, first_sample_frame);
    assert!(mel.is_empty());
}

#[test]
fn short_pcm_yields_no_frames() {
    let pcm: Vec<f32> = vec![0.5; 1023];
    let mel = log_mel_spectrogram(&pcm, 48000, first_sample_frame);
    assert!(mel.is_empty());
}

#[test]
fn frame_count_matches_formula() {
    // With 48 kHz the hop is 480 samples and the window is 1024.
    let pcm: Vec<f32> = (0..2000).map(|i| i as f32).collect();
    let mel = log_mel_spectrogram(&pcm, 48000, first_sample_frame);
    // floor((2000 - 1024) / 480) + 1 = 3
    assert_eq!(mel.len(), 3);
    for frame in &mel {
        assert_eq!(frame.len(), 64);
    }
    // Each frame starts at a multiple of the hop.
    assert_eq!(mel[0][0], 0.0);
    assert_eq!(mel[1][0], 480.0);
    assert_eq!(mel[2][0], 960.0);

    let exact: Vec<f32> = vec![0.25; 1024];
    let mel = log_mel_spectrogram(&exact, 48000, first_sample_frame);
    assert_eq!(mel.len(), 1);
    assert_eq!(mel[0].len(), 64);
}

#[test]
fn hop_length_is_ten_milliseconds_rounded() {
    assert_eq!(hop_length(48000), 480);
    assert_eq!(hop_length(44100), 441);
    assert_eq!(hop_length(22050), 221);
    assert_eq!(hop_length(50), 1);
}

#[test]
fn filterbank_builds_exact_triangles() {
    let bins: Vec<usize> = (0..66).map(|i| 2 * i).collect();
    let fb = build_mel_filterbank(&bins);
    assert_eq!(fb.len(), 64);
    for row in &fb {
        assert_eq!(row.len(), 513);
    }
    // Band 0 spans bins 0..4 with centre 2.
    assert_eq!(fb[0][0], MelWeight { num: 0, den: 2 });
    assert_eq!(fb[0][1], MelWeight { num: 1, den: 2 });
    assert_eq!(fb[0][2], MelWeight { num: 2, den: 2 });
    assert_eq!(fb[0][3], MelWeight { num: 1, den: 2 });
    assert_eq!(fb[0][4], MelWeight { num: 0, den: 1 });
    // Band 1 spans bins 2..6: rising part starts at its lower bin.
    assert_eq!(fb[1][2], MelWeight { num: 0, den: 2 });
    assert_eq!(fb[1][3], MelWeight { num: 1, den: 2 });
    assert_eq!(fb[1][4], MelWeight { num: 2, den: 2 });
    assert_eq!(fb[1][5], MelWeight { num: 1, den: 2 });
}

#[test]
fn ranking_sorts_descending_with_stable_ties() {
    let scores: Vec<i64> = vec![5, 9, 9, 1];
    assert_eq!(rank_indices(&scores), vec![1, 2, 0, 3]);
    assert_eq!(top_k_indices(&scores, 2), vec![1, 2]);
    assert_eq!(top_k_indices(&scores, 0), Vec::<usize>::new());
    // top_k beyond the number of candidates returns the full ranking.
    assert_eq!(top_k_indices(&scores, 100), vec![1, 2, 0, 3]);
}

#[test]
fn caption_joins_tags_with_comma_space() {
    let tags: Vec<String> = vec!["a".to_string(), "b".to_string(), "c".to_string()];
    assert_eq!(caption_for(&tags), "a, b, c");
    assert_eq!(caption_for(&Vec::new()), "");
    assert_eq!(caption_for(&vec!["solo".to_string()]), "solo");
}

#[test]
fn supported_extensions_match_case_insensitively() {
    assert!(is_supported("x.wav"));
    assert!(is_supported("X.WAV"));
    assert!(is_supported("dir/sub/x.Mp3"));
    assert!(is_supported("x.flac"));
    assert!(is_supported("x.ogg"));
    assert!(is_supported("x.m4a"));
    assert!(is_supported("x.webm"));
    assert!(!is_supported("x.txt"));
    assert!(!is_supported("noext"));
    assert!(!is_supported(".wav"));
    assert!(!is_supported("x."));
    assert!(!is_supported("a.tar.gz"));
    assert!(!is_supported("Cargo.toml"));
    assert!(!is_supported("dir.wav/file"));
}

#[test]
fn invalid_path_reports_the_path() {
    let e = invalid_path_error("missing/file.wav");
    match &e {
        ClapetyError::Invalid(m) => assert_eq!(m, "Path not found: missing/file.wav"),
        _ => panic!("wrong variant"),
    }
    assert_eq!(e.message(), "Invalid argument: Path not found: missing/file.wav");
    assert_eq!(
        ClapetyError::Io("denied".to_string()).message(),
        "IO error: denied"
    );
    assert_eq!(
        ClapetyError::Other("oops".to_string()).message(),
        "Other: oops"
    );
}

#[test]
fn default_configuration() {
    assert_eq!(InferenceConfig::default().top_k, 3);
    let tags = default_tags();
    assert_eq!(tags.len(), 20);
    assert_eq!(tags[0], "speech");
    assert_eq!(tags[19], "noise");
    let exts = supported_exts();
    assert_eq!(exts.len(), 6);
    assert_eq!(exts[0], ".wav");
}
