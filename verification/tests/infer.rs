//! Tests of the embedding backends and end-to-end tag inference over the
//! verified ranking core.

use clapety_clap::config::InferenceConfig;
use clapety_clap::config::default_tags;
use clapety_clap::DummyBackend;
use clapety_clap::EmbeddingBackend;
use clapety_clap::TagInferencer;
use clapety_clap::infer_from_scores;

/// Cosine similarity over bit-pattern embeddings, exactly 0 when either
/// norm is 0.
fn cosine_bits(a: &Vec<u32>, b: &Vec<u32>) -> f32 {
    let dot: f32 = a
        .iter()
        .zip(b.iter())
        .map(|(x, y)| f32::from_bits(*x) * f32::from_bits(*y))
        .sum();
    let na: f32 = a
        .iter()
        .map(|x| f32::from_bits(*x) * f32::from_bits(*x))
        .sum::<f32>()
        .sqrt();
    let nb: f32 = b
        .iter()
        .map(|x| f32::from_bits(*x) * f32::from_bits(*x))
        .sum::<f32>()
        .sqrt();
    if na == 0.0 || nb == 0.0 {
        0.0
    } else {
        dot / (na * nb)
    }
}

/// An order-preserving integer key for a similarity value.
fn score_key(x: f32) -> i64 {
    let b = x.to_bits() as i32;
    if b >= 0 {
        b as i64
    } else {
        (i32::MIN as i64) - (b as i64)
    }
}

fn sim_key(a: &Vec<u32>, b: &Vec<u32>) -> i64 {
    score_key(cosine_bits(a, b))
}

#[test]
fn smoke() {
    let backend = DummyBackend::new();
    let _cfg = InferenceConfig { top_k: 3 };
    // won't actually read audio; if file missing this test is trivial to adjust
    let _fake = std::path::PathBuf::from("Cargo.toml");
    let res = backend.embed_audio(&[]);
    assert_eq!(res.len(), 64);
    let tags = default_tags();
    let tags_embs = backend.embed_text(&tags);
    assert_eq!(tags_embs.len(), tags.len());
    let _ = cosine_bits(&tags_embs[0], &tags_embs[1]);
}

#[test]
fn cosine_of_self_is_one_and_zero_vector_is_zero() {
    let v: Vec<u32> = vec![1.0f32.to_bits(), 0.5f32.to_bits(), (-0.25f32).to_bits()];
    let sim = cosine_bits(&v, &v);
    assert!((sim - 1.0).abs() < 1e-6);
    let zero: Vec<u32> = vec![0.0f32.to_bits(); 3];
    assert_eq!(cosine_bits(&v, &zero), 0.0);
    assert_eq!(cosine_bits(&zero, &zero), 0.0);
}

struct AxisBackend;

impl EmbeddingBackend for AxisBackend {
    fn embed_audio(&self, _bytes: &[u8]) -> Vec<u32> {
        vec![1.0f32.to_bits(), 0.0f32.to_bits(), 0.0f32.to_bits()]
    }
    fn embed_text(&self, texts: &Vec<String>) -> Vec<Vec<u32>> {
        (0..texts.len())
            .map(|t| {
                (0..3)
                    .map(|j| if j == t { 1.0f32.to_bits() } else { 0.0f32.to_bits() })
                    .collect()
            })
            .collect()
    }
    fn model_name(&self) -> &str {
        "axis-test"
    }
}

#[test]
fn axis_scenario_ranks_by_similarity_with_vocabulary_tie_break() {
    let vocab: Vec<String> = vec![
        "speech".to_string(),
        "music".to_string(),
        "noise".to_string(),
    ];
    let infer = TagInferencer::new(AxisBackend);
    let cfg = InferenceConfig { top_k: 2 };
    let r = infer.infer_bytes("clip.wav", &[], &vocab, &cfg, sim_key);
    // "speech" has similarity 1.0; "music" and "noise" both 0.0, and
    // "music" wins the tie by vocabulary order.
    assert_eq!(r.tags, vec!["speech".to_string(), "music".to_string()]);
    assert_eq!(r.caption, "speech, music");
    assert_eq!(r.file, "clip.wav");
    assert_eq!(r.model, "axis-test");
}

#[test]
fn top_k_zero_yields_empty_tags_and_caption() {
    let vocab: Vec<String> = vec!["speech".to_string(), "music".to_string()];
    let scores: Vec<i64> = vec![10, 20];
    let r = infer_from_scores("f.wav", "m", &vocab, &scores, 0);
    assert!(r.tags.is_empty());
    assert_eq!(r.caption, "");
}

#[test]
fn top_k_beyond_vocabulary_returns_full_vocabulary() {
    let vocab: Vec<String> = vec!["a".to_string(), "b".to_string(), "c".to_string()];
    let scores: Vec<i64> = vec![1, 2, 3];
    let r = infer_from_scores("f.wav", "m", &vocab, &scores, 10);
    assert_eq!(
        r.tags,
        vec!["c".to_string(), "b".to_string(), "a".to_string()]
    );
    assert_eq!(r.caption, "c, b, a");
}

#[test]
fn repeated_runs_are_identical() {
    let backend = DummyBackend::new();
    let infer = TagInferencer::new(backend);
    let cfg = InferenceConfig { top_k: 3 };
    let vocab = default_tags();
    let bytes = [7u8, 13, 21];
    let r1 = infer.infer_bytes("loop.wav", &bytes, &vocab, &cfg, sim_key);
    let r2 = infer.infer_bytes("loop.wav", &bytes, &vocab, &cfg, sim_key);
    assert_eq!(r1.file, r2.file);
    assert_eq!(r1.model, r2.model);
    assert_eq!(r1.tags, r2.tags);
    assert_eq!(r1.caption, r2.caption);
    assert_eq!(r1.tags.len(), 3);
}

#[test]
fn dummy_backend_is_deterministic() {
    let b1 = DummyBackend::new();
    let b2 = DummyBackend::new();
    assert_eq!(b1.embed_audio(&[1, 2, 3]), b2.embed_audio(&[]));
    let texts = vec!["x".to_string(), "y".to_string()];
    assert_eq!(b1.embed_text(&texts), b2.embed_text(&texts));
    assert_eq!(b1.model_name(), "dummy-clap");
    // Every component is the bit pattern of a value in [1, 2).
    for c in b1.embed_audio(&[]) {
        let v = f32::from_bits(c);
        assert!((1.0..2.0).contains(&v));
    }
}
