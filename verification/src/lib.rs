//! Core of an audio tag-ranking pipeline.
//!
//! The library covers the portions of the pipeline whose behaviour is exact:
//! the linear resampling schedule, log-mel spectrogram framing, mel filterbank
//! triangle construction, cosine-similarity ranking of a candidate vocabulary,
//! and supported-extension filtering.  Floating-point signal arithmetic, audio
//! container decoding and file-system traversal are left to the surrounding
//! application, which drives the verified core through the closure and score
//! parameters the core exposes.

pub mod config;
pub mod discover;
pub mod error;
pub mod infer;
pub mod rank;
pub mod resample;
pub mod spectrogram;

pub use discover::is_supported;
pub use error::ClapetyError;
pub use error::invalid_path_error;
pub use infer::DummyBackend;
pub use infer::EmbeddingBackend;
pub use infer::FileCaption;
pub use infer::TagInferencer;
pub use infer::infer_from_scores;
pub use rank::caption_for;
pub use rank::rank_indices;
pub use rank::top_k_indices;
pub use resample::linear_resample;
pub use spectrogram::MelWeight;
pub use spectrogram::build_mel_filterbank;
pub use spectrogram::hop_length;
pub use spectrogram::log_mel_spectrogram;
pub use config::InferenceConfig;
pub use config::default_tags;
pub use config::supported_exts;
pub use config::N_FFT;
pub use config::WINDOW_LEN;
pub use config::N_MELS;
pub use config::SPEC_BINS;
