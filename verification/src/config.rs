//! Fixed configuration of the pipeline: spectrogram parameters, the built-in
//! candidate vocabulary, and the supported-extension allowlist.

use vstd::prelude::*;
use vstd::string::StringExecFns;

verus! {

/// Number of points of the forward FFT applied to each analysis frame.
pub const N_FFT: usize = 1024;

/// Length in samples of one analysis window (equal to the FFT size, so no
/// zero padding is ever required).
pub const WINDOW_LEN: usize = 1024;

/// Number of mel bands in every spectrogram frame.
pub const N_MELS: usize = 64;

/// Number of non-negative frequency bins of the power spectrum,
/// `N_FFT / 2 + 1`.
pub const SPEC_BINS: usize = 513;

/// Requested number of top-ranked tags per file, defaulting to 3.
#[derive(Debug, Clone)]
pub struct InferenceConfig {
    pub top_k: usize,
}

impl Default for InferenceConfig {
    fn default() -> (c: Self)
        ensures
            c.top_k == 3,
    {
        InferenceConfig { top_k: 3 }
    }
}

/// The built-in candidate vocabulary: 20 tags spanning source-type,
/// instrument and acoustic-texture categories, in ranking tie-break order.
pub fn default_tags() -> (tags: Vec<String>)
    ensures
        tags@.len() == 20,
        tags@[0]@ == "speech"@,
        tags@[1]@ == "male voice"@,
        tags@[2]@ == "female voice"@,
        tags@[3]@ == "music"@,
        tags@[4]@ == "instrumental"@,
        tags@[5]@ == "drums"@,
        tags@[6]@ == "guitar"@,
        tags@[7]@ == "piano"@,
        tags@[8]@ == "bass"@,
        tags@[9]@ == "synth"@,
        tags@[10]@ == "loop"@,
        tags@[11]@ == "ambient"@,
        tags@[12]@ == "crowd"@,
        tags@[13]@ == "applause"@,
        tags@[14]@ == "footsteps"@,
        tags@[15]@ == "rain"@,
        tags@[16]@ == "wind"@,
        tags@[17]@ == "birdsong"@,
        tags@[18]@ == "engine"@,
        tags@[19]@ == "noise"@,
{
    let mut tags: Vec<String> = Vec::new();
    tags.push(String::from_str("speech"));
    tags.push(String::from_str("male voice"));
    tags.push(String::from_str("female voice"));
    tags.push(String::from_str("music"));
    tags.push(String::from_str("instrumental"));
    tags.push(String::from_str("drums"));
    tags.push(String::from_str("guitar"));
    tags.push(String::from_str("piano"));
    tags.push(String::from_str("bass"));
    tags.push(String::from_str("synth"));
    tags.push(String::from_str("loop"));
    tags.push(String::from_str("ambient"));
    tags.push(String::from_str("crowd"));
    tags.push(String::from_str("applause"));
    tags.push(String::from_str("footsteps"));
    tags.push(String::from_str("rain"));
    tags.push(String::from_str("wind"));
    tags.push(String::from_str("birdsong"));
    tags.push(String::from_str("engine"));
    tags.push(String::from_str("noise"));
    tags
}

/// The supported audio file extensions, each with its leading dot, in
/// lower case.
pub fn supported_exts() -> (exts: Vec<String>)
    ensures
        exts@.len() == 6,
        exts@[0]@ == ".wav"@,
        exts@[1]@ == ".mp3"@,
        exts@[2]@ == ".flac"@,
        exts@[3]@ == ".ogg"@,
        exts@[4]@ == ".m4a"@,
        exts@[5]@ == ".webm"@,
{
    let mut exts: Vec<String> = Vec::new();
    exts.push(String::from_str(".wav"));
    exts.push(String::from_str(".mp3"));
    exts.push(String::from_str(".flac"));
    exts.push(String::from_str(".ogg"));
    exts.push(String::from_str(".m4a"));
    exts.push(String::from_str(".webm"));
    exts
}

} // verus!
