//! Log-mel spectrogram framing and mel filterbank construction.
//!
//! A spectrogram is a sequence of frames, one per window position; every
//! frame holds exactly [`N_MELS`](crate::config::N_MELS) values.  The exact
//! parts — window placement, frame count, and the triangular filterbank
//! weights, which are ratios of bin distances — are computed here.  The
//! caller supplies the per-frame transform (windowing, FFT, power spectrum,
//! filter application and logarithm), so the sample type stays abstract.

use vstd::prelude::*;
use vstd::arithmetic::div_mod::lemma_fundamental_div_mod_converse_div;
use crate::config::N_MELS;
use crate::config::SPEC_BINS;
use crate::config::WINDOW_LEN;

verus! {

/// Hop between analysis windows, in samples: 10 ms at the given sample
/// rate, rounded to the nearest whole sample (halves up).
pub open spec fn hop_spec(sample_rate: nat) -> nat {
    ((sample_rate + 50) / 100) as nat
}

/// Number of frames produced from `n` samples with the given hop: windows
/// are placed every `hop` samples and only fully contained windows count.
pub open spec fn frame_count(n: nat, hop: nat) -> nat
    recommends
        hop > 0,
{
    if n < WINDOW_LEN {
        0
    } else {
        (((n - WINDOW_LEN) as int / hop as int) + 1) as nat
    }
}

/// An empty PCM buffer always yields an empty spectrogram.
pub proof fn lemma_empty_pcm_empty_spectrogram(hop: nat)
    ensures
        frame_count(0, hop) == 0,
{
}

/// Hop between analysis windows for this sample rate, in samples.
pub fn hop_length(sample_rate: u32) -> (hop: usize)
    ensures
        hop == hop_spec(sample_rate as nat),
{
    (((sample_rate as u64 + 50) / 100) as u32) as usize
}

/// Holds when `row` is a possible result of `frame_fn` applied to the
/// window of [`WINDOW_LEN`] samples starting at `t * hop` in `pcm`.
pub open spec fn is_frame_result<T, U, F: Fn(Vec<T>) -> Vec<U>>(
    frame_fn: F,
    pcm: Seq<T>,
    hop: nat,
    t: int,
    row: Vec<U>,
) -> bool {
    exists|fr: Vec<T>|
        fr@ == pcm.subrange(t * hop, t * hop + WINDOW_LEN) && call_ensures(frame_fn, (fr,), row)
}

/// Frames `pcm` into fully contained windows of [`WINDOW_LEN`] samples every
/// [`hop_spec`]`(sample_rate)` samples, and applies `frame_fn` to each
/// window.  `frame_fn` realises the numeric part of the extraction: Hann
/// windowing, forward FFT, power spectrum, mel filtering and `ln(e + 1e-10)`
/// per band; it must produce exactly [`N_MELS`] values per frame.  An empty
/// input — or any input shorter than one window — yields an empty
/// spectrogram, not an error.
pub fn log_mel_spectrogram<T: Copy, U, F: Fn(Vec<T>) -> Vec<U>>(
    pcm: &Vec<T>,
    sample_rate: u32,
    frame_fn: F,
) -> (mel: Vec<Vec<U>>)
    requires
        sample_rate >= 50,
        pcm@.len() + hop_spec(sample_rate as nat) <= usize::MAX,
        forall|args: (Vec<T>,)| #[trigger] call_requires(frame_fn, args),
        forall|args: (Vec<T>,), row: Vec<U>|
            #[trigger] call_ensures(frame_fn, args, row) ==> row@.len() == N_MELS,
    ensures
        mel@.len() == frame_count(pcm@.len(), hop_spec(sample_rate as nat)),
        forall|t: int| 0 <= t < mel@.len() ==> #[trigger] mel@[t]@.len() == N_MELS,
        forall|t: int|
            0 <= t < mel@.len() ==> is_frame_result(
                frame_fn,
                pcm@,
                hop_spec(sample_rate as nat),
                t,
                #[trigger] mel@[t],
            ),
{
    let n = pcm.len();
    let hop = hop_length(sample_rate);
    let ghost hopn = hop_spec(sample_rate as nat);
    let mut mel: Vec<Vec<U>> = Vec::new();
    if n < WINDOW_LEN {
        return mel;
    }
    let ghost mut wits: Seq<Vec<T>> = Seq::empty();
    let last_start = n - WINDOW_LEN;
    let mut idx: usize = 0;
    while idx <= last_start
        invariant
            hop == hopn,
            hop >= 1,
            n == pcm@.len(),
            n >= WINDOW_LEN,
            n + hop <= usize::MAX,
            last_start == n - WINDOW_LEN,
            idx == mel@.len() * hop,
            mel@.len() * hop <= last_start + hop,
            wits.len() == mel@.len(),
            forall|t: int| 0 <= t < mel@.len() ==> #[trigger] mel@[t]@.len() == N_MELS,
            forall|t: int|
                0 <= t < mel@.len() ==> (#[trigger] wits[t])@ == pcm@.subrange(
                    t * hopn,
                    t * hopn + WINDOW_LEN,
                ) && call_ensures(frame_fn, (wits[t],), mel@[t]),
            forall|args: (Vec<T>,)| #[trigger] call_requires(frame_fn, args),
            forall|args: (Vec<T>,), row: Vec<U>|
                #[trigger] call_ensures(frame_fn, args, row) ==> row@.len() == N_MELS,
        decreases last_start + hop - idx,
    {
        let mut fr: Vec<T> = Vec::new();
        let mut w: usize = 0;
        while w < WINDOW_LEN
            invariant
                n == pcm@.len(),
                idx + WINDOW_LEN <= n,
                w <= WINDOW_LEN,
                fr@ == pcm@.subrange(idx as int, idx + w),
            decreases WINDOW_LEN - w,
        {
            fr.push(pcm[idx + w]);
            assert(fr@ =~= pcm@.subrange(idx as int, idx + w + 1));
            w = w + 1;
        }
        let ghost frg = fr;
        let ghost t0 = mel@.len() as int;
        let row = frame_fn(fr);
        mel.push(row);
        proof {
            wits = wits.push(frg);
            assert(t0 * hopn == idx);
            assert(wits[t0]@ == pcm@.subrange(t0 * hopn, t0 * hopn + WINDOW_LEN));
            assert(call_ensures(frame_fn, (wits[t0],), mel@[t0]));
            assert(mel@[t0]@.len() == N_MELS);
            assert((t0 + 1) * hop == t0 * hop + hop) by (nonlinear_arith);
        }
        idx = idx + hop;
    }
    proof {
        assert(hopn == hop_spec(sample_rate as nat));
        assert forall|t: int| 0 <= t < mel@.len() implies is_frame_result(
            frame_fn,
            pcm@,
            hop_spec(sample_rate as nat),
            t,
            #[trigger] mel@[t],
        ) by {
            let w = wits[t];
            assert(w@ == pcm@.subrange(t * hopn, t * hopn + WINDOW_LEN) && call_ensures(
                frame_fn,
                (w,),
                mel@[t],
            ));
        }
        let t = mel@.len() as int;
        // The loop stopped at the first window start past `last_start`, so
        // `t - 1` is exactly the integer quotient `(n - WINDOW_LEN) / hop`.
        assert(t >= 1) by {
            if t == 0 {
                assert(idx == 0);
            }
        }
        assert((t - 1) * hop == t * hop - hop) by (nonlinear_arith);
        let x = (n - WINDOW_LEN) as int;
        let r = x - (t - 1) * hop;
        assert(0 <= r < hop);
        lemma_fundamental_div_mod_converse_div(x, hop as int, t - 1, r);
        assert(t - 1 == x / (hop as int));
    }
    mel
}

/// One triangular filterbank weight, an exact ratio `num / den` with
/// `den >= 1`.
#[derive(Debug, Clone, Copy, PartialEq, Eq, Structural)]
pub struct MelWeight {
    pub num: usize,
    pub den: usize,
}

/// Numerator of the triangle weight of power-spectrum bin `k` for the mel
/// band whose lower, centre and upper bins are `lo`, `c`, `hi`: the weight
/// rises linearly from `lo` to `c` and falls linearly from `c` to `hi`, and
/// is zero outside the triangle.
pub open spec fn tri_weight_num(lo: int, c: int, hi: int, k: int) -> int {
    if lo <= k < c {
        k - lo
    } else if c <= k < hi {
        hi - k
    } else {
        0
    }
}

/// Denominator of the triangle weight of bin `k`; `1` outside the triangle,
/// where the weight is zero.
pub open spec fn tri_weight_den(lo: int, c: int, hi: int, k: int) -> int {
    if lo <= k < c {
        c - lo
    } else if c <= k < hi {
        hi - c
    } else {
        1
    }
}

/// Builds the mel filterbank from the `N_MELS + 2` FFT bin indices of the
/// equally spaced mel points: one row of [`SPEC_BINS`] triangle weights per
/// mel band, where band `m` spans `bins[m] .. bins[m + 2]` with its centre
/// at `bins[m + 1]`.  The rows depend on the bin indices alone, so the bank
/// can be built once and shared read-only.
pub fn build_mel_filterbank(bins: &Vec<usize>) -> (fb: Vec<Vec<MelWeight>>)
    requires
        bins@.len() == N_MELS + 2,
        forall|i: int| 0 <= i < bins@.len() ==> #[trigger] bins@[i] <= SPEC_BINS,
    ensures
        fb@.len() == N_MELS,
        forall|m: int| 0 <= m < N_MELS ==> #[trigger] fb@[m]@.len() == SPEC_BINS,
        forall|m: int, k: int|
            0 <= m < N_MELS && 0 <= k < SPEC_BINS ==> {
                &&& (#[trigger] fb@[m]@[k]).num == tri_weight_num(
                    bins@[m] as int,
                    bins@[m + 1] as int,
                    bins@[m + 2] as int,
                    k,
                )
                &&& fb@[m]@[k].den == tri_weight_den(
                    bins@[m] as int,
                    bins@[m + 1] as int,
                    bins@[m + 2] as int,
                    k,
                )
                &&& fb@[m]@[k].den >= 1
            },
{
    let mut fb: Vec<Vec<MelWeight>> = Vec::new();
    let mut m: usize = 0;
    while m < N_MELS
        invariant
            bins@.len() == N_MELS + 2,
            m <= N_MELS,
            fb@.len() == m,
            forall|j: int| 0 <= j < m ==> #[trigger] fb@[j]@.len() == SPEC_BINS,
            forall|j: int, k: int|
                0 <= j < m && 0 <= k < SPEC_BINS ==> {
                    &&& (#[trigger] fb@[j]@[k]).num == tri_weight_num(
                        bins@[j] as int,
                        bins@[j + 1] as int,
                        bins@[j + 2] as int,
                        k,
                    )
                    &&& fb@[j]@[k].den == tri_weight_den(
                        bins@[j] as int,
                        bins@[j + 1] as int,
                        bins@[j + 2] as int,
                        k,
                    )
                    &&& fb@[j]@[k].den >= 1
                },
        decreases N_MELS - m,
    {
        let lo = bins[m];
        let c = bins[m + 1];
        let hi = bins[m + 2];
        let mut row: Vec<MelWeight> = Vec::new();
        let mut k: usize = 0;
        while k < SPEC_BINS
            invariant
                k <= SPEC_BINS,
                row@.len() == k,
                forall|b: int|
                    0 <= b < k ==> {
                        &&& (#[trigger] row@[b]).num == tri_weight_num(
                            lo as int,
                            c as int,
                            hi as int,
                            b,
                        )
                        &&& row@[b].den == tri_weight_den(lo as int, c as int, hi as int, b)
                        &&& row@[b].den >= 1
                    },
            decreases SPEC_BINS - k,
        {
            if lo <= k && k < c {
                row.push(MelWeight { num: k - lo, den: c - lo });
            } else if c <= k && k < hi {
                row.push(MelWeight { num: hi - k, den: hi - c });
            } else {
                row.push(MelWeight { num: 0, den: 1 });
            }
            k = k + 1;
        }
        fb.push(row);
        m = m + 1;
    }
    fb
}

} // verus!
