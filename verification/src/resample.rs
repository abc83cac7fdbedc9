//! Linear-interpolation resampling from a source sample rate to a target
//! sample rate.
//!
//! The schedule — output length, neighbour indices and the exact fractional
//! blend position of every output sample — is computed here over exact
//! integer arithmetic.  The caller supplies the arithmetic that blends two
//! neighbouring samples, so the sample type stays abstract.

use vstd::prelude::*;
use vstd::arithmetic::div_mod::lemma_fundamental_div_mod;
use vstd::arithmetic::mul::lemma_mul_inequality;

verus! {

/// Number of output samples when `n` input samples at rate `src` are
/// resampled to rate `dst`: `ceil(n * dst / src)`.
pub open spec fn resample_out_len(n: nat, src: nat, dst: nat) -> nat
    recommends
        src > 0,
{
    (((n * dst + src - 1) as int) / (src as int)) as nat
}

/// Index of the lower neighbouring input sample for output index `i`:
/// the integer part of the exact source position `i * src / dst`.
pub open spec fn src_index(i: int, src: nat, dst: nat) -> int
    recommends
        dst > 0,
{
    (i * src) / (dst as int)
}

/// Numerator of the fractional part of the exact source position of output
/// index `i`; the denominator is `dst`.
pub open spec fn src_frac_num(i: int, src: nat, dst: nat) -> int
    recommends
        dst > 0,
{
    (i * src) % (dst as int)
}

/// The output length is exactly the ceiling of `n * dst / src`:
/// it is the least `q` with `q * src >= n * dst`.
pub proof fn lemma_out_len_is_ceil(n: nat, src: nat, dst: nat)
    requires
        src > 0,
    ensures
        resample_out_len(n, src, dst) * src >= n * dst,
        resample_out_len(n, src, dst) > 0 ==> (resample_out_len(n, src, dst) - 1) * src
            < n * dst,
        n == 0 ==> resample_out_len(n, src, dst) == 0,
{
    let x = (n * dst + src - 1) as int;
    let s = src as int;
    lemma_fundamental_div_mod(x, s);
    let q = x / s;
    assert(q * s == x - (x % s));
    assert((q - 1) * s == q * s - s) by (nonlinear_arith);
    if n == 0 {
        assert(x == s - 1);
        assert(x / s == 0) by {
            lemma_fundamental_div_mod(x, s);
            if x / s >= 1 {
                lemma_mul_inequality(1, x / s, s);
            }
            if x / s < 0 {
                lemma_mul_inequality(x / s, -1, s);
            }
        }
    }
}

/// Every scheduled source position lies inside the input: for
/// `i < resample_out_len(n, src, dst)`, the lower neighbour index is below
/// `n`.
pub proof fn lemma_src_index_in_range(i: int, n: nat, src: nat, dst: nat)
    requires
        src > 0,
        dst > 0,
        n > 0,
        0 <= i < resample_out_len(n, src, dst),
    ensures
        0 <= src_index(i, src, dst) < n,
        0 <= src_frac_num(i, src, dst) < dst,
{
    let s = src as int;
    let d = dst as int;
    let x = (n * dst + src - 1) as int;
    let q = x / s;
    lemma_fundamental_div_mod(x, s);
    assert(q * s == x - (x % s));
    // i <= q - 1, so i * s <= (q - 1) * s <= n * d - 1 < n * d.
    lemma_mul_inequality(i, q - 1, s);
    assert((q - 1) * s == q * s - s) by (nonlinear_arith);
    assert(i * s < n * d);
    lemma_fundamental_div_mod(i * s, d);
    let k = (i * s) / d;
    assert(k * d == i * s - ((i * s) % d));
    // k <= n - 1, else k * d >= n * d > i * s - (d - 1) is contradicted.
    if k >= n {
        lemma_mul_inequality(n as int, k, d);
        assert(n * d <= k * d);
        assert(false);
    }
    if k < 0 {
        lemma_mul_inequality(k, -1, d);
        assert(i * s >= 0) by (nonlinear_arith)
            requires
                i >= 0,
                s > 0,
        ;
        assert(false);
    }
}

/// Linear resampling of `input` from rate `src_sr` to rate `dst_sr`.
///
/// When the rates are equal, or the input is empty, the input is returned
/// unchanged.  Otherwise the output has exactly `ceil(len * dst / src)`
/// samples; output sample `i` sits at exact source position `i * src / dst`,
/// and is the blend of the two neighbouring input samples by the fractional
/// part of that position, computed by the supplied `blend` function — except
/// at the right edge, where the last available sample is used without
/// interpolation.  `blend(a, b, num, den)` is expected to realise
/// `a + (b - a) * num / den` over the sample type.
pub fn linear_resample<T: Copy, F: Fn(T, T, u64, u64) -> T>(
    input: &Vec<T>,
    src_sr: u32,
    dst_sr: u32,
    blend: F,
) -> (out: Vec<T>)
    requires
        src_sr > 0,
        dst_sr > 0,
        resample_out_len(input@.len(), src_sr as nat, dst_sr as nat) <= usize::MAX,
        forall|args: (T, T, u64, u64)| #[trigger] call_requires(blend, args),
    ensures
        src_sr == dst_sr || input@.len() == 0 ==> out@ == input@,
        out@.len() == if src_sr == dst_sr || input@.len() == 0 {
            input@.len()
        } else {
            resample_out_len(input@.len(), src_sr as nat, dst_sr as nat)
        },
        forall|i: int|
            #![trigger out@[i]]
            src_sr != dst_sr && 0 <= i < out@.len() && input@.len() > 0 ==> {
                let k = src_index(i, src_sr as nat, dst_sr as nat);
                if k + 1 >= input@.len() {
                    out@[i] == input@[k]
                } else {
                    call_ensures(
                        blend,
                        (
                            input@[k],
                            input@[k + 1],
                            src_frac_num(i, src_sr as nat, dst_sr as nat) as u64,
                            dst_sr as u64,
                        ),
                        out@[i],
                    )
                }
            },
{
    let n = input.len();
    if src_sr == dst_sr || n == 0 {
        let mut out: Vec<T> = Vec::new();
        let mut j: usize = 0;
        while j < n
            invariant
                n == input@.len(),
                j <= n,
                out@ == input@.subrange(0, j as int),
            decreases n - j,
        {
            out.push(input[j]);
            assert(out@ =~= input@.subrange(0, j + 1));
            j = j + 1;
        }
        assert(out@ =~= input@);
        return out;
    }
    let n128 = n as u128;
    let s128 = src_sr as u128;
    let d128 = dst_sr as u128;
    proof {
        assert(n128 * d128 <= 0xFFFF_FFFF_FFFF_FFFFu128 * 0xFFFF_FFFFu128) by (nonlinear_arith)
            requires
                n128 <= 0xFFFF_FFFF_FFFF_FFFFu128,
                d128 <= 0xFFFF_FFFFu128,
        ;
    }
    let q128: u128 = (n128 * d128 + s128 - 1) / s128;
    assert(q128 == resample_out_len(n as nat, src_sr as nat, dst_sr as nat));
    let out_len = q128 as usize;
    let mut out: Vec<T> = Vec::new();
    let mut i: usize = 0;
    while i < out_len
        invariant
            src_sr > 0,
            dst_sr > 0,
            s128 == src_sr as u128,
            d128 == dst_sr as u128,
            n == input@.len(),
            n > 0,
            src_sr != dst_sr,
            out_len == resample_out_len(n as nat, src_sr as nat, dst_sr as nat),
            out_len <= usize::MAX,
            i <= out_len,
            out@.len() == i,
            forall|args: (T, T, u64, u64)| #[trigger] call_requires(blend, args),
            forall|j: int|
                #![trigger out@[j]]
                0 <= j < i ==> {
                    let k = src_index(j, src_sr as nat, dst_sr as nat);
                    if k + 1 >= input@.len() {
                        out@[j] == input@[k]
                    } else {
                        call_ensures(
                            blend,
                            (
                                input@[k],
                                input@[k + 1],
                                src_frac_num(j, src_sr as nat, dst_sr as nat) as u64,
                                dst_sr as u64,
                            ),
                            out@[j],
                        )
                    }
                },
        decreases out_len - i,
    {
        proof {
            lemma_src_index_in_range(i as int, n as nat, src_sr as nat, dst_sr as nat);
        }
        proof {
            assert((i as u128) * s128 <= 0xFFFF_FFFF_FFFF_FFFFu128 * 0xFFFF_FFFFu128)
                by (nonlinear_arith)
                requires
                    i <= 0xFFFF_FFFF_FFFF_FFFFu128,
                    s128 <= 0xFFFF_FFFFu128,
            ;
        }
        let pos: u128 = (i as u128) * s128;
        let idx128: u128 = pos / d128;
        let frac128: u128 = pos % d128;
        assert(idx128 == src_index(i as int, src_sr as nat, dst_sr as nat));
        assert(frac128 == src_frac_num(i as int, src_sr as nat, dst_sr as nat));
        let idx = idx128 as usize;
        if idx + 1 >= n {
            let v = input[idx];
            out.push(v);
        } else {
            let v = blend(input[idx], input[idx + 1], frac128 as u64, dst_sr as u64);
            out.push(v);
        }
        i = i + 1;
    }
    out
}

} // verus!
