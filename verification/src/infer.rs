//! Tag inference: embedding-backend abstraction, the deterministic
//! reference backend, and the ranking of a candidate vocabulary against an
//! audio embedding.
//!
//! Embedding vectors are carried as IEEE-754 single-precision bit patterns
//! (`u32`), which the ranking core treats as opaque values; the similarity
//! between two embeddings reaches the core as an integer key whose order is
//! the order of the similarities it stands for.

use vstd::prelude::*;
use vstd::string::StringExecFns;
use vstd::string::StrSliceExecFns;
use crate::config::InferenceConfig;
use crate::rank::caption_of;
use crate::rank::caption_for;
use crate::rank::clamped_k;
use crate::rank::lemma_rank_seq_ensures;
use crate::rank::rank_seq;
use crate::rank::selected_tags;
use crate::rank::top_k_indices;
use crate::rank::views_of;

verus! {

/// One tagged result: the source file, the top-ranked tags in descending
/// similarity order, the caption derived from them, and the identifier of
/// the backend that produced the embeddings.  Immutable once created.
#[derive(Debug, Clone)]
pub struct FileCaption {
    pub file: String,
    pub caption: String,
    pub tags: Vec<String>,
    pub model: String,
}

/// An embedding backend: anything that turns raw audio bytes into one
/// fixed-dimension vector and a batch of texts into one vector per text, in
/// input order.  Vectors are IEEE-754 single-precision bit patterns.  On
/// unusable input a backend is expected to return a vector of zeros rather
/// than fail; nothing here relies on that, the ranking holds for whatever
/// comes back.
pub trait EmbeddingBackend {
    fn embed_audio(&self, bytes: &[u8]) -> Vec<u32>;

    fn embed_text(&self, texts: &Vec<String>) -> Vec<Vec<u32>>;

    fn model_name(&self) -> &str;
}

/// The embedding dimension of the reference backend.
pub const DUMMY_DIM: usize = 64;

/// One component of the reference backend's pseudo-embedding, derived from
/// the position `x` alone: the bit pattern of a single-precision value in
/// `[1, 2)` whose mantissa is a multiplicative hash of `x`.
pub open spec fn dummy_component(x: int) -> u32
    recommends
        x >= 0,
{
    (0x3F80_0000 + ((x * 2654435761 + 104729) % 0x80_0000)) as u32
}

/// Reference backend for exercising the ranking without any model: it
/// derives a reproducible pseudo-embedding from input positions alone and
/// reads no external artifact.
pub struct DummyBackend {
    pub dim: usize,
    pub name: String,
}

impl DummyBackend {
    pub fn new() -> (b: Self)
        ensures
            b.dim == DUMMY_DIM,
            b.name@ == "dummy-clap"@,
    {
        DummyBackend { dim: DUMMY_DIM, name: String::from_str("dummy-clap") }
    }
}

/// One component of the reference embedding, computed exactly as
/// [`dummy_component`] says.
fn dummy_component_exec(x: u128) -> (c: u32)
    requires
        x <= u64::MAX as u128 + u64::MAX as u128,
    ensures
        c == dummy_component(x as int),
{
    proof {
        assert(x * 2654435761 <= (u64::MAX as u128 + u64::MAX as u128) * 2654435761)
            by (nonlinear_arith)
            requires
                x <= u64::MAX as u128 + u64::MAX as u128,
        ;
    }
    let h: u128 = (x * 2654435761 + 104729) % 0x80_0000;
    0x3F80_0000 + (h as u32)
}

impl EmbeddingBackend for DummyBackend {
    /// The audio pseudo-embedding: component `j` is
    /// `dummy_component(j)`; the input bytes do not enter it.
    fn embed_audio(&self, bytes: &[u8]) -> (e: Vec<u32>)
        ensures
            e@.len() == self.dim,
            forall|j: int| 0 <= j < e@.len() ==> #[trigger] e@[j] == dummy_component(j),
    {
        let mut e: Vec<u32> = Vec::new();
        let mut j: usize = 0;
        while j < self.dim
            invariant
                j <= self.dim,
                e@.len() == j,
                forall|p: int| 0 <= p < e@.len() ==> #[trigger] e@[p] == dummy_component(p),
            decreases self.dim - j,
        {
            e.push(dummy_component_exec(j as u128));
            j = j + 1;
        }
        e
    }

    /// One pseudo-embedding per text, in input order: component `j` of
    /// text `t` is `dummy_component(t + j)`.
    fn embed_text(&self, texts: &Vec<String>) -> (es: Vec<Vec<u32>>)
        ensures
            es@.len() == texts@.len(),
            forall|t: int| 0 <= t < es@.len() ==> (#[trigger] es@[t])@.len() == self.dim,
            forall|t: int, j: int|
                0 <= t < es@.len() && 0 <= j < self.dim ==> (#[trigger] es@[t]@[j])
                    == dummy_component(t + j),
    {
        let mut es: Vec<Vec<u32>> = Vec::new();
        let mut t: usize = 0;
        let n = texts.len();
        while t < n
            invariant
                n == texts@.len(),
                t <= n,
                es@.len() == t,
                forall|p: int| 0 <= p < es@.len() ==> (#[trigger] es@[p])@.len() == self.dim,
                forall|p: int, j: int|
                    0 <= p < es@.len() && 0 <= j < self.dim ==> (#[trigger] es@[p]@[j])
                        == dummy_component(p + j),
            decreases n - t,
        {
            let mut e: Vec<u32> = Vec::new();
            let mut j: usize = 0;
            while j < self.dim
                invariant
                    t < n <= usize::MAX,
                    j <= self.dim,
                    e@.len() == j,
                    forall|p: int| 0 <= p < e@.len() ==> #[trigger] e@[p] == dummy_component(
                        t + p,
                    ),
                decreases self.dim - j,
            {
                e.push(dummy_component_exec(t as u128 + j as u128));
                j = j + 1;
            }
            es.push(e);
            t = t + 1;
        }
        es
    }

    fn model_name(&self) -> (name: &str)
        ensures
            name@ == self.name@,
    {
        self.name.as_str()
    }
}

/// Builds the tagged result for one file from its per-candidate similarity
/// score keys: the `top_k` best candidates in descending-score order (the
/// vocabulary's own order breaking ties) become the tag list, and their
/// join the caption.  A `top_k` of zero yields an empty tag list and an
/// empty caption; a `top_k` beyond the number of scores is clamped.
pub fn infer_from_scores(
    file: &str,
    model: &str,
    vocab: &Vec<String>,
    scores: &Vec<i64>,
    top_k: usize,
) -> (r: FileCaption)
    requires
        scores@.len() <= vocab@.len(),
    ensures
        r.file@ == file@,
        r.model@ == model@,
        r.tags@ == selected_tags(vocab@, scores@, top_k as int),
        r.caption@ == caption_of(views_of(r.tags@)),
{
    let n_scores = scores.len();
    let idxs = top_k_indices(scores, top_k);
    proof {
        assert(scores@.len() == n_scores);
        lemma_rank_seq_ensures(scores@);
    }
    let mut tags: Vec<String> = Vec::new();
    let mut j: usize = 0;
    while j < idxs.len()
        invariant
            scores@.len() <= vocab@.len(),
            idxs@ == rank_seq(scores@).take(clamped_k(top_k as int, scores@.len() as int)),
            forall|p: int|
                0 <= p < rank_seq(scores@).len() ==> (#[trigger] rank_seq(scores@)[p])
                    < scores@.len(),
            rank_seq(scores@).len() == scores@.len(),
            j <= idxs@.len(),
            tags@.len() == j,
            forall|p: int| 0 <= p < j ==> #[trigger] tags@[p] == vocab@[idxs@[p] as int],
        decreases idxs@.len() - j,
    {
        let idx = idxs[j];
        assert(idx == rank_seq(scores@)[j as int]);
        tags.push(vocab[idx].clone());
        j = j + 1;
    }
    proof {
        assert(tags@ =~= selected_tags(vocab@, scores@, top_k as int));
    }
    let caption = caption_for(&tags);
    FileCaption {
        file: String::from_str(file),
        caption,
        tags,
        model: String::from_str(model),
    }
}

/// The ranking stage is a function of its inputs: two results that both
/// satisfy the contract of [`infer_from_scores`] for the same file, model,
/// vocabulary, scores and `top_k` agree on every observable field, so
/// repeated runs over fixed inputs produce identical tagged results.
pub proof fn lemma_infer_deterministic(
    r1: FileCaption,
    r2: FileCaption,
    file: Seq<char>,
    model: Seq<char>,
    vocab: Seq<String>,
    scores: Seq<i64>,
    top_k: int,
)
    requires
        r1.file@ == file,
        r2.file@ == file,
        r1.model@ == model,
        r2.model@ == model,
        r1.tags@ == selected_tags(vocab, scores, top_k),
        r2.tags@ == selected_tags(vocab, scores, top_k),
        r1.caption@ == caption_of(views_of(r1.tags@)),
        r2.caption@ == caption_of(views_of(r2.tags@)),
    ensures
        r1.file@ == r2.file@,
        r1.model@ == r2.model@,
        r1.tags@ == r2.tags@,
        r1.caption@ == r2.caption@,
{
}

/// With `top_k` at least the vocabulary size, the ranker selects the whole
/// vocabulary, in descending-score order with vocabulary order breaking
/// ties: every candidate index appears exactly once in the ranking.
pub proof fn lemma_full_vocabulary(vocab: Seq<String>, scores: Seq<i64>, top_k: int)
    requires
        scores.len() == vocab.len(),
        vocab.len() <= usize::MAX,
        top_k >= vocab.len(),
    ensures
        selected_tags(vocab, scores, top_k).len() == vocab.len(),
        forall|p: int|
            0 <= p < vocab.len() ==> #[trigger] selected_tags(vocab, scores, top_k)[p] == vocab[
                rank_seq(scores)[p] as int
            ],
        forall|j: int|
            0 <= j < vocab.len() ==> rank_seq(scores).contains(#[trigger] (j as usize)),
        rank_seq(scores).no_duplicates(),
{
    lemma_rank_seq_ensures(scores);
    let ranked = rank_seq(scores);
    assert(ranked.take(clamped_k(top_k, scores.len() as int)) =~= ranked);
}

/// A `top_k` of zero selects no tags, and no tags yield the empty caption.
pub proof fn lemma_zero_top_k(vocab: Seq<String>, scores: Seq<i64>)
    ensures
        selected_tags(vocab, scores, 0) == Seq::<String>::empty(),
        caption_of(views_of(Seq::<String>::empty())) == Seq::<char>::empty(),
{
    assert(selected_tags(vocab, scores, 0) =~= Seq::<String>::empty());
    assert(views_of(Seq::<String>::empty()) =~= Seq::<Seq<char>>::empty());
}

/// Runs tag inference over one embedding backend.
pub struct TagInferencer<B: EmbeddingBackend> {
    backend: B,
}

impl<B: EmbeddingBackend> TagInferencer<B> {
    pub fn new(backend: B) -> Self {
        TagInferencer { backend }
    }

    /// Tags one file's already-read bytes: embeds the audio and the
    /// vocabulary through the backend, scores every candidate against the
    /// audio embedding with the supplied similarity key function, and
    /// ranks.  The result's tags are a correctly ranked top-k selection
    /// for some score vector over the vocabulary — which one depends on
    /// the backend's embeddings and the similarity function alone.
    pub fn infer_bytes<F: Fn(&Vec<u32>, &Vec<u32>) -> i64>(
        &self,
        file: &str,
        bytes: &[u8],
        vocab: &Vec<String>,
        cfg: &InferenceConfig,
        sim: F,
    ) -> (r: FileCaption)
        requires
            forall|args: (&Vec<u32>, &Vec<u32>)| #[trigger] call_requires(sim, args),
        ensures
            r.file@ == file@,
            r.caption@ == caption_of(views_of(r.tags@)),
            r.tags@.len() <= cfg.top_k,
            r.tags@.len() <= vocab@.len(),
            exists|scores: Seq<i64>|
                scores.len() <= vocab@.len() && r.tags@ == #[trigger] selected_tags(
                    vocab@,
                    scores,
                    cfg.top_k as int,
                ),
    {
        let audio = self.backend.embed_audio(bytes);
        let tembs = self.backend.embed_text(vocab);
        let m = if tembs.len() < vocab.len() {
            tembs.len()
        } else {
            vocab.len()
        };
        let mut scores: Vec<i64> = Vec::new();
        let mut t: usize = 0;
        while t < m
            invariant
                m <= tembs@.len(),
                m <= vocab@.len(),
                t <= m,
                scores@.len() == t,
                forall|args: (&Vec<u32>, &Vec<u32>)| #[trigger] call_requires(sim, args),
            decreases m - t,
        {
            let s = sim(&audio, &tembs[t]);
            scores.push(s);
            t = t + 1;
        }
        let r = infer_from_scores(file, self.backend.model_name(), vocab, &scores, cfg.top_k);
        proof {
            lemma_rank_seq_ensures(scores@);
            assert(r.tags@.len() == clamped_k(cfg.top_k as int, scores@.len() as int));
        }
        r
    }
}

} // verus!
