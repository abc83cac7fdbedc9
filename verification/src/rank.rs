//! Similarity ranking of a candidate vocabulary.
//!
//! Candidates are ranked by similarity score, strictly descending; equal
//! scores keep the vocabulary's own order.  Scores arrive as integer keys
//! whose order is the order of the similarities they stand for, so the
//! ranking itself is exact.

use vstd::prelude::*;
use vstd::relations::sorted_by;
use vstd::relations::total_ordering;
use vstd::seq_lib::lemma_sorted_unique;

verus! {

/// The ranking order over candidate indices for a given score vector:
/// `a` ranks no later than `b` when `a`'s score is higher, or the scores
/// are equal and `a` does not come after `b` in the vocabulary.
pub open spec fn rank_le(scores: Seq<i64>) -> spec_fn(usize, usize) -> bool {
    |a: usize, b: usize|
        scores[a as int] > scores[b as int] || (scores[a as int] == scores[b as int] && a <= b)
}

/// The sequence `0, 1, ..., n - 1` of candidate indices.
pub open spec fn index_seq(n: nat) -> Seq<usize> {
    Seq::new(n, |i: int| i as usize)
}

/// The full ranking of `scores`: every candidate index, ordered by
/// descending score with vocabulary order as the tie break.
pub open spec fn rank_seq(scores: Seq<i64>) -> Seq<usize> {
    index_seq(scores.len()).sort_by(rank_le(scores))
}

/// The ranking order is a total order on candidate indices, whatever the
/// scores: the index tie break decides between distinct candidates with
/// equal scores.
pub proof fn lemma_rank_le_total_ordering(scores: Seq<i64>)
    ensures
        total_ordering(rank_le(scores)),
{
    let leq = rank_le(scores);
    assert forall|a: usize| #[trigger] leq(a, a) by {}
    assert forall|a: usize, b: usize| #[trigger] leq(a, b) && #[trigger] leq(b, a) implies a
        == b by {}
    assert forall|a: usize, b: usize, c: usize| #[trigger] leq(a, b) && #[trigger] leq(b, c)
        implies leq(a, c) by {}
    assert forall|a: usize, b: usize| #[trigger] leq(a, b) || #[trigger] leq(b, a) by {}
}

/// What the full ranking is: a permutation of all candidate indices,
/// sorted by the ranking order, containing every candidate exactly once.
pub proof fn lemma_rank_seq_ensures(scores: Seq<i64>)
    requires
        scores.len() <= usize::MAX,
    ensures
        rank_seq(scores).len() == scores.len(),
        sorted_by(rank_seq(scores), rank_le(scores)),
        rank_seq(scores).to_multiset() == index_seq(scores.len()).to_multiset(),
        forall|p: int|
            0 <= p < rank_seq(scores).len() ==> (#[trigger] rank_seq(scores)[p]) < scores.len(),
        rank_seq(scores).no_duplicates(),
        forall|j: int| 0 <= j < scores.len() ==> rank_seq(scores).contains(#[trigger] (j as usize)),
{
    broadcast use vstd::seq_lib::group_to_multiset_ensures;

    let n = scores.len();
    let base = index_seq(n);
    let leq = rank_le(scores);
    let ranked = rank_seq(scores);
    lemma_rank_le_total_ordering(scores);
    base.lemma_sort_by_ensures(leq);
    assert(ranked.to_multiset() =~= base.to_multiset());
    assert(ranked.to_multiset().len() == base.to_multiset().len());
    assert(ranked.len() == n);
    assert forall|p: int| 0 <= p < ranked.len() implies (#[trigger] ranked[p]) < n by {
        assert(ranked.to_multiset().contains(ranked[p]));
        assert(base.to_multiset().contains(ranked[p]));
        assert(base.contains(ranked[p]));
        let q = choose|q: int| 0 <= q < base.len() && base[q] == ranked[p];
        assert(base[q] == q as usize);
    }
    assert forall|p: int, q: int| 0 <= p < base.len() && 0 <= q < base.len() && p != q implies base[p]
        != base[q] by {
        assert(base[p] == p as usize && base[q] == q as usize);
    }
    assert(base.no_duplicates());
    base.lemma_multiset_has_no_duplicates();
    ranked.lemma_multiset_has_no_duplicates_conv();
    assert forall|j: int| 0 <= j < n implies ranked.contains(#[trigger] (j as usize)) by {
        assert(base[j] == j as usize);
        assert(base.contains(j as usize));
        assert(base.to_multiset().contains(j as usize));
        assert(ranked.to_multiset().contains(j as usize));
    }
}

/// Whether candidate `a` ranks no later than candidate `b`.
fn rank_le_exec(scores: &Vec<i64>, a: usize, b: usize) -> (r: bool)
    requires
        a < scores@.len(),
        b < scores@.len(),
    ensures
        r == rank_le(scores@)(a, b),
{
    let sa = scores[a];
    let sb = scores[b];
    sa > sb || (sa == sb && a <= b)
}

/// Ranks all candidate indices by descending score, the vocabulary's own
/// order breaking ties: returns exactly [`rank_seq`]`(scores)`.
pub fn rank_indices(scores: &Vec<i64>) -> (r: Vec<usize>)
    ensures
        r@ == rank_seq(scores@),
{
    let n = scores.len();
    let ghost leq = rank_le(scores@);
    let mut r: Vec<usize> = Vec::new();
    proof {
        assert(r@ =~= index_seq(0));
    }
    let mut i: usize = 0;
    while i < n
        invariant
            n == scores@.len(),
            i <= n,
            r@.len() == i,
            sorted_by(r@, rank_le(scores@)),
            r@.to_multiset() == index_seq(i as nat).to_multiset(),
            forall|p: int| 0 <= p < r@.len() ==> (#[trigger] r@[p]) < i,
        decreases n - i,
    {
        broadcast use vstd::seq_lib::group_to_multiset_ensures;

        let ghost leq = rank_le(scores@);
        let mut pos: usize = 0;
        while pos < r.len() && rank_le_exec(scores, r[pos], i)
            invariant
                n == scores@.len(),
                i < n,
                r@.len() == i,
                pos <= i,
                forall|p: int| 0 <= p < r@.len() ==> (#[trigger] r@[p]) < i,
                forall|q: int| 0 <= q < pos ==> rank_le(scores@)(#[trigger] r@[q], i as usize),
            decreases r@.len() - pos,
        {
            pos = pos + 1;
        }
        let ghost r0 = r@;
        r.insert(pos, i);
        proof {
            lemma_rank_le_total_ordering(scores@);
            assert(r@ == r0.insert(pos as int, i as usize));
            // Sortedness of the extended sequence: everything before `pos`
            // ranks before `i`; everything from `pos` on ranks after it.
            assert forall|q: int| pos <= q < r0.len() implies leq(i as usize, #[trigger] r0[q]) by {
                assert(!leq(r0[pos as int], i as usize));
                assert(leq(i as usize, r0[pos as int]));
                if q > pos {
                    assert(leq(r0[pos as int], r0[q]));
                }
            }
            assert forall|p: int, q: int| 0 <= p < q < r@.len() implies #[trigger] leq(
                r@[p],
                r@[q],
            ) by {
                if q < pos {
                    assert(r@[p] == r0[p] && r@[q] == r0[q]);
                } else if p > pos {
                    assert(r@[p] == r0[p - 1] && r@[q] == r0[q - 1]);
                } else if p == pos {
                    assert(r@[p] == i as usize && r@[q] == r0[q - 1]);
                } else if q == pos {
                    assert(r@[p] == r0[p] && r@[q] == i as usize);
                } else {
                    assert(r@[p] == r0[p] && r@[q] == r0[q - 1]);
                    if q - 1 == pos {
                        assert(leq(r0[p], i as usize));
                        assert(leq(i as usize, r0[q - 1]));
                    }
                }
            }
            assert(sorted_by(r@, leq));
            // Multiset: inserting `i` extends the index multiset by `i`.
            assert(r@.to_multiset() == r0.to_multiset().insert(i as usize));
            assert(index_seq((i + 1) as nat) =~= index_seq(i as nat).push(i as usize));
            assert(index_seq((i + 1) as nat).to_multiset() == index_seq(
                i as nat,
            ).to_multiset().insert(i as usize));
        }
        i = i + 1;
    }
    proof {
        lemma_rank_le_total_ordering(scores@);
        lemma_rank_seq_ensures(scores@);
        lemma_sorted_unique(r@, rank_seq(scores@), rank_le(scores@));
    }
    r
}

/// The requested number of tags, clamped to the number of candidates.
pub open spec fn clamped_k(top_k: int, n: int) -> int {
    if top_k <= n {
        top_k
    } else {
        n
    }
}

/// The `top_k` best-ranked candidate indices, in rank order: the prefix of
/// the full ranking.  A `top_k` of zero yields no candidates; a `top_k` of
/// at least the number of candidates yields the full ranking.
pub fn top_k_indices(scores: &Vec<i64>, top_k: usize) -> (r: Vec<usize>)
    ensures
        r@ == rank_seq(scores@).take(clamped_k(top_k as int, scores@.len() as int)),
{
    let n = scores.len();
    let mut r = rank_indices(scores);
    proof {
        assert(scores@.len() == n);
        lemma_rank_seq_ensures(scores@);
    }
    r.truncate(top_k);
    proof {
        assert(r@ =~= rank_seq(scores@).take(clamped_k(top_k as int, scores@.len() as int)));
    }
    r
}

/// The tag strings selected for a ranking request: the `top_k` (clamped)
/// best-ranked candidate indices, mapped to their vocabulary entries, in
/// rank order.
pub open spec fn selected_tags(vocab: Seq<String>, scores: Seq<i64>, top_k: int) -> Seq<String> {
    rank_seq(scores).take(clamped_k(top_k, scores.len() as int)).map_values(
        |p: usize| vocab[p as int],
    )
}

/// The views of a sequence of tag strings.
pub open spec fn views_of(tags: Seq<String>) -> Seq<Seq<char>> {
    tags.map_values(|t: String| t@)
}

/// The caption derived from an ordered tag list: the tags joined by
/// a comma and a space.  No tags yield the empty caption.
pub open spec fn caption_of(tags: Seq<Seq<char>>) -> Seq<char>
    decreases tags.len(),
{
    if tags.len() == 0 {
        Seq::empty()
    } else if tags.len() == 1 {
        tags[0]
    } else {
        caption_of(tags.drop_last()) + ", "@ + tags.last()
    }
}

/// Joins an ordered tag list into its caption, separating the tags with
/// a comma and a space.
pub fn caption_for(tags: &Vec<String>) -> (caption: String)
    ensures
        caption@ == caption_of(views_of(tags@)),
{
    let mut caption = String::new();
    proof {
        assert(views_of(tags@.take(0)) =~= Seq::<Seq<char>>::empty());
    }
    let mut j: usize = 0;
    while j < tags.len()
        invariant
            j <= tags@.len(),
            caption@ == caption_of(views_of(tags@.take(j as int))),
        decreases tags@.len() - j,
    {
        if j > 0 {
            caption.append(", ");
        }
        caption.append(tags[j].as_str());
        proof {
            let pre = views_of(tags@.take(j as int));
            let cur = views_of(tags@.take(j + 1));
            assert(cur.len() == j + 1);
            assert(cur.drop_last() =~= pre);
            assert(cur.last() == tags@[j as int]@);
            if j == 0 {
                assert(caption@ =~= cur[0]);
            }
        }
        j = j + 1;
    }
    proof {
        assert(tags@.take(tags@.len() as int) =~= tags@);
    }
    caption
}

} // verus!
