//! The laws the aggregator obeys, stated over its mathematical state and
//! proved from the invariant alone.

use vstd::prelude::*;

verus! {

use crate::aggregator::{
    close, has_pair, hash_at, lemma_accept_preserves_inv, lemma_reject_preserves_inv, live,
    spec_accept, spec_reject, spec_remove, AggView,
};
use crate::phash::{hamming, lemma_hamming_symmetric};
use crate::record::{FailureV, ImageV};

/// The pair list, read as an unordered set, holds the pair `{a, b}`.
pub open spec fn pair_in(v: AggView, a: int, b: int) -> bool {
    has_pair(v.similar_images, a, b) || has_pair(v.similar_images, b, a)
}

/// Records `a` and `b` are both live and their hashes are within the
/// threshold.
pub open spec fn similar_records(v: AggView, a: int, b: int) -> bool {
    &&& live(v.images, a)
    &&& live(v.images, b)
    &&& hamming(hash_at(v.images, a), hash_at(v.images, b)) < v.similarity_threshold
}

/// The pair set is exactly the set of similar live record pairs: `{a, b}`
/// is in the pair list if and only if both records are live and their hash
/// distance is below the threshold. In particular the pair set never
/// depends on when each pair was discovered.
pub proof fn lemma_pair_in_characterization(v: AggView, a: int, b: int)
    requires
        v.inv(),
        a != b,
    ensures
        pair_in(v, a, b) <==> similar_records(v, a, b),
{
    let s = v.similar_images;
    let lo = if a < b {
        a
    } else {
        b
    };
    let hi = if a < b {
        b
    } else {
        a
    };
    if has_pair(s, lo, hi) {
        let k = choose|k: int| 0 <= k < s.len() && (#[trigger] s[k]).0 == lo && s[k].1 == hi;
        assert(v.pair_ok(s[k]));
        assert(false);
    }
    if live(v.images, lo) && live(v.images, hi) {
        assert(has_pair(s, hi, lo) <==> close(v.images, v.similarity_threshold, lo, hi));
        assert(v.images[lo]->Some_0.wf());
        assert(v.images[hi]->Some_0.wf());
        lemma_hamming_symmetric(hash_at(v.images, lo), hash_at(v.images, hi));
    } else {
        if has_pair(s, hi, lo) {
            let k = choose|k: int| 0 <= k < s.len() && (#[trigger] s[k]).0 == hi && s[k].1 == lo;
            assert(v.pair_ok(s[k]));
            assert(false);
        }
    }
}

/// Inserting the same records in any order yields the same pair set: if two
/// states hold the same live hashes under a relabeling `p` of ids (and the
/// same threshold), their pair sets correspond pair for pair under `p`. The
/// end state of a run does not depend on the order in which the workers'
/// results arrived.
pub proof fn lemma_pair_set_order_independent(v1: AggView, v2: AggView, p: spec_fn(int) -> int)
    requires
        v1.inv(),
        v2.inv(),
        v1.similarity_threshold == v2.similarity_threshold,
        v1.images.len() == v2.images.len(),
        forall|i: int| 0 <= i < v1.images.len() ==> 0 <= #[trigger] p(i) < v2.images.len(),
        forall|i: int, j: int|
            #![trigger p(i), p(j)]
            0 <= i < v1.images.len() && 0 <= j < v1.images.len() && i != j ==> p(i) != p(j),
        forall|i: int|
            0 <= i < v1.images.len() ==> (live(v1.images, i) <==> live(v2.images, #[trigger] p(i))),
        forall|i: int|
            0 <= i < v1.images.len() && live(v1.images, i) ==> hash_at(v2.images, #[trigger] p(i))
                == hash_at(v1.images, i),
    ensures
        forall|i: int, j: int|
            0 <= i < v1.images.len() && 0 <= j < v1.images.len() && i != j ==> (#[trigger] pair_in(
                v1,
                i,
                j,
            ) <==> pair_in(v2, p(i), p(j))),
{
    assert forall|i: int, j: int|
        0 <= i < v1.images.len() && 0 <= j < v1.images.len() && i != j implies (#[trigger] pair_in(
        v1,
        i,
        j,
    ) <==> pair_in(v2, p(i), p(j))) by {
        lemma_pair_in_characterization(v1, i, j);
        lemma_pair_in_characterization(v2, p(i), p(j));
        assert(similar_records(v1, i, j) <==> similar_records(v2, p(i), p(j)));
    }
}

/// Removing id `k` removes every pair containing `k` and no others: the
/// remaining pairs are exactly the previous pairs that mention neither end
/// of `k`, and none of them mentions `k`.
pub proof fn lemma_remove_filters_pairs(v: AggView, k: usize)
    requires
        v.inv(),
    ensures
        forall|idx: int|
            0 <= idx < spec_remove(v, k).similar_images.len() ==> (#[trigger] spec_remove(
                v,
                k,
            ).similar_images[idx]).0 != k && spec_remove(v, k).similar_images[idx].1 != k,
        forall|a: int, b: int|
            #[trigger] has_pair(spec_remove(v, k).similar_images, a, b) <==> has_pair(
                v.similar_images,
                a,
                b,
            ) && a != k && b != k,
{
    let w = spec_remove(v, k);
    if live(v.images, k as int) {
        crate::aggregator::lemma_filter_keeps(v.similar_images, k);
    } else {
        assert forall|idx: int| 0 <= idx < w.similar_images.len() implies (
        #[trigger] w.similar_images[idx]).0 != k && w.similar_images[idx].1 != k by {
            assert(v.pair_ok(v.similar_images[idx]));
        }
        assert forall|a: int, b: int| #[trigger] has_pair(w.similar_images, a, b) <==> has_pair(
            v.similar_images,
            a,
            b,
        ) && a != k && b != k by {
            if has_pair(v.similar_images, a, b) {
                let kk = choose|kk: int|
                    0 <= kk < v.similar_images.len() && (#[trigger] v.similar_images[kk]).0 == a
                        && v.similar_images[kk].1 == b;
                assert(v.pair_ok(v.similar_images[kk]));
            }
        }
    }
}

/// Removal is idempotent: removing `k` twice leaves the state a single
/// removal leaves.
pub proof fn lemma_remove_idempotent(v: AggView, k: usize)
    requires
        v.inv(),
    ensures
        spec_remove(spec_remove(v, k), k) == spec_remove(v, k),
{
    let w = spec_remove(v, k);
    if live(v.images, k as int) {
        assert(w.images[k as int] is None);
        assert(!live(w.images, k as int));
    }
}

/// The processed count (live accepted records plus failures) never exceeds
/// the most recently reported scan total.
pub proof fn lemma_processed_within_total(v: AggView)
    requires
        v.inv(),
        v.found_paths is Some,
    ensures
        v.processed() <= v.found_paths->Some_0,
{
}

/// One worker's outcome, as the aggregator consumes it.
pub enum ResultV {
    Accepted { img: ImageV, byte_count: u64 },
    Failed { failure: FailureV, byte_count: u64 },
}

/// Consuming one result.
pub open spec fn apply_result(v: AggView, r: ResultV) -> AggView {
    match r {
        ResultV::Accepted { img, byte_count } => spec_accept(v, img, byte_count),
        ResultV::Failed { failure, byte_count } => spec_reject(v, failure, byte_count),
    }
}

/// Consuming a sequence of results, in order.
pub open spec fn apply_results(v: AggView, rs: Seq<ResultV>) -> AggView
    decreases rs.len(),
{
    if rs.len() == 0 {
        v
    } else {
        apply_result(apply_results(v, rs.drop_last()), rs.last())
    }
}

/// Every accepted record among the results is well formed, as the hash
/// worker guarantees.
pub open spec fn results_wf(rs: Seq<ResultV>) -> bool {
    forall|k: int|
        0 <= k < rs.len() ==> ((#[trigger] rs[k]) is Accepted ==> rs[k]->Accepted_img.wf())
}

/// Once the scan total is known, every result raises the processed count by
/// exactly one. So when the outstanding results are exactly the submitted
/// paths not yet processed — which the dispatcher guarantees: no task is
/// dropped and none reports twice — consuming them all makes the processed
/// count equal the total.
pub proof fn lemma_processed_reaches_total(v: AggView, rs: Seq<ResultV>)
    requires
        v.inv(),
        results_wf(rs),
        v.found_paths is Some,
        v.processed() + rs.len() <= v.found_paths->Some_0,
        v.images.len() + rs.len() <= usize::MAX,
    ensures
        apply_results(v, rs).inv(),
        apply_results(v, rs).processed() == v.processed() + rs.len(),
        apply_results(v, rs).found_paths == v.found_paths,
        apply_results(v, rs).images.len() <= v.images.len() + rs.len(),
    decreases rs.len(),
{
    if rs.len() > 0 {
        let prefix = rs.drop_last();
        assert(results_wf(prefix)) by {
            assert(forall|k: int| 0 <= k < prefix.len() ==> prefix[k] == rs[k]);
        }
        lemma_processed_reaches_total(v, prefix);
        let w = apply_results(v, prefix);
        match rs.last() {
            ResultV::Accepted { img, byte_count } => {
                assert(rs[rs.len() - 1] is Accepted);
                lemma_accept_preserves_inv(w, img, byte_count);
            },
            ResultV::Failed { failure, byte_count } => {
                lemma_reject_preserves_inv(w, failure, byte_count);
            },
        }
    }
}

} // verus!
