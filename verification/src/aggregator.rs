//! The similarity aggregator: the single owner of the ever-growing arena of
//! accepted records and of the derived set of similar pairs.
//!
//! Records are identified by their index in the arena. The arena is
//! append-only: removal tombstones a slot (drops its payload) but never
//! shifts indices, so ids embedded in previously computed pairs stay valid.
//! Every new arrival is compared against all currently live records; a later
//! removal only filters pairs, it never recomputes them.

use vstd::prelude::*;

verus! {

use vstd::pervasive::VecAdditionalExecFns;

use crate::phash::hamming;
use crate::record::{Failure, FailureV, Image, ImageV};

/// Mathematical state of the aggregator.
#[verifier::ext_equal]
pub struct AggView {
    /// Root directory of the current run, once one was picked.
    pub picked_path: Option<Seq<char>>,
    /// The arena: slot `i` holds record `i`, or nothing once tombstoned.
    pub images: Seq<Option<ImageV>>,
    /// Pairs `(j, i)` with `i < j`, both live, whose hash distance was below
    /// the threshold when `j` arrived.
    pub similar_images: Seq<(usize, usize)>,
    /// Failures reported so far, in arrival order.
    pub errors: Seq<FailureV>,
    /// Total candidate count, known once the scan finishes; decremented by
    /// removals.
    pub found_paths: Option<usize>,
    /// Cumulative bytes read for processed files.
    pub analyzed_bytes: u64,
    /// Two hashes are similar when their Hamming distance is below this.
    pub similarity_threshold: u32,
    /// Run id; results tagged with an older id are discarded.
    pub generation: u64,
}

/// Record `i` exists and has not been tombstoned.
pub open spec fn live(images: Seq<Option<ImageV>>, i: int) -> bool {
    0 <= i < images.len() && images[i] is Some
}

/// The hash of record `i`.
pub open spec fn hash_at(images: Seq<Option<ImageV>>, i: int) -> Seq<u8> {
    images[i]->Some_0.hash
}

/// The hashes of records `i` and `j` are within the threshold.
pub open spec fn close(images: Seq<Option<ImageV>>, threshold: u32, i: int, j: int) -> bool {
    hamming(hash_at(images, i), hash_at(images, j)) < threshold
}

/// The pair list holds an entry `(a, b)`.
pub open spec fn has_pair(s: Seq<(usize, usize)>, a: int, b: int) -> bool {
    exists|k: int| 0 <= k < s.len() && (#[trigger] s[k]).0 == a && s[k].1 == b
}

/// No entry of the pair list repeats.
pub open spec fn distinct_pairs(s: Seq<(usize, usize)>) -> bool {
    forall|k1: int, k2: int| 0 <= k1 < k2 < s.len() ==> s[k1] != s[k2]
}

/// Number of live (non-tombstoned) records.
pub open spec fn live_count(images: Seq<Option<ImageV>>) -> nat
    decreases images.len(),
{
    if images.len() == 0 {
        0
    } else {
        live_count(images.drop_last()) + if images.last() is Some {
            1nat
        } else {
            0nat
        }
    }
}

impl AggView {
    /// The pair `p` points at two distinct live records, later one first.
    pub open spec fn pair_ok(self, p: (usize, usize)) -> bool {
        &&& p.1 < p.0 < self.images.len()
        &&& live(self.images, p.0 as int)
        &&& live(self.images, p.1 as int)
    }

    /// Records processed so far: live records plus failures. Tombstoned
    /// records no longer count, matching the decremented total.
    pub open spec fn processed(self) -> nat {
        live_count(self.images) + self.errors.len()
    }

    /// The aggregator's invariant.
    ///
    /// The heart is the third clause: a pair `(j, i)` with `i < j` is in the
    /// pair list if and only if both records are live and their hash distance
    /// is below the threshold. Together with the progress bound it is what
    /// every operation preserves.
    pub open spec fn inv(self) -> bool {
        &&& forall|k: int|
            0 <= k < self.similar_images.len() ==> self.pair_ok(#[trigger] self.similar_images[k])
        &&& forall|i: int, j: int|
            #![trigger has_pair(self.similar_images, j, i)]
            #![trigger close(self.images, self.similarity_threshold, i, j)]
            0 <= i < j < self.images.len() && live(self.images, i) && live(self.images, j) ==> (
            has_pair(self.similar_images, j, i) <==> close(
                self.images,
                self.similarity_threshold,
                i,
                j,
            ))
        &&& distinct_pairs(self.similar_images)
        &&& forall|i: int| #[trigger] live(self.images, i) ==> self.images[i]->Some_0.wf()
        &&& self.found_paths matches Some(t) ==> self.processed() <= t
    }
}

/// The fresh state of a run: everything empty, the threshold kept, the run
/// id advanced past `generation`.
pub open spec fn spec_fresh(
    picked_path: Option<Seq<char>>,
    similarity_threshold: u32,
    generation: u64,
) -> AggView {
    AggView {
        picked_path,
        images: Seq::empty(),
        similar_images: Seq::empty(),
        errors: Seq::empty(),
        found_paths: None,
        analyzed_bytes: 0,
        similarity_threshold,
        generation,
    }
}

/// The pairs that accepting a record with hash `h` under id `j` appends: one
/// `(j, i)` for every live `i` among `images`, in increasing `i`, whose hash
/// is within the threshold of `h`.
pub open spec fn new_pairs(
    images: Seq<Option<ImageV>>,
    j: usize,
    h: Seq<u8>,
    threshold: u32,
) -> Seq<(usize, usize)>
    decreases images.len(),
{
    if images.len() == 0 {
        Seq::empty()
    } else {
        new_pairs(images.drop_last(), j, h, threshold) + if images.last() matches Some(other)
            && hamming(other.hash, h) < threshold {
            seq![(j, (images.len() - 1) as usize)]
        } else {
            Seq::empty()
        }
    }
}

/// Accepting a record: compare against every live record, append the pairs
/// found, then append the record itself under the next id.
pub open spec fn spec_accept(v: AggView, img: ImageV, byte_count: u64) -> AggView {
    AggView {
        images: v.images.push(Some(img)),
        similar_images: v.similar_images + new_pairs(
            v.images,
            v.images.len() as usize,
            img.hash,
            v.similarity_threshold,
        ),
        analyzed_bytes: (v.analyzed_bytes + byte_count) as u64,
        ..v
    }
}

/// Rejecting a file: record the failure; ids and pairs are untouched.
pub open spec fn spec_reject(v: AggView, f: FailureV, byte_count: u64) -> AggView {
    AggView { errors: v.errors.push(f), analyzed_bytes: (v.analyzed_bytes + byte_count) as u64, ..v }
}

/// The scan finished: the total candidate count becomes known.
pub open spec fn spec_set_total(v: AggView, total: usize) -> AggView {
    AggView { found_paths: Some(total), ..v }
}

/// Keeps the pairs that do not mention id `k`.
pub open spec fn keeps(k: usize) -> spec_fn((usize, usize)) -> bool {
    |p: (usize, usize)| p.0 != k && p.1 != k
}

/// Removing id `k`: tombstone the slot, filter every pair mentioning `k`,
/// and decrement the known total. Removing a tombstoned id changes nothing.
pub open spec fn spec_remove(v: AggView, k: usize) -> AggView {
    if !live(v.images, k as int) {
        v
    } else {
        AggView {
            images: v.images.update(k as int, None),
            similar_images: v.similar_images.filter(keeps(k)),
            found_paths: match v.found_paths {
                Some(t) => Some((t - 1) as usize),
                None => None,
            },
            ..v
        }
    }
}

/// Appending a slot raises the live count iff the slot is occupied.
pub proof fn lemma_live_count_push(images: Seq<Option<ImageV>>, x: Option<ImageV>)
    ensures
        live_count(images.push(x)) == live_count(images) + if x is Some {
            1nat
        } else {
            0nat
        },
{
    assert(images.push(x).drop_last() =~= images);
}

/// Membership in a pair list concatenation.
pub proof fn lemma_has_pair_concat(s1: Seq<(usize, usize)>, s2: Seq<(usize, usize)>)
    ensures
        forall|a: int, b: int|
            #[trigger] has_pair(s1 + s2, a, b) <==> has_pair(s1, a, b) || has_pair(s2, a, b),
{
    assert forall|a: int, b: int|
        #[trigger] has_pair(s1 + s2, a, b) <==> has_pair(s1, a, b) || has_pair(s2, a, b) by {
        if has_pair(s1, a, b) {
            let k = choose|k: int| 0 <= k < s1.len() && (#[trigger] s1[k]).0 == a && s1[k].1 == b;
            assert((s1 + s2)[k] == s1[k]);
            assert(has_pair(s1 + s2, a, b));
        }
        if has_pair(s2, a, b) {
            let k = choose|k: int| 0 <= k < s2.len() && (#[trigger] s2[k]).0 == a && s2[k].1 == b;
            assert((s1 + s2)[s1.len() + k] == s2[k]);
            assert(has_pair(s1 + s2, a, b));
        }
        if has_pair(s1 + s2, a, b) {
            let k = choose|k: int|
                0 <= k < (s1 + s2).len() && (#[trigger] (s1 + s2)[k]).0 == a && (s1 + s2)[k].1
                    == b;
            if k < s1.len() {
                assert((s1 + s2)[k] == s1[k]);
                assert(has_pair(s1, a, b));
            } else {
                assert((s1 + s2)[k] == s2[k - s1.len()]);
                assert(has_pair(s2, a, b));
            }
        }
    }
}

/// What `new_pairs` contains: exactly one pair `(j, b)` for every live `b`
/// whose hash is within the threshold of `h`, with the `b` in increasing
/// order (so the list has no duplicates).
pub proof fn lemma_new_pairs_membership(
    images: Seq<Option<ImageV>>,
    j: usize,
    h: Seq<u8>,
    threshold: u32,
)
    requires
        j >= images.len(),
    ensures
        forall|k: int|
            0 <= k < new_pairs(images, j, h, threshold).len() ==> {
                let p = #[trigger] new_pairs(images, j, h, threshold)[k];
                p.0 == j && p.1 < images.len() && live(images, p.1 as int) && hamming(
                    hash_at(images, p.1 as int),
                    h,
                ) < threshold
            },
        forall|k1: int, k2: int|
            0 <= k1 < k2 < new_pairs(images, j, h, threshold).len() ==> (#[trigger] new_pairs(
                images,
                j,
                h,
                threshold,
            )[k1]).1 < (#[trigger] new_pairs(images, j, h, threshold)[k2]).1,
        forall|b: int|
            0 <= b < images.len() && live(images, b) && hamming(#[trigger] hash_at(images, b), h)
                < threshold ==> has_pair(new_pairs(images, j, h, threshold), j as int, b),
    decreases images.len(),
{
    let np = new_pairs(images, j, h, threshold);
    if images.len() == 0 {
    } else {
        let prefix = images.drop_last();
        lemma_new_pairs_membership(prefix, j, h, threshold);
        let np_pre = new_pairs(prefix, j, h, threshold);
        let n = images.len() - 1;
        assert(forall|i: int| 0 <= i < n ==> prefix[i] == images[i]);
        assert forall|b: int|
            0 <= b < images.len() && live(images, b) && hamming(#[trigger] hash_at(images, b), h)
                < threshold implies has_pair(np, j as int, b) by {
            if b < n {
                assert(hash_at(prefix, b) == hash_at(images, b));
                assert(has_pair(np_pre, j as int, b));
                let k = choose|k: int|
                    0 <= k < np_pre.len() && (#[trigger] np_pre[k]).0 == j as int && np_pre[k].1
                        == b;
                assert(np[k] == np_pre[k]);
            } else {
                assert(images.last() is Some);
                assert(hamming(images.last()->Some_0.hash, h) < threshold);
                assert(np[np_pre.len() as int] == (j, n as usize));
            }
        }
        assert forall|k: int| 0 <= k < np.len() implies {
            let p = #[trigger] np[k];
            p.0 == j && p.1 < images.len() && live(images, p.1 as int) && hamming(
                hash_at(images, p.1 as int),
                h,
            ) < threshold
        } by {
            if k < np_pre.len() {
                assert(np[k] == np_pre[k]);
                assert(hash_at(prefix, np_pre[k].1 as int) == hash_at(images, np_pre[k].1 as int));
            } else {
                assert(np[k] == (j, n as usize));
            }
        }
    }
}

/// Accepting a well-formed record under the protocol's conditions preserves
/// the invariant and counts one more processed record.
pub proof fn lemma_accept_preserves_inv(v: AggView, img: ImageV, byte_count: u64)
    requires
        v.inv(),
        img.wf(),
        v.images.len() <= usize::MAX,
        v.found_paths is Some ==> v.processed() < v.found_paths->Some_0,
    ensures
        spec_accept(v, img, byte_count).inv(),
        spec_accept(v, img, byte_count).processed() == v.processed() + 1,
{
    let w = spec_accept(v, img, byte_count);
    let n = v.images.len() as int;
    let j = v.images.len() as usize;
    let np = new_pairs(v.images, j, img.hash, v.similarity_threshold);
    lemma_new_pairs_membership(v.images, j, img.hash, v.similarity_threshold);
    lemma_has_pair_concat(v.similar_images, np);
    lemma_live_count_push(v.images, Some(img));
    assert(forall|i: int| 0 <= i < n ==> w.images[i] == v.images[i]);
    assert(w.images[n] == Some(img));

    assert forall|k: int| 0 <= k < w.similar_images.len() implies w.pair_ok(
        #[trigger] w.similar_images[k],
    ) by {
        if k < v.similar_images.len() {
            assert(w.similar_images[k] == v.similar_images[k]);
            assert(v.pair_ok(v.similar_images[k]));
        } else {
            assert(w.similar_images[k] == np[k - v.similar_images.len()]);
        }
    }

    assert forall|i: int, jj: int|
        0 <= i < jj < w.images.len() && live(w.images, i) && live(w.images, jj) implies (has_pair(
        w.similar_images,
        jj,
        i,
    ) <==> close(w.images, w.similarity_threshold, i, jj)) by {
        if jj < n {
            assert(close(w.images, w.similarity_threshold, i, jj) == close(
                v.images,
                v.similarity_threshold,
                i,
                jj,
            ));
            assert(has_pair(v.similar_images, jj, i) <==> close(
                v.images,
                v.similarity_threshold,
                i,
                jj,
            ));
            if has_pair(np, jj, i) {
                let k = choose|k: int|
                    0 <= k < np.len() && (#[trigger] np[k]).0 == jj && np[k].1 == i;
                assert(false);
            }
        } else {
            assert(jj == n);
            if has_pair(v.similar_images, jj, i) {
                let k = choose|k: int|
                    0 <= k < v.similar_images.len() && (#[trigger] v.similar_images[k]).0 == jj
                        && v.similar_images[k].1 == i;
                assert(v.pair_ok(v.similar_images[k]));
                assert(false);
            }
            assert(hash_at(w.images, jj) == img.hash);
            assert(hash_at(w.images, i) == hash_at(v.images, i));
            if close(w.images, w.similarity_threshold, i, jj) {
                assert(has_pair(np, j as int, i));
            }
            if has_pair(np, jj, i) {
                let k = choose|k: int|
                    0 <= k < np.len() && (#[trigger] np[k]).0 == jj && np[k].1 == i;
                assert(live(v.images, i) && hamming(hash_at(v.images, i), img.hash)
                    < v.similarity_threshold);
            }
        }
    }

    assert forall|k1: int, k2: int|
        0 <= k1 < k2 < w.similar_images.len() implies w.similar_images[k1]
        != w.similar_images[k2] by {
        let n1 = v.similar_images.len() as int;
        if k2 < n1 {
            assert(w.similar_images[k1] == v.similar_images[k1]);
            assert(w.similar_images[k2] == v.similar_images[k2]);
        } else if k1 < n1 {
            assert(w.similar_images[k1] == v.similar_images[k1]);
            assert(v.pair_ok(v.similar_images[k1]));
            assert(w.similar_images[k2] == np[k2 - n1]);
        } else {
            assert(w.similar_images[k1] == np[k1 - n1]);
            assert(w.similar_images[k2] == np[k2 - n1]);
        }
    }

    assert forall|i: int| #[trigger] live(w.images, i) implies w.images[i]->Some_0.wf() by {
        if i < n {
            assert(live(v.images, i));
        }
    }
}

/// Extending the compared prefix by one record appends that record's
/// contribution, if any.
pub proof fn lemma_new_pairs_take_step(
    images: Seq<Option<ImageV>>,
    j: usize,
    h: Seq<u8>,
    threshold: u32,
    i: int,
)
    requires
        0 <= i < images.len(),
    ensures
        new_pairs(images.take(i + 1), j, h, threshold) == new_pairs(images.take(i), j, h, threshold)
            + if images[i] is Some && hamming(images[i]->Some_0.hash, h) < threshold {
            seq![(j, i as usize)]
        } else {
            Seq::<(usize, usize)>::empty()
        },
{
    assert(images.take(i + 1).drop_last() =~= images.take(i));
    assert(images.take(i + 1).last() == images[i]);
}

/// Recording a failure under the protocol's conditions preserves the
/// invariant and counts one more processed record.
pub proof fn lemma_reject_preserves_inv(v: AggView, f: FailureV, byte_count: u64)
    requires
        v.inv(),
        v.found_paths is Some ==> v.processed() < v.found_paths->Some_0,
    ensures
        spec_reject(v, f, byte_count).inv(),
        spec_reject(v, f, byte_count).processed() == v.processed() + 1,
{
}

/// Tombstoning a live slot lowers the live count by exactly one.
pub proof fn lemma_live_count_update_none(images: Seq<Option<ImageV>>, k: int)
    requires
        live(images, k),
    ensures
        live_count(images) == live_count(images.update(k, None)) + 1,
    decreases images.len(),
{
    let n = images.len() - 1;
    if k == n {
        assert(images.update(k, None).drop_last() =~= images.drop_last());
    } else {
        assert(images.update(k, None).drop_last() =~= images.drop_last().update(k, None));
        assert(live(images.drop_last(), k));
        lemma_live_count_update_none(images.drop_last(), k);
    }
}

/// What filtering the pairs that mention `k` leaves: exactly the pairs of
/// the original list that do not mention `k`, each a pair of the original
/// list, with no entry repeated if none was before.
pub proof fn lemma_filter_keeps(s: Seq<(usize, usize)>, k: usize)
    ensures
        forall|i: int|
            0 <= i < s.filter(keeps(k)).len() ==> s.contains(#[trigger] s.filter(keeps(k))[i])
                && s.filter(keeps(k))[i].0 != k && s.filter(keeps(k))[i].1 != k,
        forall|a: int, b: int|
            #[trigger] has_pair(s.filter(keeps(k)), a, b) <==> has_pair(s, a, b) && a != k && b
                != k,
        distinct_pairs(s) ==> distinct_pairs(s.filter(keeps(k))),
    decreases s.len(),
{
    reveal(Seq::filter);
    let f = s.filter(keeps(k));
    if s.len() == 0 {
        assert forall|a: int, b: int| #[trigger] has_pair(f, a, b) implies false by {
            let kk = choose|kk: int|
                0 <= kk < f.len() && (#[trigger] f[kk]).0 == a && f[kk].1 == b;
        }
    } else {
        let prefix = s.drop_last();
        let last = s.last();
        lemma_filter_keeps(prefix, k);
        let fp = prefix.filter(keeps(k));
        assert(forall|i: int| 0 <= i < prefix.len() ==> prefix[i] == s[i]);

        assert forall|i: int| 0 <= i < f.len() implies s.contains(#[trigger] f[i]) && f[i].0 != k
            && f[i].1 != k by {
            if i < fp.len() {
                assert(f[i] == fp[i]);
                assert(prefix.contains(fp[i]));
                let idx = choose|idx: int| 0 <= idx < prefix.len() && prefix[idx] == fp[i];
                assert(s[idx] == fp[i]);
            } else {
                assert(f[i] == last);
                assert(s[s.len() - 1] == last);
            }
        }

        assert forall|a: int, b: int| #[trigger] has_pair(f, a, b) <==> has_pair(s, a, b) && a != k
            && b != k by {
            if has_pair(f, a, b) {
                let kk = choose|kk: int|
                    0 <= kk < f.len() && (#[trigger] f[kk]).0 == a && f[kk].1 == b;
                if kk < fp.len() {
                    assert(has_pair(fp, a, b));
                    let idx = choose|idx: int|
                        0 <= idx < prefix.len() && (#[trigger] prefix[idx]).0 == a && prefix[idx].1
                            == b;
                    assert((s[idx]).0 == a && s[idx].1 == b);
                    assert(has_pair(s, a, b));
                } else {
                    assert(f[kk] == last);
                    assert((s[s.len() - 1]).0 == a && s[s.len() - 1].1 == b);
                    assert(has_pair(s, a, b));
                }
            }
            if has_pair(s, a, b) && a != k && b != k {
                let kk = choose|kk: int|
                    0 <= kk < s.len() && (#[trigger] s[kk]).0 == a && s[kk].1 == b;
                if kk < s.len() - 1 {
                    assert((prefix[kk]).0 == a && prefix[kk].1 == b);
                    assert(has_pair(prefix, a, b));
                    assert(has_pair(fp, a, b));
                    let idx = choose|idx: int|
                        0 <= idx < fp.len() && (#[trigger] fp[idx]).0 == a && fp[idx].1 == b;
                    assert(f[idx] == fp[idx]);
                    assert(has_pair(f, a, b));
                } else {
                    assert(s[kk] == last);
                    assert(keeps(k)(last));
                    assert(f[f.len() - 1] == last);
                    assert(has_pair(f, a, b));
                }
            }
        }

        if distinct_pairs(s) {
            assert(distinct_pairs(prefix));
            assert forall|k1: int, k2: int| 0 <= k1 < k2 < f.len() implies f[k1] != f[k2] by {
                if k2 < fp.len() {
                    assert(f[k1] == fp[k1] && f[k2] == fp[k2]);
                } else if keeps(k)(last) {
                    assert(f[k2] == last);
                    assert(f[k1] == fp[k1]);
                    assert(prefix.contains(fp[k1]));
                    let idx = choose|idx: int| 0 <= idx < prefix.len() && prefix[idx] == fp[k1];
                    assert(s[idx] == fp[k1]);
                    assert(s[idx] != s[s.len() - 1]);
                }
            }
        }
    }
}

/// Removing any id preserves the invariant; removing a live id lowers the
/// processed count together with the total.
pub proof fn lemma_remove_preserves_inv(v: AggView, k: usize)
    requires
        v.inv(),
    ensures
        spec_remove(v, k).inv(),
        live(v.images, k as int) ==> spec_remove(v, k).processed() + 1 == v.processed(),
        !live(v.images, k as int) ==> spec_remove(v, k) == v,
        live(v.images, k as int) && v.found_paths is Some ==> v.found_paths->Some_0 >= 1,
{
    if live(v.images, k as int) {
        let w = spec_remove(v, k);
        lemma_live_count_update_none(v.images, k as int);
        lemma_filter_keeps(v.similar_images, k);
        assert(live_count(v.images) >= 1);
        assert(forall|p: int|
            0 <= p < v.images.len() && p != k ==> w.images[p] == #[trigger] v.images[p]);

        assert forall|kk: int| 0 <= kk < w.similar_images.len() implies w.pair_ok(
            #[trigger] w.similar_images[kk],
        ) by {
            let p = w.similar_images[kk];
            assert(v.similar_images.contains(p));
            let idx = choose|idx: int|
                0 <= idx < v.similar_images.len() && v.similar_images[idx] == p;
            assert(v.pair_ok(v.similar_images[idx]));
        }

        assert forall|i: int, j: int|
            0 <= i < j < w.images.len() && live(w.images, i) && live(w.images, j) implies (
        has_pair(w.similar_images, j, i) <==> close(w.images, w.similarity_threshold, i, j)) by {
            assert(i != k && j != k);
            assert(live(v.images, i) && live(v.images, j));
            assert(has_pair(v.similar_images, j, i) <==> close(
                v.images,
                v.similarity_threshold,
                i,
                j,
            ));
            assert(hash_at(w.images, i) == hash_at(v.images, i));
            assert(hash_at(w.images, j) == hash_at(v.images, j));
        }

        assert forall|i: int| #[trigger] live(w.images, i) implies w.images[i]->Some_0.wf() by {
            assert(live(v.images, i));
        }
    }
}

/// Extending the filtered prefix by one pair keeps it when it does not
/// mention `k`.
pub proof fn lemma_filter_take_step(s: Seq<(usize, usize)>, k: usize, i: int)
    requires
        0 <= i < s.len(),
    ensures
        s.take(i + 1).filter(keeps(k)) == if keeps(k)(s[i]) {
            s.take(i).filter(keeps(k)).push(s[i])
        } else {
            s.take(i).filter(keeps(k))
        },
{
    reveal(Seq::filter);
    assert(s.take(i + 1).drop_last() =~= s.take(i));
    assert(s.take(i + 1).last() == s[i]);
}

/// The aggregator. Field for field the view above; `inv` ties them together.
pub struct Aggregator {
    pub picked_path: Option<String>,
    pub images: Vec<Option<Image>>,
    pub similar_images: Vec<(usize, usize)>,
    pub errors: Vec<Failure>,
    pub found_paths: Option<usize>,
    pub analyzed_bytes: u64,
    pub similarity_threshold: u32,
    pub generation: u64,
}

impl View for Aggregator {
    type V = AggView;

    open spec fn view(&self) -> AggView {
        AggView {
            picked_path: match self.picked_path {
                Some(p) => Some(p@),
                None => None,
            },
            images: Seq::new(
                self.images@.len(),
                |i: int|
                    match self.images@[i] {
                        Some(img) => Some(img@),
                        None => None,
                    },
            ),
            similar_images: self.similar_images@,
            errors: Seq::new(self.errors@.len(), |i: int| self.errors@[i]@),
            found_paths: self.found_paths,
            analyzed_bytes: self.analyzed_bytes,
            similarity_threshold: self.similarity_threshold,
            generation: self.generation,
        }
    }
}

impl Aggregator {
    /// The invariant, stated over the view.
    pub open spec fn inv(&self) -> bool {
        self@.inv()
    }

    /// A fresh aggregator with the given similarity threshold and no run yet.
    pub fn new(similarity_threshold: u32) -> (agg: Aggregator)
        ensures
            agg@ == spec_fresh(None, similarity_threshold, 0),
            agg.inv(),
    {
        let agg = Aggregator {
            picked_path: None,
            images: Vec::new(),
            similar_images: Vec::new(),
            errors: Vec::new(),
            found_paths: None,
            analyzed_bytes: 0,
            similarity_threshold,
            generation: 0,
        };
        proof {
            assert(agg@ =~= spec_fresh(None, similarity_threshold, 0));
        }
        agg
    }

    /// Accepts a hashed record: compares it against every live record,
    /// appends the pairs whose distance is below the threshold, then appends
    /// the record under the next id. The caller (the drain loop) only hands
    /// in results of the current run while the processed count is below the
    /// known total, which the dispatcher guarantees: every submitted path
    /// produces exactly one result and the total equals the submissions.
    pub fn accept(&mut self, image: Image, byte_count: u64)
        requires
            old(self).inv(),
            image.wf(),
            old(self)@.found_paths is Some ==> old(self)@.processed()
                < old(self)@.found_paths->Some_0,
            old(self).analyzed_bytes + byte_count <= u64::MAX,
        ensures
            final(self)@ == spec_accept(old(self)@, image@, byte_count),
            final(self).inv(),
            final(self)@.processed() == old(self)@.processed() + 1,
    {
        let ghost pre = *self;
        let j = self.images.len();
        let ghost h = image@.hash;
        let ghost thr = self.similarity_threshold;
        let mut i: usize = 0;
        proof {
            assert(pre@.images.take(0) =~= Seq::<Option<ImageV>>::empty());
            assert(self.similar_images@ =~= pre.similar_images@ + new_pairs(
                pre@.images.take(0),
                j,
                h,
                thr,
            ));
        }
        while i < j
            invariant
                i <= j,
                j == self.images.len(),
                image.wf(),
                self.images@ == pre.images@,
                self@.images == pre@.images,
                self.picked_path == pre.picked_path,
                self.errors@ == pre.errors@,
                self.found_paths == pre.found_paths,
                self.analyzed_bytes == pre.analyzed_bytes,
                self.similarity_threshold == pre.similarity_threshold,
                self.generation == pre.generation,
                thr == pre.similarity_threshold,
                h == image@.hash,
                pre.inv(),
                self.similar_images@ == pre.similar_images@ + new_pairs(
                    pre@.images.take(i as int),
                    j,
                    h,
                    thr,
                ),
            decreases j - i,
        {
            proof {
                lemma_new_pairs_take_step(pre@.images, j, h, thr, i as int);
                assert(live(pre@.images, i as int) ==> pre@.images[i as int]->Some_0.wf());
            }
            match &self.images[i] {
                Some(other) => {
                    proof {
                        assert(self@.images[i as int] == Some(other@));
                    }
                    if other.hash.dist(&image.hash) < self.similarity_threshold {
                        self.similar_images.push((j, i));
                    }
                },
                None => {
                    proof {
                        assert(self@.images[i as int] is None);
                    }
                },
            }
            i = i + 1;
        }
        proof {
            assert(pre@.images.take(j as int) =~= pre@.images);
        }
        self.images.push(Some(image));
        self.analyzed_bytes = self.analyzed_bytes + byte_count;
        proof {
            assert(self@.images =~= pre@.images.push(Some(image@)));
            assert(self@ =~= spec_accept(pre@, image@, byte_count));
            lemma_accept_preserves_inv(pre@, image@, byte_count);
        }
    }

    /// Removes the record with id `rm_idx`: tombstones its slot (freeing the
    /// payload), drops every pair mentioning the id, and decrements the known
    /// total. Removing an already-tombstoned id is a no-op, so duplicate
    /// removal requests are harmless.
    pub fn remove(&mut self, rm_idx: usize)
        requires
            old(self).inv(),
            rm_idx < old(self).images@.len(),
        ensures
            final(self)@ == spec_remove(old(self)@, rm_idx),
            final(self).inv(),
    {
        let ghost pre = *self;
        proof {
            lemma_remove_preserves_inv(pre@, rm_idx);
        }
        if self.images[rm_idx].is_none() {
            proof {
                assert(self@.images[rm_idx as int] is None);
            }
            return;
        }
        proof {
            assert(live(pre@.images, rm_idx as int));
        }
        self.images.set(rm_idx, None);
        proof {
            assert(self@.images =~= pre@.images.update(rm_idx as int, None));
        }
        let n = self.similar_images.len();
        let mut kept: Vec<(usize, usize)> = Vec::new();
        let mut i: usize = 0;
        proof {
            assert(pre.similar_images@.take(0) =~= Seq::<(usize, usize)>::empty());
            assert(kept@ =~= pre.similar_images@.take(0).filter(keeps(rm_idx)));
            reveal(Seq::filter);
        }
        while i < n
            invariant
                i <= n,
                n == self.similar_images.len(),
                self.similar_images@ == pre.similar_images@,
                kept@ == pre.similar_images@.take(i as int).filter(keeps(rm_idx)),
            decreases n - i,
        {
            proof {
                lemma_filter_take_step(pre.similar_images@, rm_idx, i as int);
            }
            let p = self.similar_images[i];
            if p.0 != rm_idx && p.1 != rm_idx {
                kept.push(p);
            }
            i = i + 1;
        }
        proof {
            assert(pre.similar_images@.take(n as int) =~= pre.similar_images@);
        }
        self.similar_images = kept;
        match self.found_paths {
            Some(t) => {
                proof {
                    assert(pre@.processed() >= 1);
                }
                self.found_paths = Some(t - 1);
            },
            None => {},
        }
        proof {
            assert(self@ =~= spec_remove(pre@, rm_idx));
        }
    }

    /// Records a failure: the path and error join the failure list; ids and
    /// pairs are untouched. The same protocol condition as for `accept`
    /// applies: results only arrive while the processed count is below the
    /// known total.
    pub fn reject(&mut self, failure: Failure, byte_count: u64)
        requires
            old(self).inv(),
            old(self)@.found_paths is Some ==> old(self)@.processed()
                < old(self)@.found_paths->Some_0,
            old(self).analyzed_bytes + byte_count <= u64::MAX,
        ensures
            final(self)@ == spec_reject(old(self)@, failure@, byte_count),
            final(self).inv(),
            final(self)@.processed() == old(self)@.processed() + 1,
    {
        let ghost pre = *self;
        self.errors.push(failure);
        self.analyzed_bytes = self.analyzed_bytes + byte_count;
        proof {
            assert(self@.errors =~= pre@.errors.push(failure@));
            assert(self@.images =~= pre@.images);
            assert(self@ =~= spec_reject(pre@, failure@, byte_count));
        }
    }

    /// The scan finished: `total` files were submitted in this run. Recorded
    /// once per run, after at most `total` results have arrived.
    pub fn set_total(&mut self, total: usize)
        requires
            old(self).inv(),
            old(self).found_paths is None,
            old(self)@.processed() <= total,
        ensures
            final(self)@ == spec_set_total(old(self)@, total),
            final(self).inv(),
    {
        let ghost pre = *self;
        self.found_paths = Some(total);
        proof {
            assert(self@ =~= spec_set_total(pre@, total));
        }
    }

    /// Starts a new run over `path`: clears every record, pair, failure and
    /// counter, and advances the run id so that in-flight results of the
    /// superseded run will be discarded.
    pub fn prep_for_analyze(&mut self, path: String)
        requires
            old(self).inv(),
            old(self).generation < u64::MAX,
        ensures
            final(self)@ =~= spec_fresh(
                Some(path@),
                old(self).similarity_threshold,
                (old(self).generation + 1) as u64,
            ),
            final(self).inv(),
    {
        self.picked_path = Some(path);
        self.images = Vec::new();
        self.similar_images = Vec::new();
        self.errors = Vec::new();
        self.found_paths = None;
        self.analyzed_bytes = 0;
        self.generation = self.generation + 1;
        proof {
            assert(self@ =~= spec_fresh(
                Some(self.picked_path->Some_0@),
                self.similarity_threshold,
                self.generation,
            ));
        }
    }

    /// Drains one message from the result channel. Messages tagged with the
    /// id of a superseded run are discarded whole: a new scan must not see
    /// stale results resurface.
    ///
    /// The conditional preconditions are the dispatcher's guarantees for
    /// messages of the current run: at most `total` results per run, the
    /// total reported once, removal ids taken from accepted records, and
    /// accepted records well formed.
    pub fn handle_message(&mut self, msg: Message)
        requires
            old(self).inv(),
            msg is WalkDirFinished && msg->WalkDirFinished_generation == old(self).generation
                ==> old(self).found_paths is None && old(self)@.processed()
                <= msg->WalkDirFinished_total,
            msg is AddImage && msg->AddImage_generation == old(self).generation ==> (old(self)@.found_paths is Some
                ==> old(self)@.processed() < old(self)@.found_paths->Some_0)
                && old(self).analyzed_bytes + msg->AddImage_byte_count <= u64::MAX,
            msg is AddImage && msg->AddImage_generation == old(self).generation
                && msg->AddImage_result is Ok ==> msg->AddImage_result->Ok_0.wf(),
            msg is RemoveImage && msg->RemoveImage_generation == old(self).generation
                ==> msg->RemoveImage_id < old(self).images@.len(),
        ensures
            final(self).inv(),
            msg_generation(msg) != old(self).generation ==> final(self)@ == old(self)@,
            msg is WalkDirFinished && msg->WalkDirFinished_generation == old(self).generation
                ==> final(self)@ == spec_set_total(old(self)@, msg->WalkDirFinished_total),
            msg is AddImage && msg->AddImage_generation == old(self).generation
                && msg->AddImage_result is Ok ==> final(self)@ == spec_accept(
                old(self)@,
                msg->AddImage_result->Ok_0@,
                msg->AddImage_byte_count,
            ),
            msg is AddImage && msg->AddImage_generation == old(self).generation
                && msg->AddImage_result is Err ==> final(self)@ == spec_reject(
                old(self)@,
                msg->AddImage_result->Err_0@,
                msg->AddImage_byte_count,
            ),
            msg is RemoveImage && msg->RemoveImage_generation == old(self).generation
                ==> final(self)@ == spec_remove(old(self)@, msg->RemoveImage_id),
    {
        match msg {
            Message::WalkDirFinished { generation, total } => {
                if generation == self.generation {
                    self.set_total(total);
                }
            },
            Message::AddImage { generation, byte_count, result } => {
                if generation == self.generation {
                    match result {
                        Ok(image) => self.accept(image, byte_count),
                        Err(failure) => self.reject(failure, byte_count),
                    }
                }
            },
            Message::RemoveImage { generation, id } => {
                if generation == self.generation {
                    self.remove(id);
                }
            },
        }
    }
}

/// One completion event on the result channel, tagged with the run id it
/// belongs to. Every submitted path produces exactly one `AddImage`; the
/// scanner produces one `WalkDirFinished` carrying the submission count; the
/// display layer produces `RemoveImage` requests.
pub enum Message {
    /// The scan finished after submitting `total` candidate paths.
    WalkDirFinished { generation: u64, total: usize },
    /// One worker finished: `byte_count` bytes were read for the file, and
    /// hashing produced a record or a typed failure.
    AddImage { generation: u64, byte_count: u64, result: Result<Image, Failure> },
    /// The display layer asks to remove record `id`.
    RemoveImage { generation: u64, id: usize },
}

/// The run id a message is tagged with.
pub open spec fn msg_generation(msg: Message) -> u64 {
    match msg {
        Message::WalkDirFinished { generation, .. } => generation,
        Message::AddImage { generation, .. } => generation,
        Message::RemoveImage { generation, .. } => generation,
    }
}

} // verus!
