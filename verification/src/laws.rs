use vstd::prelude::*;
use crate::encoding::MAX_COUNT;
use crate::sketch::{samples_total, Bucket, SketchView};
use crate::store_model::{
    lemma_add,
    lemma_add_all,
    lemma_bins_down,
    lemma_mass_bounds,
    lemma_mass_ends,
    lemma_merge_counts,
    StoreView,
};

verus! {

/// Whether neither store of a sketch can collapse: the limit of each spans all
/// 32-bit bucket indices.
pub open spec fn never_collapses(v: SketchView) -> bool {
    v.negative.limit >= 0x1_0000_0000 && v.positive.limit >= 0x1_0000_0000
}

/// Count conservation: the count of a sketch is the count it had plus the
/// counts of all samples added to it since.
pub proof fn lemma_count_conservation(v: SketchView, samples: Seq<(Bucket, u64)>)
    requires
        v.wf(),
        v.count() + samples_total(samples) <= MAX_COUNT,
    ensures
        v.accept_all(samples).wf(),
        v.accept_all(samples).count() == v.count() + samples_total(samples),
    decreases samples.len(),
{
    if samples.len() > 0 {
        lemma_count_conservation(v, samples.drop_last());
        let w = v.accept_all(samples.drop_last());
        let (b, c) = samples.last();
        match b {
            Bucket::Negative(i) => {
                lemma_add(w.negative, i as int, c);
            },
            Bucket::Zero => {},
            Bucket::Positive(i) => {
                lemma_add(w.positive, i as int, c);
            },
        }
    }
}

/// The bins of a store, taken from the highest bucket index down, hold its
/// total.
proof fn lemma_descending_total(v: StoreView)
    requires
        v.wf(),
    ensures
        crate::store_model::pairs_total(v.descending_bins()) == v.total(),
        crate::store_model::pairs_in_range(v.descending_bins()),
{
    if !v.is_empty() {
        lemma_bins_down(v, v.min_index(), v.max_index() + 1);
        lemma_mass_ends(v);
    } else {
        assert(v.bins =~= Seq::<u64>::empty());
    }
}

/// Merging keeps the count: the merged sketch holds the samples of both,
/// whatever its stores collapse.
pub proof fn lemma_merge_count(a: SketchView, b: SketchView)
    requires
        a.wf(),
        b.wf(),
        a.has_room_for(b),
    ensures
        a.merge(b).wf(),
        a.merge(b).count() == a.count() + b.count(),
{
    lemma_descending_total(b.negative);
    lemma_descending_total(b.positive);
    lemma_add_all(a.negative, b.negative.descending_bins());
    lemma_add_all(a.positive, b.positive.descending_bins());
}

/// Merge identity: where the stores of the receiving sketch cannot collapse,
/// the merged sketch holds in each bucket the samples of both.
pub proof fn lemma_merge_buckets(a: SketchView, b: SketchView, x: Bucket)
    requires
        a.wf(),
        b.wf(),
        a.has_room_for(b),
        never_collapses(a),
    ensures
        a.merge(b).wf(),
        a.merge(b).bucket_count(x) == a.bucket_count(x) + b.bucket_count(x),
{
    lemma_merge_counts(a.negative, b.negative);
    lemma_merge_counts(a.positive, b.positive);
    match x {
        Bucket::Negative(i) => {
            assert(a.merge(b).negative.count_at(i as int) == a.negative.count_at(i as int)
                + b.negative.count_at(i as int));
        },
        Bucket::Zero => {},
        Bucket::Positive(i) => {
            assert(a.merge(b).positive.count_at(i as int) == a.positive.count_at(i as int)
                + b.positive.count_at(i as int));
        },
    }
}

/// Merging is commutative on counts: either way round, each bucket and the
/// whole hold the same.
pub proof fn lemma_merge_commutative(a: SketchView, b: SketchView, x: Bucket)
    requires
        a.wf(),
        b.wf(),
        a.has_room_for(b),
        never_collapses(a),
        never_collapses(b),
    ensures
        a.merge(b).bucket_count(x) == b.merge(a).bucket_count(x),
        a.merge(b).count() == b.merge(a).count(),
{
    lemma_merge_buckets(a, b, x);
    lemma_merge_buckets(b, a, x);
    lemma_merge_count(a, b);
    lemma_merge_count(b, a);
}

/// Merging is associative on counts: however three sketches are merged, each
/// bucket and the whole hold the same.
pub proof fn lemma_merge_associative(a: SketchView, b: SketchView, c: SketchView, x: Bucket)
    requires
        a.wf(),
        b.wf(),
        c.wf(),
        never_collapses(a),
        never_collapses(b),
        a.negative.total() + b.negative.total() + c.negative.total() <= MAX_COUNT,
        a.positive.total() + b.positive.total() + c.positive.total() <= MAX_COUNT,
        a.zero_count + b.zero_count + c.zero_count <= MAX_COUNT,
    ensures
        a.merge(b).merge(c).bucket_count(x) == a.merge(b.merge(c)).bucket_count(x),
        a.merge(b).merge(c).count() == a.merge(b.merge(c)).count(),
{
    lemma_merge_count(a, b);
    lemma_merge_count(b, c);
    lemma_descending_total(b.negative);
    lemma_descending_total(b.positive);
    lemma_descending_total(c.negative);
    lemma_descending_total(c.positive);
    lemma_add_all(a.negative, b.negative.descending_bins());
    lemma_add_all(a.positive, b.positive.descending_bins());
    lemma_add_all(b.negative, c.negative.descending_bins());
    lemma_add_all(b.positive, c.positive.descending_bins());
    lemma_merge_buckets(a, b, x);
    lemma_merge_buckets(b, c, x);
    lemma_merge_buckets(a.merge(b), c, x);
    lemma_merge_buckets(a, b.merge(c), x);
    lemma_merge_count(a.merge(b), c);
    lemma_merge_count(a, b.merge(c));
}

/// The first bucket that holds a sample is at or before the last one.
pub proof fn lemma_min_le_max(v: SketchView)
    requires
        v.wf(),
        v.min_bucket() is Some,
        v.max_bucket() is Some,
    ensures
        v.min_bucket()->Some_0.le(v.max_bucket()->Some_0),
{
}

/// An empty sketch has no first and no last bucket, and no bucket holds a
/// sample, so that no quantile has a bucket.
pub proof fn lemma_empty(v: SketchView, b: Bucket)
    requires
        v.wf(),
        v.is_empty(),
    ensures
        v.min_bucket() is None,
        v.max_bucket() is None,
        v.bucket_count(b) == 0,
{
    match b {
        Bucket::Negative(i) => {
            lemma_mass_bounds(v.negative, v.negative.key(i as int));
        },
        Bucket::Zero => {},
        Bucket::Positive(i) => {
            lemma_mass_bounds(v.positive, v.positive.key(i as int));
        },
    }
    if !v.negative.is_empty() {
        crate::store_model::lemma_sum_bounds(v.negative.bins, 0);
    }
    if !v.positive.is_empty() {
        crate::store_model::lemma_sum_bounds(v.positive.bins, 0);
    }
}

} // verus!
