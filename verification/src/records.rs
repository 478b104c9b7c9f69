use vstd::prelude::*;
use crate::encoding::MAX_COUNT;
use crate::error::Error;
use crate::index_mapping::{is_valid_gamma, IndexMapping, IndexMappingLayout};
use crate::sketch::{unbounded_view, DDSketch, SketchView};
use crate::store::{pairs_view, DenseStore};
use crate::round_trip::{lemma_reread, reread};
use crate::store_codec::{contiguous_pairs, first_index};
use crate::store_model::{lemma_pairs_total_concat, pairs_total, StoreView};

verus! {

/// The interpolation code of a mapping that uses the logarithm itself.
pub const INTERPOLATION_NONE: i32 = 0;

/// The interpolation code of a mapping that interpolates cubically.
pub const INTERPOLATION_CUBIC: i32 = 3;

/// A mapping as the schema-based format holds it: the bit patterns of the base
/// and of the index offset, and the code of the interpolation.
#[derive(Clone, Copy, Debug)]
pub struct IndexMappingRecord {
    pub gamma: u64,
    pub index_offset: u64,
    pub interpolation: i32,
}

/// A store as the schema-based format holds it: single bins by bucket index,
/// and a run of counts for the bucket indices from an offset on.
#[derive(Debug)]
pub struct StoreRecord {
    pub bin_counts: Vec<(i32, u64)>,
    pub contiguous_bin_counts: Vec<u64>,
    pub contiguous_bin_index_offset: i32,
}

/// A sketch as the schema-based format holds it. A part that the format left
/// out is `None`.
#[derive(Debug)]
pub struct SketchRecord {
    pub mapping: Option<IndexMappingRecord>,
    pub positive_values: Option<StoreRecord>,
    pub negative_values: Option<StoreRecord>,
    pub zero_count: u64,
}

/// The layout that an interpolation code stands for, if it stands for one.
pub open spec fn layout_of_interpolation(code: i32) -> Option<IndexMappingLayout> {
    if code == INTERPOLATION_NONE {
        Some(IndexMappingLayout::LOG)
    } else if code == INTERPOLATION_CUBIC {
        Some(IndexMappingLayout::LogCubic)
    } else {
        None
    }
}

/// The interpolation code of a layout.
pub open spec fn interpolation_of(layout: IndexMappingLayout) -> i32 {
    match layout {
        IndexMappingLayout::LOG => INTERPOLATION_NONE,
        IndexMappingLayout::LogCubic => INTERPOLATION_CUBIC,
    }
}

/// The run of counts of a store record as pairs of bucket index and count.
pub open spec fn contiguous_record_pairs(counts: Seq<u64>, offset: int) -> Seq<(int, u64)> {
    Seq::new(counts.len(), |t: int| (offset + t, counts[t]))
}

/// The bins of a store record in the order in which they are added: the
/// single bins, then the run of counts.
pub open spec fn record_pairs(r: StoreRecord) -> Seq<(int, u64)> {
    pairs_view(r.bin_counts@) + contiguous_record_pairs(
        r.contiguous_bin_counts@,
        r.contiguous_bin_index_offset as int,
    )
}

/// Whether a store record can be read: the bucket indices of its run of counts
/// are 32-bit numbers, and its counts together are a count.
pub open spec fn record_fits(r: StoreRecord) -> bool {
    &&& r.contiguous_bin_index_offset + r.contiguous_bin_counts@.len() <= i32::MAX + 1
    &&& pairs_total(record_pairs(r)) <= MAX_COUNT
}

/// The store that an optional store record stands for: an empty one where the
/// record is left out.
pub open spec fn store_of_record(r: Option<StoreRecord>) -> StoreView {
    match r {
        Some(r) => unbounded_view().add_all(record_pairs(r)),
        None => unbounded_view(),
    }
}

/// Whether a sketch record can be read.
pub open spec fn sketch_record_fits(r: SketchRecord) -> bool {
    &&& r.mapping matches Some(m) && layout_of_interpolation(m.interpolation) is Some
        && is_valid_gamma(m.gamma)
    &&& r.positive_values matches Some(p) ==> record_fits(p)
    &&& r.negative_values matches Some(n) ==> record_fits(n)
    &&& r.zero_count <= MAX_COUNT
}

/// A store read from its own record holds the same count in every bucket, and
/// the record can always be read.
pub proof fn lemma_record_round_trip(v: StoreView, r: StoreRecord)
    requires
        v.wf(),
        v.limit <= usize::MAX,
        r.bin_counts@.len() == 0,
        r.contiguous_bin_index_offset == first_index(v),
        record_pairs(r) == contiguous_pairs(v, first_index(v), first_index(v) + v.bins.len()),
    ensures
        record_fits(r),
        store_of_record(Some(r)).wf(),
        store_of_record(Some(r)).total() == v.total(),
        forall|j: int| #[trigger] store_of_record(Some(r)).count_at(j) == v.count_at(j),
{
    assert(crate::store_model::sum(Seq::<u64>::empty()) == 0);
    lemma_reread(unbounded_view(), v);
    assert(store_of_record(Some(r)) == reread(unbounded_view(), v));
    assert(record_pairs(r).len() == r.contiguous_bin_counts@.len());
}

impl IndexMapping {
    /// The mapping that a record stands for. Fails where the interpolation is
    /// neither none nor cubic, or the base is no finite double above one.
    pub fn from_record(record: &IndexMappingRecord) -> (r: Result<IndexMapping, Error>)
        ensures
            match layout_of_interpolation(record.interpolation) {
                Some(layout) => if is_valid_gamma(record.gamma) {
                    r == Ok::<IndexMapping, Error>(
                        IndexMapping {
                            layout,
                            gamma: record.gamma,
                            index_offset: record.index_offset,
                        },
                    )
                } else {
                    r is Err
                },
                None => r is Err,
            },
    {
        if record.interpolation == INTERPOLATION_NONE {
            IndexMapping::with_gamma_offset(
                IndexMappingLayout::LOG,
                record.gamma,
                record.index_offset,
            )
        } else if record.interpolation == INTERPOLATION_CUBIC {
            IndexMapping::with_gamma_offset(
                IndexMappingLayout::LogCubic,
                record.gamma,
                record.index_offset,
            )
        } else {
            Err(Error::InvalidArgument("Unsupported interpolation type!"))
        }
    }

    /// The record of the mapping.
    pub fn to_record(&self) -> (r: IndexMappingRecord)
        ensures
            r.gamma == self.gamma,
            r.index_offset == self.index_offset,
            r.interpolation == interpolation_of(self.layout),
    {
        match self.layout {
            IndexMappingLayout::LOG => IndexMappingRecord {
                gamma: self.gamma,
                index_offset: self.index_offset,
                interpolation: INTERPOLATION_NONE,
            },
            IndexMappingLayout::LogCubic => IndexMappingRecord {
                gamma: self.gamma,
                index_offset: self.index_offset,
                interpolation: INTERPOLATION_CUBIC,
            },
        }
    }
}

impl DenseStore {
    /// The store, one that never collapses, that holds the bins of a record:
    /// the single bins first, then the run of counts. Fails where the record
    /// cannot be read.
    pub fn from_record(record: &StoreRecord) -> (r: Result<DenseStore, Error>)
        ensures
            record_fits(*record) ==> r is Ok && r->Ok_0.wf() && r->Ok_0@ == store_of_record(
                Some(*record),
            ),
            !record_fits(*record) ==> r is Err,
    {
        let mut store = DenseStore::unbounded();
        let ghost singles = pairs_view(record.bin_counts@);
        let ghost run = contiguous_record_pairs(
            record.contiguous_bin_counts@,
            record.contiguous_bin_index_offset as int,
        );
        let ghost all = record_pairs(*record);
        let n = record.bin_counts.len();
        let mut k: usize = 0;
        assert(crate::store_model::sum(Seq::<u64>::empty()) == 0);
        assert(all.take(0) =~= Seq::<(int, u64)>::empty());
        while k < n
            invariant
                store.wf(),
                k <= n == record.bin_counts@.len(),
                all == record_pairs(*record),
                singles == pairs_view(record.bin_counts@),
                all == singles + run,
                store@ == unbounded_view().add_all(all.take(k as int)),
                store@.total() == pairs_total(all.take(k as int)),
            decreases n - k,
        {
            let (index, count) = record.bin_counts[k];
            proof {
                assert(all.take(k + 1).drop_last() =~= all.take(k as int));
                assert(all.take(k + 1).last() == (index as int, count));
                assert(all =~= all.take(k + 1) + all.skip(k + 1));
                lemma_pairs_total_concat(all.take(k + 1), all.skip(k + 1));
            }
            if count > MAX_COUNT - store.get_total_count() {
                return Err(Error::InvalidArgument("The total count is too large."));
            }
            store.add(index, count);
            k = k + 1;
        }
        let m = record.contiguous_bin_counts.len();
        let offset = record.contiguous_bin_index_offset;
        if m as u64 > (i32::MAX as i64 - offset as i64 + 1) as u64 {
            return Err(Error::InvalidArgument("Bucket index out of range."));
        }
        let mut t: usize = 0;
        while t < m
            invariant
                store.wf(),
                t <= m == record.contiguous_bin_counts@.len(),
                n == record.bin_counts@.len(),
                offset == record.contiguous_bin_index_offset,
                offset + m <= i32::MAX + 1,
                all == record_pairs(*record),
                singles == pairs_view(record.bin_counts@),
                run == contiguous_record_pairs(record.contiguous_bin_counts@, offset as int),
                all == singles + run,
                store@ == unbounded_view().add_all(all.take(n + t)),
                store@.total() == pairs_total(all.take(n + t)),
            decreases m - t,
        {
            let count = record.contiguous_bin_counts[t];
            let index: i32 = (offset as i64 + t as i64) as i32;
            proof {
                assert(all.take(n + t + 1).drop_last() =~= all.take(n + t));
                assert(all.take(n + t + 1).last() == (index as int, count));
                assert(all =~= all.take(n + t + 1) + all.skip(n + t + 1));
                lemma_pairs_total_concat(all.take(n + t + 1), all.skip(n + t + 1));
            }
            if count > MAX_COUNT - store.get_total_count() {
                return Err(Error::InvalidArgument("The total count is too large."));
            }
            store.add(index, count);
            t = t + 1;
        }
        proof {
            assert(all.take(n + m) =~= all);
            store.lemma_wf();
        }
        Ok(store)
    }

    /// The record of the store: the counts at the bucket indices from its
    /// smallest to its largest as one run, and no single bins.
    pub fn to_record(&self) -> (r: StoreRecord)
        requires
            self.wf(),
        ensures
            r.bin_counts@.len() == 0,
            r.contiguous_bin_index_offset == first_index(self@),
            record_pairs(r) == contiguous_pairs(
                self@,
                first_index(self@),
                first_index(self@) + self@.bins.len(),
            ),
    {
        let mut counts: Vec<u64> = Vec::new();
        let empty = self.is_empty();
        let lo: i64 = if empty {
            0
        } else {
            self.get_min_index() as i64
        };
        let hi: i64 = if empty {
            0
        } else {
            self.get_max_index() as i64 + 1
        };
        let mut i: i64 = lo;
        while i < hi
            invariant
                self.wf(),
                i32::MIN <= lo <= i <= hi <= i32::MAX + 1,
                counts@.len() == i - lo,
                forall|t: int| 0 <= t < i - lo ==> counts@[t] == self@.count_at(lo + t),
            decreases hi - i,
        {
            counts.push(self.get_count(i as i32));
            i = i + 1;
        }
        let r = StoreRecord {
            bin_counts: Vec::new(),
            contiguous_bin_counts: counts,
            contiguous_bin_index_offset: lo as i32,
        };
        assert(record_pairs(r) =~= contiguous_pairs(self@, lo as int, hi as int));
        r
    }
}

fn store_from_optional_record(record: &Option<StoreRecord>) -> (r: Result<DenseStore, Error>)
    ensures
        (record matches Some(p) ==> record_fits(*p)) ==> r is Ok && r->Ok_0.wf() && r->Ok_0@
            == store_of_record(*record),
        !(record matches Some(p) ==> record_fits(*p)) ==> r is Err,
{
    match record {
        Some(p) => DenseStore::from_record(p),
        None => Ok(DenseStore::unbounded()),
    }
}

impl DDSketch {
    /// The sketch that a record stands for, with stores that never collapse.
    /// Fails where the record has no mapping or one that cannot be read, a
    /// store that cannot be read, or a count around zero that is no count.
    pub fn from_record(record: &SketchRecord) -> (r: Result<DDSketch, Error>)
        ensures
            sketch_record_fits(*record) ==> r is Ok && r->Ok_0.wf() && r->Ok_0@ == (SketchView {
                mapping: IndexMapping {
                    layout: layout_of_interpolation(record.mapping->Some_0.interpolation)->Some_0,
                    gamma: record.mapping->Some_0.gamma,
                    index_offset: record.mapping->Some_0.index_offset,
                },
                negative: store_of_record(record.negative_values),
                positive: store_of_record(record.positive_values),
                zero_count: record.zero_count,
            }),
            !sketch_record_fits(*record) ==> r is Err,
    {
        let index_mapping = match &record.mapping {
            Some(m) => match IndexMapping::from_record(m) {
                Ok(mapping) => mapping,
                Err(e) => {
                    return Err(e);
                },
            },
            None => {
                return Err(Error::InvalidArgument("No IndexMapping in the record."));
            },
        };
        let negative_value_store = match store_from_optional_record(&record.negative_values) {
            Ok(store) => store,
            Err(e) => {
                return Err(e);
            },
        };
        let positive_value_store = match store_from_optional_record(&record.positive_values) {
            Ok(store) => store,
            Err(e) => {
                return Err(e);
            },
        };
        if record.zero_count > MAX_COUNT {
            return Err(Error::InvalidArgument("The total count is too large."));
        }
        Ok(
            DDSketch::from_parts(
                index_mapping,
                negative_value_store,
                positive_value_store,
                record.zero_count,
            ),
        )
    }

    /// The record of the sketch.
    pub fn to_record(&self) -> (r: SketchRecord)
        requires
            self.wf(),
        ensures
            r.mapping matches Some(m) && m.gamma == self@.mapping.gamma && m.index_offset
                == self@.mapping.index_offset && m.interpolation == interpolation_of(
                self@.mapping.layout,
            ),
            r.zero_count == self@.zero_count,
            r.positive_values matches Some(p) && p.bin_counts@.len() == 0
                && p.contiguous_bin_index_offset == first_index(self@.positive) && record_pairs(p)
                == contiguous_pairs(
                self@.positive,
                first_index(self@.positive),
                first_index(self@.positive) + self@.positive.bins.len(),
            ),
            r.negative_values matches Some(n) && n.bin_counts@.len() == 0
                && n.contiguous_bin_index_offset == first_index(self@.negative) && record_pairs(n)
                == contiguous_pairs(
                self@.negative,
                first_index(self@.negative),
                first_index(self@.negative) + self@.negative.bins.len(),
            ),
    {
        SketchRecord {
            mapping: Some(self.get_index_mapping().to_record()),
            positive_values: Some(self.get_positive_value_store().to_record()),
            negative_values: Some(self.get_negative_value_store().to_record()),
            zero_count: self.get_zero_count(),
        }
    }
}

} // verus!
