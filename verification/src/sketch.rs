use vstd::prelude::*;
use crate::encoding::{count_to_raw, encode_var_double, MAX_COUNT};
use crate::error::Error;
use crate::flag::{Flag, FlagType, ZERO_COUNT};
use crate::index_mapping::{is_valid_gamma, IndexMapping, IndexMappingLayout};
use crate::input::Input;
use crate::output::Output;
use crate::sketch_codec::{
    apply_block,
    apply_blocks,
    decode_feature_block,
    decode_mapping_block,
    decoding_of,
    fresh_decoding,
    lemma_apply_block_len,
    sketch_bytes,
    sketch_of,
    Decoding,
};
use crate::store::DenseStore;
use crate::store_codec::BinEncodingMode;
use crate::store_model::{lemma_mass_ends, lemma_mass_upto_step, StoreView};

verus! {

/// The bucket of a sample: the bucket index of its magnitude on the negative
/// or on the positive side, or the bucket around zero. Buckets are ordered as
/// the values in them: negative buckets come first, the larger bucket index
/// before the smaller, then the bucket around zero, then the positive buckets
/// by bucket index.
#[derive(PartialEq, Eq, Structural, Clone, Copy, Debug)]
pub enum Bucket {
    Negative(i32),
    Zero,
    Positive(i32),
}

impl Bucket {
    /// Whether the values of this bucket are at or below those of `other`.
    pub open spec fn le(self, other: Bucket) -> bool {
        match (self, other) {
            (Bucket::Negative(i), Bucket::Negative(j)) => i >= j,
            (Bucket::Negative(_), _) => true,
            (Bucket::Zero, Bucket::Negative(_)) => false,
            (Bucket::Zero, _) => true,
            (Bucket::Positive(i), Bucket::Positive(j)) => i <= j,
            (Bucket::Positive(_), _) => false,
        }
    }
}

/// What a sketch holds: its mapping, the bins of the negative and of the
/// positive samples, and the count of the samples around zero.
pub struct SketchView {
    pub mapping: IndexMapping,
    pub negative: StoreView,
    pub positive: StoreView,
    pub zero_count: u64,
}

impl SketchView {
    /// The invariant of a sketch: that of its parts.
    pub open spec fn wf(self) -> bool {
        &&& self.mapping.wf()
        &&& self.negative.wf()
        &&& self.positive.wf()
        &&& self.zero_count <= MAX_COUNT
    }

    /// The count of all samples.
    pub open spec fn count(self) -> nat {
        self.zero_count as nat + self.negative.total() + self.positive.total()
    }

    pub open spec fn is_empty(self) -> bool {
        self.count() == 0
    }

    /// The count of the samples in a bucket.
    pub open spec fn bucket_count(self, b: Bucket) -> nat {
        match b {
            Bucket::Negative(i) => self.negative.count_at(i as int),
            Bucket::Zero => self.zero_count as nat,
            Bucket::Positive(i) => self.positive.count_at(i as int),
        }
    }

    /// The count of the samples in a bucket and in all buckets before it.
    pub open spec fn mass_through(self, b: Bucket) -> nat {
        match b {
            Bucket::Negative(i) => self.negative.mass_from(i as int),
            Bucket::Zero => self.negative.total() + self.zero_count as nat,
            Bucket::Positive(i) => self.negative.total() + self.zero_count as nat
                + self.positive.mass_upto(i as int),
        }
    }

    /// The count of the samples in all buckets before a bucket.
    pub open spec fn mass_before(self, b: Bucket) -> nat {
        (self.mass_through(b) - self.bucket_count(b)) as nat
    }

    /// The count that the part of the sketch holds to which a bucket belongs:
    /// one of the two stores, or the count around zero.
    pub open spec fn part_count(self, b: Bucket) -> nat {
        match b {
            Bucket::Negative(_) => self.negative.total(),
            Bucket::Zero => self.zero_count as nat,
            Bucket::Positive(_) => self.positive.total(),
        }
    }

    /// The first bucket that holds a sample.
    pub open spec fn min_bucket(self) -> Option<Bucket> {
        if !self.negative.is_empty() {
            Some(Bucket::Negative(self.negative.max_index() as i32))
        } else if self.zero_count > 0 {
            Some(Bucket::Zero)
        } else if !self.positive.is_empty() {
            Some(Bucket::Positive(self.positive.min_index() as i32))
        } else {
            None
        }
    }

    /// The last bucket that holds a sample.
    pub open spec fn max_bucket(self) -> Option<Bucket> {
        if !self.positive.is_empty() {
            Some(Bucket::Positive(self.positive.max_index() as i32))
        } else if self.zero_count > 0 {
            Some(Bucket::Zero)
        } else if !self.negative.is_empty() {
            Some(Bucket::Negative(self.negative.min_index() as i32))
        } else {
            None
        }
    }

    /// The sketch once `count` samples have been added to a bucket.
    pub open spec fn accept(self, b: Bucket, count: u64) -> SketchView {
        match b {
            Bucket::Negative(i) => SketchView {
                negative: self.negative.add(i as int, count),
                ..self
            },
            Bucket::Zero => SketchView { zero_count: (self.zero_count + count) as u64, ..self },
            Bucket::Positive(i) => SketchView {
                positive: self.positive.add(i as int, count),
                ..self
            },
        }
    }

    /// The sketch once each of `samples`, a bucket and a count, has been added
    /// in turn.
    pub open spec fn accept_all(self, samples: Seq<(Bucket, u64)>) -> SketchView
        decreases samples.len(),
    {
        if samples.len() == 0 {
            self
        } else {
            self.accept_all(samples.drop_last()).accept(samples.last().0, samples.last().1)
        }
    }

    /// The sketch once every bin of `other` has been added to it, the bins of
    /// each store from the highest bucket index down.
    pub open spec fn merge(self, other: SketchView) -> SketchView {
        SketchView {
            mapping: self.mapping,
            negative: self.negative.add_all(other.negative.descending_bins()),
            positive: self.positive.add_all(other.positive.descending_bins()),
            zero_count: (self.zero_count + other.zero_count) as u64,
        }
    }

    /// Whether each part of the two sketches together would still hold a
    /// count.
    pub open spec fn has_room_for(self, other: SketchView) -> bool {
        &&& self.negative.total() + other.negative.total() <= MAX_COUNT
        &&& self.positive.total() + other.positive.total() <= MAX_COUNT
        &&& self.zero_count + other.zero_count <= MAX_COUNT
    }

    /// Whether `b` is the bucket of the quantile `numerator / denominator`: it
    /// holds a sample, the count through it lies above the rank of the
    /// quantile, and the count before it does not.
    pub open spec fn is_quantile_bucket(self, b: Bucket, numerator: u64, denominator: u64) -> bool {
        &&& self.bucket_count(b) > 0
        &&& self.reaches(self.mass_through(b), numerator, denominator)
        &&& !self.reaches(self.mass_before(b), numerator, denominator)
    }

    /// Whether a count `mass` of samples lies above the rank of the quantile
    /// `numerator / denominator`: that quantile of the ranks from zero to one
    /// below the count of all samples.
    pub open spec fn reaches(self, mass: nat, numerator: u64, denominator: u64) -> bool {
        mass * denominator > numerator * (self.count() - 1)
    }
}

/// The counts of a run of samples, together.
pub open spec fn samples_total(samples: Seq<(Bucket, u64)>) -> nat
    decreases samples.len(),
{
    if samples.len() == 0 {
        0
    } else {
        samples_total(samples.drop_last()) + samples.last().1 as nat
    }
}

/// An empty store that never collapses.
pub open spec fn unbounded_view() -> StoreView {
    StoreView {
        collapses_highest: false,
        limit: usize::MAX as nat,
        first: 0,
        bins: Seq::<u64>::empty(),
    }
}

/// An empty store of at most `limit` bins that collapses at the given end.
pub open spec fn collapsing_view(collapses_highest: bool, limit: usize) -> StoreView {
    StoreView { collapses_highest, limit: limit as nat, first: 0, bins: Seq::<u64>::empty() }
}

/// An empty sketch with the given mapping and stores.
pub open spec fn empty_sketch(mapping: IndexMapping, store: StoreView) -> SketchView {
    SketchView { mapping, negative: store, positive: store, zero_count: 0 }
}

/// A sketch of samples by bucket, with whole-number counts.
pub struct DDSketch {
    index_mapping: IndexMapping,
    negative_value_store: DenseStore,
    positive_value_store: DenseStore,
    zero_count: u64,
}

impl View for DDSketch {
    type V = SketchView;

    closed spec fn view(&self) -> SketchView {
        SketchView {
            mapping: self.index_mapping,
            negative: self.negative_value_store@,
            positive: self.positive_value_store@,
            zero_count: self.zero_count,
        }
    }
}

impl DDSketch {
    /// The invariant of the sketch.
    pub closed spec fn wf(&self) -> bool {
        &&& self.index_mapping.wf()
        &&& self.negative_value_store.wf()
        &&& self.positive_value_store.wf()
        &&& self.zero_count <= MAX_COUNT
    }

    /// What a valid sketch holds is valid.
    pub proof fn lemma_wf(&self)
        requires
            self.wf(),
        ensures
            self@.wf(),
            self@.negative.limit <= usize::MAX,
            self@.positive.limit <= usize::MAX,
    {
        self.negative_value_store.lemma_wf();
        self.positive_value_store.lemma_wf();
    }

    /// Adds one sample to a bucket.
    pub fn accept(&mut self, bucket: Bucket)
        requires
            old(self).wf(),
            old(self)@.part_count(bucket) + 1 <= MAX_COUNT,
        ensures
            final(self).wf(),
            final(self)@ == old(self)@.accept(bucket, 1),
            final(self)@.count() == old(self)@.count() + 1,
    {
        self.accept_with_count(bucket, 1);
    }

    /// Adds `count` samples to a bucket. The part of the sketch that the bucket
    /// belongs to must still hold a count afterwards.
    pub fn accept_with_count(&mut self, bucket: Bucket, count: u64)
        requires
            old(self).wf(),
            old(self)@.part_count(bucket) + count <= MAX_COUNT,
        ensures
            final(self).wf(),
            final(self)@ == old(self)@.accept(bucket, count),
            final(self)@.count() == old(self)@.count() + count,
    {
        match bucket {
            Bucket::Positive(index) => {
                self.positive_value_store.add(index, count);
            },
            Bucket::Negative(index) => {
                self.negative_value_store.add(index, count);
            },
            Bucket::Zero => {
                self.zero_count = self.zero_count + count;
            },
        }
    }

    /// Whether the sketch holds no sample.
    pub fn is_empty(&self) -> (r: bool)
        requires
            self.wf(),
        ensures
            r == self@.is_empty(),
    {
        self.zero_count == 0 && self.negative_value_store.is_empty()
            && self.positive_value_store.is_empty()
    }

    /// Removes all samples; the mapping and the kind of the stores stay.
    pub fn clear(&mut self)
        requires
            old(self).wf(),
        ensures
            final(self).wf(),
            final(self)@ == (SketchView {
                mapping: old(self)@.mapping,
                negative: StoreView { first: 0, bins: Seq::<u64>::empty(), ..old(self)@.negative },
                positive: StoreView { first: 0, bins: Seq::<u64>::empty(), ..old(self)@.positive },
                zero_count: 0,
            }),
            final(self)@.is_empty(),
    {
        self.negative_value_store.clear();
        self.positive_value_store.clear();
        self.zero_count = 0;
        assert(crate::store_model::sum(Seq::<u64>::empty()) == 0);
    }

    /// The count of all samples.
    pub fn get_count(&self) -> (r: u64)
        requires
            self.wf(),
        ensures
            r == self@.count(),
            r <= 3 * MAX_COUNT,
    {
        self.zero_count + self.negative_value_store.get_total_count()
            + self.positive_value_store.get_total_count()
    }

    /// The mapping of the sketch.
    pub fn get_index_mapping(&self) -> (r: IndexMapping)
        ensures
            r == self@.mapping,
    {
        self.index_mapping
    }

    /// The count of the samples around zero.
    pub fn get_zero_count(&self) -> (r: u64)
        ensures
            r == self@.zero_count,
    {
        self.zero_count
    }

    /// The store of the negative samples.
    pub fn get_negative_value_store(&self) -> (r: &DenseStore)
        requires
            self.wf(),
        ensures
            r.wf(),
            r@ == self@.negative,
    {
        &self.negative_value_store
    }

    /// The store of the positive samples.
    pub fn get_positive_value_store(&self) -> (r: &DenseStore)
        requires
            self.wf(),
        ensures
            r.wf(),
            r@ == self@.positive,
    {
        &self.positive_value_store
    }

    /// The last bucket that holds a sample, or `None` for an empty sketch.
    pub fn get_max(&self) -> (r: Option<Bucket>)
        requires
            self.wf(),
        ensures
            r == self@.max_bucket(),
            r is None <==> self@.is_empty(),
    {
        proof {
            self.lemma_wf();
        }
        let neg_empty = self.negative_value_store.is_empty();
        let pos_empty = self.positive_value_store.is_empty();
        if !pos_empty {
            Some(Bucket::Positive(self.positive_value_store.get_max_index()))
        } else if self.zero_count > 0 {
            Some(Bucket::Zero)
        } else if !neg_empty {
            Some(Bucket::Negative(self.negative_value_store.get_min_index()))
        } else {
            None
        }
    }

    /// The first bucket that holds a sample, or `None` for an empty sketch.
    pub fn get_min(&self) -> (r: Option<Bucket>)
        requires
            self.wf(),
        ensures
            r == self@.min_bucket(),
            r is None <==> self@.is_empty(),
    {
        proof {
            self.lemma_wf();
        }
        let neg_empty = self.negative_value_store.is_empty();
        let pos_empty = self.positive_value_store.is_empty();
        if !neg_empty {
            Some(Bucket::Negative(self.negative_value_store.get_max_index()))
        } else if self.zero_count > 0 {
            Some(Bucket::Zero)
        } else if !pos_empty {
            Some(Bucket::Positive(self.positive_value_store.get_min_index()))
        } else {
            None
        }
    }

    /// Whether a count `n` of samples lies above the rank of a quantile.
    fn is_reached(&self, n: u64, numerator: u64, denominator: u64) -> (r: bool)
        requires
            self.wf(),
            n <= self@.count(),
            self@.count() > 0,
        ensures
            r == self@.reaches(n as nat, numerator, denominator),
    {
        let count = self.get_count();
        assert(n * denominator <= 0x60_0000_0000_0000 * 0xffff_ffff_ffff_ffff) by (nonlinear_arith)
            requires
                n <= 0x60_0000_0000_0000,
                denominator <= 0xffff_ffff_ffff_ffff,
        ;
        assert(numerator * (count - 1) <= 0xffff_ffff_ffff_ffff * 0x60_0000_0000_0000)
            by (nonlinear_arith)
            requires
                0 <= count - 1 <= 0x60_0000_0000_0000,
                numerator <= 0xffff_ffff_ffff_ffff,
        ;
        (n as u128) * (denominator as u128) > (numerator as u128) * ((count - 1) as u128)
    }

    /// The first negative bucket, from the largest bucket index down, through
    /// which the count of samples lies above the rank of the quantile; or the
    /// count of all negative samples where none does.
    fn negative_bucket_at(&self, numerator: u64, denominator: u64) -> (r: Result<Bucket, u64>)
        requires
            self.wf(),
            self@.count() > 0,
        ensures
            match r {
                Ok(b) => b is Negative && self@.is_quantile_bucket(b, numerator, denominator),
                Err(n) => n == self@.negative.total() && !self@.reaches(
                    n as nat,
                    numerator,
                    denominator,
                ),
            },
    {
        let store = &self.negative_value_store;
        if store.is_empty() {
            assert(!self@.reaches(0, numerator, denominator)) by (nonlinear_arith)
                requires
                    self@.count() > 0,
            ;
            return Err(0);
        }
        let lo: i64 = store.get_min_index() as i64;
        let hi: i64 = store.get_max_index() as i64;
        let mut n: u64 = 0;
        let mut i: i64 = hi;
        proof {
            self.lemma_wf();
            lemma_mass_ends(store@);
            assert(!self@.reaches(0, numerator, denominator)) by (nonlinear_arith)
                requires
                    self@.count() > 0,
            ;
        }
        while i >= lo
            invariant
                self.wf(),
                self@.wf(),
                self@.count() > 0,
                store == &self.negative_value_store,
                !store@.is_empty(),
                lo == store@.min_index(),
                i32::MIN <= lo <= i + 1 <= hi + 1 <= i32::MAX + 1,
                n == store@.mass_from(i + 1),
                !self@.reaches(n as nat, numerator, denominator),
            decreases i - lo + 1,
        {
            let c = store.get_count(i as i32);
            proof {
                lemma_mass_upto_step(store@, i as int);
            }
            let through: u64 = n + c;
            if self.is_reached(through, numerator, denominator) {
                return Ok(Bucket::Negative(i as i32));
            }
            n = through;
            i = i - 1;
        }
        proof {
            lemma_mass_ends(store@);
        }
        Err(n)
    }

    /// The first positive bucket, from the smallest bucket index up, through
    /// which the count of samples lies above the rank of the quantile.
    fn positive_bucket_at(&self, numerator: u64, denominator: u64) -> (r: Option<Bucket>)
        requires
            self.wf(),
            self@.count() > 0,
            !self@.reaches(self@.mass_through(Bucket::Zero), numerator, denominator),
            self@.reaches(self@.count(), numerator, denominator),
        ensures
            r is Some,
            r->Some_0 is Positive,
            self@.is_quantile_bucket(r->Some_0, numerator, denominator),
    {
        let store = &self.positive_value_store;
        let base: u64 = self.zero_count + self.negative_value_store.get_total_count();
        if store.is_empty() {
            return None;
        }
        let lo: i64 = store.get_min_index() as i64;
        let hi: i64 = store.get_max_index() as i64;
        let mut n: u64 = base;
        let mut i: i64 = lo;
        proof {
            self.lemma_wf();
            lemma_mass_ends(store@);
        }
        while i <= hi
            invariant
                self.wf(),
                self@.wf(),
                self@.count() > 0,
                store == &self.positive_value_store,
                !store@.is_empty(),
                hi == store@.max_index(),
                base == self@.zero_count + self@.negative.total(),
                i32::MIN <= lo <= i <= hi + 1 <= i32::MAX + 1,
                n == base + store@.mass_upto(i - 1),
                !self@.reaches(n as nat, numerator, denominator),
                self@.reaches(self@.count(), numerator, denominator),
            decreases hi - i + 1,
        {
            let c = store.get_count(i as i32);
            proof {
                lemma_mass_upto_step(store@, i as int);
            }
            let through: u64 = n + c;
            if self.is_reached(through, numerator, denominator) {
                return Some(Bucket::Positive(i as i32));
            }
            n = through;
            i = i + 1;
        }
        proof {
            lemma_mass_ends(store@);
        }
        None
    }

    /// The bucket of the quantile `numerator / denominator`: the first bucket
    /// through which the count of samples lies above that quantile of the
    /// ranks from zero to one below the count of all samples. `None` where the
    /// quantile is no number from zero to one, or the sketch is empty.
    pub fn get_value_at_quantile(&self, numerator: u64, denominator: u64) -> (r: Option<Bucket>)
        requires
            self.wf(),
        ensures
            denominator == 0 || numerator > denominator || self@.is_empty() ==> r is None,
            denominator > 0 && numerator <= denominator && !self@.is_empty() ==> r is Some
                && self@.is_quantile_bucket(r->Some_0, numerator, denominator),
    {
        if denominator == 0 || numerator > denominator {
            return None;
        }
        let count = self.get_count();
        if count == 0 {
            return None;
        }
        assert(self@.reaches(self@.count(), numerator, denominator)) by (nonlinear_arith)
            requires
                self@.count() > 0,
                0 <= numerator <= denominator,
                denominator > 0,
        ;
        let below = match self.negative_bucket_at(numerator, denominator) {
            Ok(b) => {
                return Some(b);
            },
            Err(n) => n,
        };
        let through: u64 = below + self.zero_count;
        if self.is_reached(through, numerator, denominator) {
            return Some(Bucket::Zero);
        }
        self.positive_bucket_at(numerator, denominator)
    }

    /// Adds every sample of `other`. Fails, and changes nothing, where the
    /// mappings differ or a part of the two sketches together would hold no
    /// count any more.
    pub fn merge_with(&mut self, other: &DDSketch) -> (r: Result<(), Error>)
        requires
            old(self).wf(),
            other.wf(),
        ensures
            final(self).wf(),
            old(self)@.mapping == other@.mapping && old(self)@.has_room_for(other@) ==> r is Ok
                && final(self)@ == old(self)@.merge(other@) && final(self)@.count() == old(
                self,
            )@.count() + other@.count(),
            !(old(self)@.mapping == other@.mapping && old(self)@.has_room_for(other@)) ==> r is Err
                && final(self)@ == old(self)@,
            old(self)@.mapping != other@.mapping ==> r is Err && r->Err_0.reason()
                == "Unmatched indexMapping."@,
    {
        if self.index_mapping != other.index_mapping {
            return Err(Error::InvalidArgument("Unmatched indexMapping."));
        }
        if other.negative_value_store.get_total_count() > MAX_COUNT
            - self.negative_value_store.get_total_count()
            || other.positive_value_store.get_total_count() > MAX_COUNT
            - self.positive_value_store.get_total_count() || other.zero_count > MAX_COUNT
            - self.zero_count {
            return Err(Error::InvalidArgument("The total count is too large."));
        }
        self.negative_value_store.merge_with(&other.negative_value_store);
        self.positive_value_store.merge_with(&other.positive_value_store);
        self.zero_count = self.zero_count + other.zero_count;
        Ok(())
    }

    /// The bytes of the sketch: the blocks of its mapping, of its count around
    /// zero where that is not zero, of its positive and of its negative store.
    pub fn encode(&self) -> (r: Result<Vec<u8>, Error>)
        requires
            self.wf(),
        ensures
            r is Ok,
            r->Ok_0@ == sketch_bytes(self@),
    {
        let mut output = Output::with_capacity(64);
        let _ = self.index_mapping.encode(&mut output);
        if self.zero_count != 0 {
            let _ = Flag::new(ZERO_COUNT).encode(&mut output);
            let _ = encode_var_double(&mut output, count_to_raw(self.zero_count));
        }
        let _ = self.positive_value_store.encode(&mut output, FlagType::PositiveStore);
        let _ = self.negative_value_store.encode(&mut output, FlagType::NegativeStore);
        assert(output@ =~= sketch_bytes(self@));
        Ok(output.trim())
    }

    /// Reads a stream of blocks and adds what it holds to the sketch. Fails
    /// where a block cannot be read, a mapping in the stream is not that of the
    /// sketch, or a part of the sketch would hold no count any more; the
    /// sketch then holds what the blocks before the failure gave it.
    pub fn decode_and_merge_with(&mut self, bytes: &Vec<u8>) -> (r: Result<(), Error>)
        requires
            old(self).wf(),
        ensures
            final(self).wf(),
            final(self)@.mapping == old(self)@.mapping,
            match apply_blocks(decoding_of(old(self)@), bytes@) {
                Some(st) => r is Ok && final(self)@ == sketch_of(st),
                None => r is Err,
            },
    {
        let mut input = Input::wrap(bytes);
        while input.has_remaining()
            invariant
                self.wf(),
                input.wf(),
                self@.mapping == old(self)@.mapping,
                apply_blocks(decoding_of(old(self)@), bytes@) == apply_blocks(
                    decoding_of(self@),
                    input.remaining(),
                ),
            decreases input.remaining().len(),
        {
            let ghost s = input.remaining();
            let ghost st = decoding_of(self@);
            proof {
                lemma_apply_block_len(st, s);
            }
            let flag = match Flag::decode(&mut input) {
                Ok(flag) => flag,
                Err(e) => {
                    return Err(e);
                },
            };
            let flag_type = match flag.get_type() {
                Ok(flag_type) => flag_type,
                Err(e) => {
                    return Err(e);
                },
            };
            match flag_type {
                FlagType::PositiveStore => {
                    let mode = match BinEncodingMode::of_flag(flag.get_marker()) {
                        Ok(mode) => mode,
                        Err(e) => {
                            return Err(e);
                        },
                    };
                    match self.positive_value_store.decode_and_merge_with(&mut input, mode) {
                        Ok(()) => {},
                        Err(e) => {
                            return Err(e);
                        },
                    }
                },
                FlagType::NegativeStore => {
                    let mode = match BinEncodingMode::of_flag(flag.get_marker()) {
                        Ok(mode) => mode,
                        Err(e) => {
                            return Err(e);
                        },
                    };
                    match self.negative_value_store.decode_and_merge_with(&mut input, mode) {
                        Ok(()) => {},
                        Err(e) => {
                            return Err(e);
                        },
                    }
                },
                FlagType::IndexMapping => {
                    let decoded_index_mapping = match decode_mapping_block(&mut input, &flag) {
                        Ok(m) => m,
                        Err(e) => {
                            return Err(e);
                        },
                    };
                    if self.index_mapping != decoded_index_mapping {
                        return Err(Error::InvalidArgument("Unmatched IndexMapping"));
                    }
                },
                FlagType::SketchFeatures => {
                    match decode_feature_block(&mut input, &flag, self.zero_count) {
                        Ok(zero_count) => {
                            self.zero_count = zero_count;
                        },
                        Err(e) => {
                            return Err(e);
                        },
                    }
                },
            }
            proof {
                let used = apply_block(st, s)->Some_0.1;
                assert(s.skip(1).skip(used - 1) =~= s.skip(used as int));
            }
        }
        Ok(())
    }

    /// Reads a stream of blocks into a sketch of its own, with stores that
    /// never collapse. Fails where a block cannot be read, a part of the
    /// sketch would hold no count any more, or the stream holds no mapping.
    pub fn decode(bytes: &Vec<u8>) -> (r: Result<DDSketch, Error>)
        ensures
            match apply_blocks(fresh_decoding(), bytes@) {
                Some(st) => if st.mapping is Some {
                    r is Ok && r->Ok_0.wf() && r->Ok_0@ == sketch_of(st)
                } else {
                    r is Err && r->Err_0.reason() == "No IndexMapping decoded"@
                },
                None => r is Err,
            },
    {
        let mut input = Input::wrap(bytes);
        let mut positive_value_store = DenseStore::unbounded();
        let mut negative_value_store = DenseStore::unbounded();
        let mut index_mapping: Option<IndexMapping> = None;
        let mut zero_count: u64 = 0;
        while input.has_remaining()
            invariant
                positive_value_store.wf(),
                negative_value_store.wf(),
                input.wf(),
                zero_count <= MAX_COUNT,
                index_mapping matches Some(m) ==> m.wf(),
                apply_blocks(fresh_decoding(), bytes@) == apply_blocks(
                    Decoding {
                        fixed: false,
                        mapping: index_mapping,
                        zero_count,
                        positive: positive_value_store@,
                        negative: negative_value_store@,
                    },
                    input.remaining(),
                ),
            decreases input.remaining().len(),
        {
            let ghost s = input.remaining();
            let ghost st = Decoding {
                fixed: false,
                mapping: index_mapping,
                zero_count,
                positive: positive_value_store@,
                negative: negative_value_store@,
            };
            proof {
                lemma_apply_block_len(st, s);
            }
            let flag = match Flag::decode(&mut input) {
                Ok(flag) => flag,
                Err(e) => {
                    return Err(e);
                },
            };
            let flag_type = match flag.get_type() {
                Ok(flag_type) => flag_type,
                Err(e) => {
                    return Err(e);
                },
            };
            match flag_type {
                FlagType::PositiveStore => {
                    let mode = match BinEncodingMode::of_flag(flag.get_marker()) {
                        Ok(mode) => mode,
                        Err(e) => {
                            return Err(e);
                        },
                    };
                    match positive_value_store.decode_and_merge_with(&mut input, mode) {
                        Ok(()) => {},
                        Err(e) => {
                            return Err(e);
                        },
                    }
                },
                FlagType::NegativeStore => {
                    let mode = match BinEncodingMode::of_flag(flag.get_marker()) {
                        Ok(mode) => mode,
                        Err(e) => {
                            return Err(e);
                        },
                    };
                    match negative_value_store.decode_and_merge_with(&mut input, mode) {
                        Ok(()) => {},
                        Err(e) => {
                            return Err(e);
                        },
                    }
                },
                FlagType::IndexMapping => {
                    match decode_mapping_block(&mut input, &flag) {
                        Ok(m) => {
                            index_mapping = Some(m);
                        },
                        Err(e) => {
                            return Err(e);
                        },
                    }
                },
                FlagType::SketchFeatures => {
                    match decode_feature_block(&mut input, &flag, zero_count) {
                        Ok(z) => {
                            zero_count = z;
                        },
                        Err(e) => {
                            return Err(e);
                        },
                    }
                },
            }
            proof {
                let used = apply_block(st, s)->Some_0.1;
                assert(s.skip(1).skip(used - 1) =~= s.skip(used as int));
            }
        }
        match index_mapping {
            Some(mapping) => Ok(
                DDSketch {
                    index_mapping: mapping,
                    negative_value_store,
                    positive_value_store,
                    zero_count,
                },
            ),
            None => Err(Error::InvalidArgument("No IndexMapping decoded")),
        }
    }

    /// The sketch made of a mapping, two stores and a count around zero.
    pub fn from_parts(
        mapping: IndexMapping,
        negative: DenseStore,
        positive: DenseStore,
        zero_count: u64,
    ) -> (r: DDSketch)
        requires
            mapping.wf(),
            negative.wf(),
            positive.wf(),
            zero_count <= MAX_COUNT,
        ensures
            r.wf(),
            r@ == (SketchView { mapping, negative: negative@, positive: positive@, zero_count }),
    {
        DDSketch {
            index_mapping: mapping,
            negative_value_store: negative,
            positive_value_store: positive,
            zero_count,
        }
    }

    fn collapsing(
        layout: IndexMappingLayout,
        collapses_highest: bool,
        gamma: u64,
        max_num_bins: usize,
    ) -> (r: Result<DDSketch, Error>)
        ensures
            is_valid_gamma(gamma) && max_num_bins > 0 ==> r is Ok && r->Ok_0.wf() && r->Ok_0@
                == empty_sketch(
                IndexMapping { layout, gamma, index_offset: 0 },
                collapsing_view(collapses_highest, max_num_bins),
            ),
            !(is_valid_gamma(gamma) && max_num_bins > 0) ==> r is Err,
    {
        let mapping = match IndexMapping::with_gamma_offset(layout, gamma, 0) {
            Ok(mapping) => mapping,
            Err(e) => {
                return Err(e);
            },
        };
        let negative = if collapses_highest {
            DenseStore::collapsing_highest(max_num_bins)
        } else {
            DenseStore::collapsing_lowest(max_num_bins)
        };
        let positive = if collapses_highest {
            DenseStore::collapsing_highest(max_num_bins)
        } else {
            DenseStore::collapsing_lowest(max_num_bins)
        };
        match (negative, positive) {
            (Ok(negative), Ok(positive)) => Ok(DDSketch::from_parts(mapping, negative, positive, 0)),
            (Err(e), _) => Err(e),
            (_, Err(e)) => Err(e),
        }
    }

    fn unbounded(layout: IndexMappingLayout, gamma: u64) -> (r: Result<DDSketch, Error>)
        ensures
            is_valid_gamma(gamma) ==> r is Ok && r->Ok_0.wf() && r->Ok_0@ == empty_sketch(
                IndexMapping { layout, gamma, index_offset: 0 },
                unbounded_view(),
            ),
            !is_valid_gamma(gamma) ==> r is Err,
    {
        let mapping = match IndexMapping::with_gamma_offset(layout, gamma, 0) {
            Ok(mapping) => mapping,
            Err(e) => {
                return Err(e);
            },
        };
        Ok(DDSketch::from_parts(mapping, DenseStore::unbounded(), DenseStore::unbounded(), 0))
    }

    /// An empty sketch with a cubic mapping of base `gamma`, given as the bit
    /// pattern of a double, and stores of at most `max_num_bins` bins that
    /// collapse their lowest bins. Fails unless `gamma` is a finite double
    /// above one and `max_num_bins` is at least one.
    pub fn collapsing_lowest_dense(gamma: u64, max_num_bins: usize) -> (r: Result<DDSketch, Error>)
        ensures
            is_valid_gamma(gamma) && max_num_bins > 0 ==> r is Ok && r->Ok_0.wf() && r->Ok_0@
                == empty_sketch(
                IndexMapping { layout: IndexMappingLayout::LogCubic, gamma, index_offset: 0 },
                collapsing_view(false, max_num_bins),
            ),
            !(is_valid_gamma(gamma) && max_num_bins > 0) ==> r is Err,
    {
        DDSketch::collapsing(IndexMappingLayout::LogCubic, false, gamma, max_num_bins)
    }

    /// As `collapsing_lowest_dense`, with stores that collapse their highest
    /// bins.
    pub fn collapsing_highest_dense(gamma: u64, max_num_bins: usize) -> (r: Result<DDSketch, Error>)
        ensures
            is_valid_gamma(gamma) && max_num_bins > 0 ==> r is Ok && r->Ok_0.wf() && r->Ok_0@
                == empty_sketch(
                IndexMapping { layout: IndexMappingLayout::LogCubic, gamma, index_offset: 0 },
                collapsing_view(true, max_num_bins),
            ),
            !(is_valid_gamma(gamma) && max_num_bins > 0) ==> r is Err,
    {
        DDSketch::collapsing(IndexMappingLayout::LogCubic, true, gamma, max_num_bins)
    }

    /// An empty sketch with a cubic mapping of base `gamma` and stores that
    /// never collapse. Fails unless `gamma` is a finite double above one.
    pub fn unbounded_dense(gamma: u64) -> (r: Result<DDSketch, Error>)
        ensures
            is_valid_gamma(gamma) ==> r is Ok && r->Ok_0.wf() && r->Ok_0@ == empty_sketch(
                IndexMapping { layout: IndexMappingLayout::LogCubic, gamma, index_offset: 0 },
                unbounded_view(),
            ),
            !is_valid_gamma(gamma) ==> r is Err,
    {
        DDSketch::unbounded(IndexMappingLayout::LogCubic, gamma)
    }

    /// As `collapsing_lowest_dense`, with a logarithmic mapping.
    pub fn logarithmic_collapsing_lowest_dense(gamma: u64, max_num_bins: usize) -> (r: Result<
        DDSketch,
        Error,
    >)
        ensures
            is_valid_gamma(gamma) && max_num_bins > 0 ==> r is Ok && r->Ok_0.wf() && r->Ok_0@
                == empty_sketch(
                IndexMapping { layout: IndexMappingLayout::LOG, gamma, index_offset: 0 },
                collapsing_view(false, max_num_bins),
            ),
            !(is_valid_gamma(gamma) && max_num_bins > 0) ==> r is Err,
    {
        DDSketch::collapsing(IndexMappingLayout::LOG, false, gamma, max_num_bins)
    }

    /// As `collapsing_highest_dense`, with a logarithmic mapping.
    pub fn logarithmic_collapsing_highest_dense(gamma: u64, max_num_bins: usize) -> (r: Result<
        DDSketch,
        Error,
    >)
        ensures
            is_valid_gamma(gamma) && max_num_bins > 0 ==> r is Ok && r->Ok_0.wf() && r->Ok_0@
                == empty_sketch(
                IndexMapping { layout: IndexMappingLayout::LOG, gamma, index_offset: 0 },
                collapsing_view(true, max_num_bins),
            ),
            !(is_valid_gamma(gamma) && max_num_bins > 0) ==> r is Err,
    {
        DDSketch::collapsing(IndexMappingLayout::LOG, true, gamma, max_num_bins)
    }

    /// As `unbounded_dense`, with a logarithmic mapping.
    pub fn logarithmic_unbounded_size_dense_store(gamma: u64) -> (r: Result<DDSketch, Error>)
        ensures
            is_valid_gamma(gamma) ==> r is Ok && r->Ok_0.wf() && r->Ok_0@ == empty_sketch(
                IndexMapping { layout: IndexMappingLayout::LOG, gamma, index_offset: 0 },
                unbounded_view(),
            ),
            !is_valid_gamma(gamma) ==> r is Err,
    {
        DDSketch::unbounded(IndexMappingLayout::LOG, gamma)
    }
}

} // verus!
