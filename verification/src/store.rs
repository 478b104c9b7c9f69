use vstd::prelude::*;
use crate::encoding::MAX_COUNT;
use crate::error::Error;
use crate::store_model::{
    lemma_add,
    lemma_mass_bounds,
    lemma_mass_ends,
    lemma_mass_upto_step,
    lemma_sum_bounds,
    lemma_sum_take_step,
    sum,
    StoreView,
};

verus! {

/// Pairs of a bucket index and a count, with the index as a number without
/// bounds.
pub open spec fn pairs_view(pairs: Seq<(i32, u64)>) -> Seq<(int, u64)> {
    pairs.map_values(|p: (i32, u64)| (p.0 as int, p.1))
}

/// A dense store of bucket counts: one counter for each key from the first
/// bin's to the last bin's. With a limit on the number of bins it collapses the
/// bins at one end into one when the limit would be passed.
pub struct DenseStore {
    collapses_highest: bool,
    max_bins: usize,
    first: i64,
    counts: Vec<u64>,
    total: u64,
}

impl View for DenseStore {
    type V = StoreView;

    closed spec fn view(&self) -> StoreView {
        StoreView {
            collapses_highest: self.collapses_highest,
            limit: self.max_bins as nat,
            first: if self.counts@.len() == 0 {
                0
            } else {
                self.first as int
            },
            bins: self.counts@,
        }
    }
}

impl DenseStore {
    /// The invariant of the store: that of what it holds.
    pub closed spec fn wf(&self) -> bool {
        &&& self@.wf()
        &&& self.total == sum(self.counts@)
    }

    /// What a valid store holds is valid, and its limit is a length that a
    /// vector can have.
    pub proof fn lemma_wf(&self)
        requires
            self.wf(),
        ensures
            self@.wf(),
            self@.limit <= usize::MAX,
    {
    }

    /// A store that never collapses: its limit is the largest number of bins
    /// that a vector can hold.
    pub fn unbounded() -> (r: DenseStore)
        ensures
            r.wf(),
            r@ == (StoreView {
                collapses_highest: false,
                limit: usize::MAX as nat,
                first: 0,
                bins: Seq::<u64>::empty(),
            }),
    {
        DenseStore {
            collapses_highest: false,
            max_bins: usize::MAX,
            first: 0,
            counts: Vec::new(),
            total: 0,
        }
    }

    /// A store of at most `max_bins` bins that collapses its lowest bins; the
    /// limit must be at least one.
    pub fn collapsing_lowest(max_bins: usize) -> (r: Result<DenseStore, Error>)
        ensures
            max_bins == 0 ==> r is Err,
            max_bins > 0 ==> r is Ok && r->Ok_0.wf() && r->Ok_0@ == (StoreView {
                collapses_highest: false,
                limit: max_bins as nat,
                first: 0,
                bins: Seq::<u64>::empty(),
            }),
    {
        if max_bins == 0 {
            return Err(Error::InvalidArgument("The maximum number of bins must be positive."));
        }
        Ok(DenseStore { collapses_highest: false, max_bins, first: 0, counts: Vec::new(), total: 0 })
    }

    /// A store of at most `max_bins` bins that collapses its highest bins; the
    /// limit must be at least one.
    pub fn collapsing_highest(max_bins: usize) -> (r: Result<DenseStore, Error>)
        ensures
            max_bins == 0 ==> r is Err,
            max_bins > 0 ==> r is Ok && r->Ok_0.wf() && r->Ok_0@ == (StoreView {
                collapses_highest: true,
                limit: max_bins as nat,
                first: 0,
                bins: Seq::<u64>::empty(),
            }),
    {
        if max_bins == 0 {
            return Err(Error::InvalidArgument("The maximum number of bins must be positive."));
        }
        Ok(DenseStore { collapses_highest: true, max_bins, first: 0, counts: Vec::new(), total: 0 })
    }

    /// Whether the store holds no count.
    pub fn is_empty(&self) -> (r: bool)
        requires
            self.wf(),
        ensures
            r == self@.is_empty(),
            r == (self@.total() == 0),
    {
        proof {
            if self.counts@.len() > 0 {
                lemma_sum_bounds(self.counts@, 0);
            }
        }
        self.counts.len() == 0
    }

    /// The count of all bins together.
    pub fn get_total_count(&self) -> (r: u64)
        requires
            self.wf(),
        ensures
            r == self@.total(),
            r <= MAX_COUNT,
    {
        self.total
    }

    /// The count at a bucket index: zero where the store has no bin.
    pub fn get_count(&self, index: i32) -> (r: u64)
        requires
            self.wf(),
        ensures
            r == self@.count_at(index as int),
            r <= MAX_COUNT,
    {
        proof {
            lemma_mass_bounds(self@, self@.key(index as int));
        }
        let len = self.counts.len();
        if len == 0 {
            return 0;
        }
        let k: i64 = if self.collapses_highest {
            -(index as i64)
        } else {
            index as i64
        };
        if k < self.first || k - self.first >= len as i64 {
            0
        } else {
            self.counts[(k - self.first) as usize]
        }
    }

    /// The smallest bucket index with a count, or the largest 32-bit number
    /// where the store is empty.
    pub fn get_min_index(&self) -> (r: i32)
        requires
            self.wf(),
        ensures
            !self@.is_empty() ==> r == self@.min_index(),
            self@.is_empty() ==> r == i32::MAX,
    {
        let len = self.counts.len();
        if len == 0 {
            i32::MAX
        } else if self.collapses_highest {
            (-(self.first + (len as i64 - 1))) as i32
        } else {
            self.first as i32
        }
    }

    /// The largest bucket index with a count, or the smallest 32-bit number
    /// where the store is empty.
    pub fn get_max_index(&self) -> (r: i32)
        requires
            self.wf(),
        ensures
            !self@.is_empty() ==> r == self@.max_index(),
            self@.is_empty() ==> r == i32::MIN,
    {
        let len = self.counts.len();
        if len == 0 {
            i32::MIN
        } else if self.collapses_highest {
            (-self.first) as i32
        } else {
            (self.first + (len as i64 - 1)) as i32
        }
    }

    /// Empties the store; its limit and the end at which it collapses stay.
    pub fn clear(&mut self)
        requires
            old(self).wf(),
        ensures
            final(self).wf(),
            final(self)@ == (StoreView { first: 0, bins: Seq::<u64>::empty(), ..old(self)@ }),
    {
        self.counts = Vec::new();
        self.first = 0;
        self.total = 0;
    }

    fn key_of(&self, index: i32) -> (k: i64)
        ensures
            k == self@.key(index as int),
    {
        if self.collapses_highest {
            -(index as i64)
        } else {
            index as i64
        }
    }

    /// The keys of the first and of the last bin once a count has been added
    /// at key `k`.
    fn window_after(&self, k: i64) -> (r: (i64, i64))
        requires
            self.wf(),
            !self@.is_empty(),
            -0x8000_0000 <= k <= 0x8000_0000,
        ensures
            r.0 == self@.floor_after(k as int),
            r.1 == self@.top_after(k as int),
            -0x8000_0000 <= r.0 <= r.1 <= 0x8000_0000,
            r.1 - r.0 + 1 <= self@.limit,
    {
        let len = self.counts.len();
        let first = self.first;
        let last: i64 = first + (len as i64 - 1);
        let top: i64 = if k > last {
            k
        } else {
            last
        };
        let lo: i64 = if k < first {
            k
        } else {
            first
        };
        let span: u64 = (top - lo + 1) as u64;
        let floor: i64 = if span > self.max_bins as u64 {
            top - (self.max_bins as i64) + 1
        } else {
            lo
        };
        (floor, top)
    }

    /// The count of all bins with a key at or below `floor`.
    fn mass_through(&self, floor: i64) -> (head: u64)
        requires
            self.wf(),
            !self@.is_empty(),
            -0x8000_0000 <= floor <= 0x8000_0000,
        ensures
            head == self@.mass_below(floor + 1),
    {
        let len = self.counts.len();
        let first = self.first;
        let head_slots: usize = if floor < first {
            0
        } else if floor - first + 1 >= len as i64 {
            len
        } else {
            (floor - first + 1) as usize
        };
        let mut head: u64 = 0;
        let mut s: usize = 0;
        assert(self.counts@.take(0) =~= Seq::<u64>::empty());
        while s < head_slots
            invariant
                s <= head_slots <= self.counts@.len(),
                head == sum(self.counts@.take(s as int)),
                sum(self.counts@) <= MAX_COUNT,
            decreases head_slots - s,
        {
            proof {
                lemma_sum_take_step(self.counts@, s as int);
                lemma_sum_bounds(self.counts@, s as int + 1);
            }
            head = head + self.counts[s];
            s = s + 1;
        }
        proof {
            assert(self.counts@.take(len as int) =~= self.counts@);
        }
        head
    }

    /// The count at key `key` once `count` has been added at key `k`, for a
    /// key above the new first bin's.
    fn count_above_floor(&self, k: i64, count: u64, key: i64) -> (held: u64)
        requires
            self.wf(),
            !self@.is_empty(),
            self@.total() + count <= MAX_COUNT,
            -0x8000_0000 <= key <= 0x8000_0000,
            key > self@.floor_after(k as int),
        ensures
            held == self@.key_count_after(k as int, count, key as int),
    {
        let len = self.counts.len();
        let first = self.first;
        let mut held: u64 = if key >= first && key - first < len as i64 {
            self.counts[(key - first) as usize]
        } else {
            0
        };
        proof {
            lemma_mass_bounds(self@, key as int);
        }
        if key == k {
            held = held + count;
        }
        held
    }

    /// The bins once `count` has been added at key `k`, where the first or the
    /// last bin moves.
    fn bins_after(&self, index: i32, count: u64) -> (fresh: Vec<u64>)
        requires
            self.wf(),
            !self@.is_empty(),
            count > 0,
            self@.total() + count <= MAX_COUNT,
        ensures
            fresh@ == self@.add(index as int, count).bins,
    {
        let k = self.key_of(index);
        let (floor, top) = self.window_after(k);
        let mut head: u64 = self.mass_through(floor);
        proof {
            lemma_mass_bounds(self@, floor + 1);
        }
        if k <= floor {
            head = head + count;
        }
        let new_len: u64 = (top - floor + 1) as u64;
        let mut fresh: Vec<u64> = Vec::new();
        fresh.push(head);
        let mut j: u64 = 1;
        while j < new_len
            invariant
                1 <= j <= new_len,
                new_len == top - floor + 1,
                fresh@.len() == j,
                self.wf(),
                !self@.is_empty(),
                self@.total() + count <= MAX_COUNT,
                floor == self@.floor_after(k as int),
                -0x8000_0000 <= floor <= top <= 0x8000_0000,
                forall|t: int|
                    0 <= t < j ==> fresh@[t] == self@.key_count_after(
                        k as int,
                        count,
                        floor + t,
                    ) as u64,
            decreases new_len - j,
        {
            let held = self.count_above_floor(k, count, floor + j as i64);
            fresh.push(held);
            j = j + 1;
        }
        assert(fresh@ =~= self@.add(index as int, count).bins);
        fresh
    }

    /// Adds `count` at key `k` where neither the first nor the last bin moves.
    fn add_in_place(&mut self, index: i32, count: u64)
        requires
            old(self).wf(),
            !old(self)@.is_empty(),
            count > 0,
            old(self)@.total() + count <= MAX_COUNT,
            old(self)@.floor_after(old(self)@.key(index as int)) == old(self)@.first,
            old(self)@.top_after(old(self)@.key(index as int)) == old(self)@.last(),
        ensures
            final(self)@ == old(self)@.add(index as int, count),
            final(self).total == old(self).total + count,
    {
        let ghost v = self@;
        let k = self.key_of(index);
        let slot: usize = if k < self.first {
            0
        } else {
            (k - self.first) as usize
        };
        let held = self.counts[slot];
        proof {
            lemma_sum_bounds(self.counts@, slot as int);
            lemma_sum_take_step(self.counts@, 0);
            assert(self.counts@.take(0) =~= Seq::<u64>::empty());
            assert(self.counts@.take(self.counts@.len() as int) =~= self.counts@);
        }
        self.counts.set(slot, held + count);
        self.total = self.total + count;
        proof {
            assert(self@.bins =~= v.add(index as int, count).bins);
        }
    }

    /// Adds `count` at bucket `index`. Adding nothing changes nothing. The
    /// total must stay a count.
    pub fn add(&mut self, index: i32, count: u64)
        requires
            old(self).wf(),
            old(self)@.total() + count <= MAX_COUNT,
        ensures
            final(self).wf(),
            final(self)@ == old(self)@.add(index as int, count),
            final(self)@.total() == old(self)@.total() + count,
    {
        if count == 0 {
            return ;
        }
        let ghost v = self@;
        proof {
            lemma_add(v, index as int, count);
        }
        let k = self.key_of(index);
        if self.counts.len() == 0 {
            self.counts.push(count);
            self.first = k;
            self.total = count;
            proof {
                assert(sum(Seq::<u64>::empty()) == 0);
                assert(v.mass_below(k + 1) == 0);
                assert(self@.bins =~= v.add(index as int, count).bins);
            }
            return ;
        }
        let (floor, top) = self.window_after(k);
        if floor == self.first && top - floor + 1 == self.counts.len() as i64 {
            self.add_in_place(index, count);
        } else {
            let fresh = self.bins_after(index, count);
            self.counts = fresh;
            self.first = floor;
            self.total = self.total + count;
        }
    }

    /// The bins with a count, in ascending order of bucket index.
    pub fn get_ascending_bins(&self) -> (r: Vec<(i32, u64)>)
        requires
            self.wf(),
        ensures
            pairs_view(r@) == self@.ascending_bins(),
    {
        let mut out: Vec<(i32, u64)> = Vec::new();
        if self.is_empty() {
            assert(pairs_view(out@) =~= self@.ascending_bins());
            return out;
        }
        let lo: i64 = self.get_min_index() as i64;
        let hi: i64 = self.get_max_index() as i64;
        let mut i: i64 = lo;
        assert(pairs_view(out@) =~= self@.bins_up(lo as int, lo as int));
        while i <= hi
            invariant
                self.wf(),
                i32::MIN <= lo <= i <= hi + 1 <= i32::MAX + 1,
                pairs_view(out@) == self@.bins_up(lo as int, i as int),
            decreases hi - i + 1,
        {
            let c = self.get_count(i as i32);
            if c > 0 {
                let ghost before = out@;
                out.push((i as i32, c));
                assert(pairs_view(out@) =~= pairs_view(before).push((i as int, c)));
            }
            i = i + 1;
        }
        out
    }

    /// The bins with a count, in descending order of bucket index.
    pub fn get_descending_bins(&self) -> (r: Vec<(i32, u64)>)
        requires
            self.wf(),
        ensures
            pairs_view(r@) == self@.descending_bins(),
    {
        let mut out: Vec<(i32, u64)> = Vec::new();
        if self.is_empty() {
            assert(pairs_view(out@) =~= self@.descending_bins());
            return out;
        }
        let lo: i64 = self.get_min_index() as i64;
        let hi: i64 = self.get_max_index() as i64;
        let mut i: i64 = hi;
        assert(pairs_view(out@) =~= self@.bins_down(hi + 1, hi + 1));
        while i >= lo
            invariant
                self.wf(),
                i32::MIN <= lo <= i + 1 <= hi + 1 <= i32::MAX + 1,
                pairs_view(out@) == self@.bins_down(i + 1, hi + 1),
            decreases i - lo + 1,
        {
            let c = self.get_count(i as i32);
            if c > 0 {
                let ghost before = out@;
                out.push((i as i32, c));
                assert(pairs_view(out@) =~= pairs_view(before).push((i as int, c)));
            }
            i = i - 1;
        }
        out
    }

    /// Adds every bin of `other`, from its highest bucket index down. The
    /// totals of the two stores together must be a count.
    pub fn merge_with(&mut self, other: &DenseStore)
        requires
            old(self).wf(),
            other.wf(),
            old(self)@.total() + other@.total() <= MAX_COUNT,
        ensures
            final(self).wf(),
            final(self)@ == old(self)@.add_all(other@.descending_bins()),
            final(self)@.total() == old(self)@.total() + other@.total(),
    {
        if other.is_empty() {
            return ;
        }
        let lo: i64 = other.get_min_index() as i64;
        let hi: i64 = other.get_max_index() as i64;
        let mut i: i64 = hi;
        proof {
            lemma_mass_ends(other@);
        }
        while i >= lo
            invariant
                self.wf(),
                other.wf(),
                !other@.is_empty(),
                lo == other@.min_index(),
                i32::MIN <= lo <= i + 1 <= hi + 1 <= i32::MAX + 1,
                self@ == old(self)@.add_all(other@.bins_down(i + 1, hi + 1)),
                self@.total() == old(self)@.total() + other@.mass_from(i + 1),
                old(self)@.total() + other@.total() <= MAX_COUNT,
            decreases i - lo + 1,
        {
            let c = other.get_count(i as i32);
            proof {
                lemma_mass_upto_step(other@, i as int);
                let rest = other@.bins_down(i + 1, hi + 1);
                if c > 0 {
                    assert(rest.push((i as int, c)).drop_last() =~= rest);
                }
            }
            self.add(i as i32, c);
            i = i - 1;
        }
        proof {
            lemma_mass_ends(other@);
        }
    }
}

} // verus!
