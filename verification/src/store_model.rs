use vstd::prelude::*;
use crate::encoding::MAX_COUNT;

verus! {

/// The sum of a sequence of counts.
pub open spec fn sum(s: Seq<u64>) -> nat
    decreases s.len(),
{
    if s.len() == 0 {
        0
    } else {
        sum(s.drop_last()) + s.last() as nat
    }
}

/// The sum of the first `n + 1` counts is the sum of the first `n` and the next.
pub proof fn lemma_sum_take_step(s: Seq<u64>, n: int)
    requires
        0 <= n < s.len(),
    ensures
        sum(s.take(n + 1)) == sum(s.take(n)) + s[n],
{
    assert(s.take(n + 1).drop_last() =~= s.take(n));
}

/// No part of a sequence of counts outweighs the whole.
pub proof fn lemma_sum_bounds(s: Seq<u64>, n: int)
    requires
        0 <= n <= s.len(),
    ensures
        sum(s.take(n)) <= sum(s),
        n < s.len() ==> s[n] <= sum(s),
    decreases s.len() - n,
{
    if n == s.len() {
        assert(s.take(n) =~= s);
    } else {
        lemma_sum_take_step(s, n);
        lemma_sum_bounds(s, n + 1);
    }
}

/// What a dense store holds. Bins are ordered by key: the bucket index itself,
/// or its negative in a store that collapses its highest bins, so that a store
/// always collapses at its lowest keys. `bins` are the counts at the keys from
/// `first` on; a store that is not empty begins and ends with a count above
/// zero.
pub struct StoreView {
    pub collapses_highest: bool,
    pub limit: nat,
    pub first: int,
    pub bins: Seq<u64>,
}

impl StoreView {
    /// The key of a bucket index; also the bucket index of a key.
    pub open spec fn key(self, index: int) -> int {
        if self.collapses_highest {
            -index
        } else {
            index
        }
    }

    pub open spec fn is_empty(self) -> bool {
        self.bins.len() == 0
    }

    /// The key of the last bin.
    pub open spec fn last(self) -> int {
        self.first + self.bins.len() - 1
    }

    /// The count at a key: zero outside the bins.
    pub open spec fn key_count(self, k: int) -> nat {
        if self.first <= k <= self.last() {
            self.bins[k - self.first] as nat
        } else {
            0
        }
    }

    /// The count at a bucket index.
    pub open spec fn count_at(self, index: int) -> nat {
        self.key_count(self.key(index))
    }

    /// The count of all bins together.
    pub open spec fn total(self) -> nat {
        sum(self.bins)
    }

    /// The count of all bins with a key below `k`.
    pub open spec fn mass_below(self, k: int) -> nat {
        if k <= self.first {
            0
        } else if k > self.last() {
            sum(self.bins)
        } else {
            sum(self.bins.take(k - self.first))
        }
    }

    /// The smallest bucket index with a count; meaningful where the store is
    /// not empty.
    pub open spec fn min_index(self) -> int {
        if self.collapses_highest {
            -self.last()
        } else {
            self.first
        }
    }

    /// The largest bucket index with a count; meaningful where the store is
    /// not empty.
    pub open spec fn max_index(self) -> int {
        if self.collapses_highest {
            -self.first
        } else {
            self.last()
        }
    }

    /// The invariant of a store: it holds at least one bin and no more than its
    /// limit, its first and last bins are not empty, their bucket indices are
    /// 32-bit numbers, and the total is a count.
    pub open spec fn wf(self) -> bool {
        &&& 1 <= self.limit
        &&& self.bins.len() <= self.limit
        &&& self.total() <= MAX_COUNT
        &&& !self.is_empty() ==> {
            &&& self.bins[0] > 0
            &&& self.bins.last() > 0
            &&& i32::MIN <= self.min_index()
            &&& self.max_index() <= i32::MAX
        }
    }

    /// The key of the last bin once a count has been added at key `k`.
    pub open spec fn top_after(self, k: int) -> int {
        if self.is_empty() || k > self.last() {
            k
        } else {
            self.last()
        }
    }

    /// The key of the first bin once a count has been added at key `k`: the
    /// lowest key in use, or, where the limit does not reach that far down from
    /// the top, the lowest key that it reaches.
    pub open spec fn floor_after(self, k: int) -> int {
        let lo = if self.is_empty() || k < self.first {
            k
        } else {
            self.first
        };
        if self.top_after(k) - lo + 1 > self.limit {
            self.top_after(k) - self.limit + 1
        } else {
            lo
        }
    }

    /// The count at key `j` once `c` has been added at key `k`: the first bin
    /// takes everything at or below it, the bins above it keep their own.
    pub open spec fn key_count_after(self, k: int, c: u64, j: int) -> nat {
        let f = self.floor_after(k);
        if j < f {
            0
        } else if j == f {
            self.mass_below(f + 1) + if k <= f {
                c as nat
            } else {
                0
            }
        } else {
            self.key_count(j) + if j == k {
                c as nat
            } else {
                0
            }
        }
    }

    /// The count of all bins with a bucket index at or below `index`.
    pub open spec fn mass_upto(self, index: int) -> nat {
        if self.collapses_highest {
            (self.total() - self.mass_below(-index)) as nat
        } else {
            self.mass_below(index + 1)
        }
    }

    /// The count of all bins with a bucket index at or above `index`.
    pub open spec fn mass_from(self, index: int) -> nat {
        (self.total() - self.mass_upto(index - 1)) as nat
    }

    /// The bins with a count among the bucket indices from `lo` up to, not
    /// including, `hi`: index and count, in ascending order.
    pub open spec fn bins_up(self, lo: int, hi: int) -> Seq<(int, u64)>
        decreases hi - lo,
    {
        if hi <= lo {
            Seq::empty()
        } else if self.count_at(hi - 1) > 0 {
            self.bins_up(lo, hi - 1).push((hi - 1, self.count_at(hi - 1) as u64))
        } else {
            self.bins_up(lo, hi - 1)
        }
    }

    /// The same bins in descending order.
    pub open spec fn bins_down(self, lo: int, hi: int) -> Seq<(int, u64)>
        decreases hi - lo,
    {
        if hi <= lo {
            Seq::empty()
        } else if self.count_at(lo) > 0 {
            self.bins_down(lo + 1, hi).push((lo, self.count_at(lo) as u64))
        } else {
            self.bins_down(lo + 1, hi)
        }
    }

    /// All bins with a count, in ascending order of bucket index.
    pub open spec fn ascending_bins(self) -> Seq<(int, u64)> {
        if self.is_empty() {
            Seq::empty()
        } else {
            self.bins_up(self.min_index(), self.max_index() + 1)
        }
    }

    /// All bins with a count, in descending order of bucket index.
    pub open spec fn descending_bins(self) -> Seq<(int, u64)> {
        if self.is_empty() {
            Seq::empty()
        } else {
            self.bins_down(self.min_index(), self.max_index() + 1)
        }
    }

    /// The store once each of `pairs`, a bucket index and a count, has been
    /// added in turn.
    pub open spec fn add_all(self, pairs: Seq<(int, u64)>) -> StoreView
        decreases pairs.len(),
    {
        if pairs.len() == 0 {
            self
        } else {
            self.add_all(pairs.drop_last()).add(pairs.last().0, pairs.last().1)
        }
    }

    /// Whether adding a count at bucket `index` makes no bin collapse.
    pub open spec fn has_room_for(self, index: int) -> bool {
        self.is_empty() || self.floor_after(self.key(index)) == if self.key(index) < self.first {
            self.key(index)
        } else {
            self.first
        }
    }

    /// The store once `c` has been added at bucket `index`. Adding nothing
    /// changes nothing.
    pub open spec fn add(self, index: int, c: u64) -> StoreView {
        if c == 0 {
            self
        } else {
            let k = self.key(index);
            let f = self.floor_after(k);
            StoreView {
                first: f,
                bins: Seq::new(
                    (self.top_after(k) - f + 1) as nat,
                    |j: int| self.key_count_after(k, c, f + j) as u64,
                ),
                ..self
            }
        }
    }
}

/// The count below a key grows by the count at that key when the key moves up
/// by one.
pub proof fn lemma_mass_step(v: StoreView, k: int)
    ensures
        v.mass_below(k + 1) == v.mass_below(k) + v.key_count(k),
{
    if v.first <= k <= v.last() {
        lemma_sum_take_step(v.bins, k - v.first);
        assert(v.bins.take(v.bins.len() as int) =~= v.bins);
        assert(v.bins.take(0) =~= Seq::<u64>::empty());
    }
}

/// No bin and no run of bins outweighs the store.
pub proof fn lemma_mass_bounds(v: StoreView, k: int)
    ensures
        v.mass_below(k) <= v.total(),
        v.key_count(k) <= v.total(),
{
    if v.first <= k <= v.last() {
        lemma_sum_bounds(v.bins, k - v.first);
    }
}

proof fn lemma_add_prefix(v: StoreView, index: int, c: u64, n: int)
    requires
        v.wf(),
        c > 0,
        v.total() + c <= MAX_COUNT,
        1 <= n <= v.add(index, c).bins.len(),
    ensures
        sum(v.add(index, c).bins.take(n)) == v.mass_below(v.floor_after(v.key(index)) + n) + (if v.key(
            index,
        ) < v.floor_after(v.key(index)) + n {
            c as nat
        } else {
            0
        }),
    decreases n,
{
    let k = v.key(index);
    let f = v.floor_after(k);
    let w = v.add(index, c);
    lemma_sum_take_step(w.bins, n - 1);
    lemma_mass_bounds(v, f + n);
    lemma_mass_bounds(v, f + n - 1);
    lemma_mass_step(v, f + n - 1);
    if n == 1 {
        assert(w.bins.take(0) =~= Seq::<u64>::empty());
    } else {
        lemma_add_prefix(v, index, c, n - 1);
    }
}

/// Adding a count keeps the invariant and raises the total by that count.
pub proof fn lemma_add(v: StoreView, index: int, c: u64)
    requires
        v.wf(),
        i32::MIN <= index <= i32::MAX,
        v.total() + c <= MAX_COUNT,
    ensures
        v.add(index, c).wf(),
        v.add(index, c).total() == v.total() + c,
        v.add(index, c).limit == v.limit,
        v.add(index, c).collapses_highest == v.collapses_highest,
        c > 0 ==> !v.add(index, c).is_empty(),
{
    if c > 0 {
        let k = v.key(index);
        let f = v.floor_after(k);
        let t = v.top_after(k);
        let w = v.add(index, c);
        let n = w.bins.len() as int;
        assert(n == t - f + 1);
        lemma_add_prefix(v, index, c, n);
        assert(w.bins.take(n) =~= w.bins);
        assert(v.mass_below(t + 1) == v.total());
        lemma_mass_bounds(v, f + 1);
        lemma_mass_bounds(v, t);
        lemma_mass_step(v, f);
        if !v.is_empty() {
            lemma_sum_take_step(v.bins, 0);
            assert(v.bins.take(0) =~= Seq::<u64>::empty());
            lemma_sum_bounds(v.bins, 1);
            if f >= v.first {
                lemma_mass_mono(v, v.first + 1, f + 1);
            }
        }
        assert(w.bins[0] == v.key_count_after(k, c, f) as u64);
        assert(w.bins[n - 1] == v.key_count_after(k, c, t) as u64);
    }
}

/// The count below a key does not fall when the key rises.
pub proof fn lemma_mass_mono(v: StoreView, a: int, b: int)
    requires
        a <= b,
    ensures
        v.mass_below(a) <= v.mass_below(b),
    decreases b - a,
{
    if a < b {
        lemma_mass_step(v, b - 1);
        lemma_mass_mono(v, a, b - 1);
    }
}

/// The counts of a sequence of pairs of a bucket index and a count, together.
pub open spec fn pairs_total(pairs: Seq<(int, u64)>) -> nat
    decreases pairs.len(),
{
    if pairs.len() == 0 {
        0
    } else {
        pairs_total(pairs.drop_last()) + pairs.last().1 as nat
    }
}

/// Whether every bucket index in `pairs` is a 32-bit number.
pub open spec fn pairs_in_range(pairs: Seq<(int, u64)>) -> bool {
    forall|t: int| 0 <= t < pairs.len() ==> i32::MIN <= (#[trigger] pairs[t]).0 <= i32::MAX
}

/// Adding pairs in turn keeps the invariant and raises the total by their
/// counts.
pub proof fn lemma_add_all(v: StoreView, pairs: Seq<(int, u64)>)
    requires
        v.wf(),
        pairs_in_range(pairs),
        v.total() + pairs_total(pairs) <= MAX_COUNT,
    ensures
        v.add_all(pairs).wf(),
        v.add_all(pairs).total() == v.total() + pairs_total(pairs),
        v.add_all(pairs).limit == v.limit,
        v.add_all(pairs).collapses_highest == v.collapses_highest,
    decreases pairs.len(),
{
    if pairs.len() > 0 {
        lemma_add_all(v, pairs.drop_last());
        lemma_add(v.add_all(pairs.drop_last()), pairs.last().0, pairs.last().1);
    }
}

/// The count up to a bucket index grows by the count at that index when the
/// index moves up by one; the count from an index on shrinks by it.
pub proof fn lemma_mass_upto_step(v: StoreView, index: int)
    ensures
        v.mass_upto(index) == v.mass_upto(index - 1) + v.count_at(index),
        v.mass_upto(index) <= v.total(),
        v.mass_from(index) == v.mass_from(index + 1) + v.count_at(index),
        v.mass_from(index) <= v.total(),
{
    if v.collapses_highest {
        lemma_mass_step(v, -index);
        lemma_mass_bounds(v, -index);
        lemma_mass_bounds(v, -index + 1);
    } else {
        lemma_mass_step(v, index);
        lemma_mass_bounds(v, index + 1);
        lemma_mass_bounds(v, index);
    }
}

/// All of a store lies at or below its largest bucket index, and at or above
/// its smallest.
pub proof fn lemma_mass_ends(v: StoreView)
    requires
        !v.is_empty(),
    ensures
        v.mass_upto(v.max_index()) == v.total(),
        v.mass_from(v.max_index() + 1) == 0,
        v.mass_upto(v.min_index() - 1) == 0,
        v.mass_from(v.min_index()) == v.total(),
{
}

/// Where no bin collapses, adding a count changes the count at its bucket
/// index and at no other.
pub proof fn lemma_add_count_at(v: StoreView, index: int, c: u64, j: int)
    requires
        v.wf(),
        v.total() + c <= MAX_COUNT,
        v.has_room_for(index),
    ensures
        v.add(index, c).count_at(j) == v.count_at(j) + if j == index {
            c as nat
        } else {
            0
        },
{
    if c > 0 {
        let k = v.key(index);
        let f = v.floor_after(k);
        let w = v.add(index, c);
        let kj = v.key(j);
        lemma_mass_bounds(v, f + 1);
        lemma_mass_bounds(v, kj);
        lemma_mass_step(v, f);
        if f <= kj <= v.top_after(k) {
            assert(w.bins[kj - f] == v.key_count_after(k, c, kj) as u64);
        }
    }
}

/// The counts of two runs of pairs together are the counts of the one and of
/// the other.
pub proof fn lemma_pairs_total_concat(a: Seq<(int, u64)>, b: Seq<(int, u64)>)
    ensures
        pairs_total(a + b) == pairs_total(a) + pairs_total(b),
    decreases b.len(),
{
    if b.len() == 0 {
        assert(a + b =~= a);
    } else {
        assert((a + b).drop_last() =~= a + b.drop_last());
        lemma_pairs_total_concat(a, b.drop_last());
    }
}

/// The invariants of a store: it is empty exactly when its total is zero; a
/// count lies only at bucket indices from its smallest to its largest, and at
/// both of these; these are no more bucket indices than its limit; and its
/// total is the count of all of them.
pub proof fn lemma_store_invariants(v: StoreView, j: int)
    requires
        v.wf(),
    ensures
        v.is_empty() <==> v.total() == 0,
        v.count_at(j) > 0 ==> !v.is_empty() && v.min_index() <= j <= v.max_index(),
        !v.is_empty() ==> v.count_at(v.min_index()) > 0 && v.count_at(v.max_index()) > 0,
        !v.is_empty() ==> v.max_index() - v.min_index() + 1 <= v.limit,
        !v.is_empty() ==> v.mass_upto(v.min_index() - 1) == 0 && v.mass_upto(v.max_index())
            == v.total(),
{
    if v.is_empty() {
        assert(v.bins =~= Seq::<u64>::empty());
    } else {
        lemma_sum_bounds(v.bins, 0);
        lemma_mass_ends(v);
    }
}

/// The counts that a run of pairs holds for bucket index `j`, together.
pub open spec fn pairs_count_at(pairs: Seq<(int, u64)>, j: int) -> nat
    decreases pairs.len(),
{
    if pairs.len() == 0 {
        0
    } else {
        pairs_count_at(pairs.drop_last(), j) + if pairs.last().0 == j {
            pairs.last().1 as nat
        } else {
            0
        }
    }
}

/// Whether the bins of `v` lie at bucket indices from `low` to `high`, a range
/// of 32-bit numbers that the limit of `v` spans.
pub open spec fn spans(v: StoreView, low: int, high: int) -> bool {
    &&& i32::MIN <= low <= high <= i32::MAX
    &&& high - low + 1 <= v.limit
    &&& !v.is_empty() ==> low <= v.min_index() && v.max_index() <= high
}

/// Whether every bucket index in `pairs` lies from `low` to `high`.
pub open spec fn pairs_within(pairs: Seq<(int, u64)>, low: int, high: int) -> bool {
    forall|t: int| 0 <= t < pairs.len() ==> low <= (#[trigger] pairs[t]).0 <= high
}

/// Where the limit of a store spans all bucket indices in play, adding pairs
/// collapses nothing: the count at each bucket index grows by the counts that
/// the pairs hold for it.
pub proof fn lemma_add_all_counts(v: StoreView, pairs: Seq<(int, u64)>, low: int, high: int)
    requires
        v.wf(),
        spans(v, low, high),
        pairs_within(pairs, low, high),
        v.total() + pairs_total(pairs) <= MAX_COUNT,
    ensures
        v.add_all(pairs).wf(),
        spans(v.add_all(pairs), low, high),
        v.add_all(pairs).total() == v.total() + pairs_total(pairs),
        forall|j: int| #[trigger]
            v.add_all(pairs).count_at(j) == v.count_at(j) + pairs_count_at(pairs, j),
    decreases pairs.len(),
{
    if pairs.len() > 0 {
        let init = pairs.drop_last();
        let (index, c) = pairs.last();
        lemma_add_all_counts(v, init, low, high);
        let w = v.add_all(init);
        lemma_add(w, index, c);
        assert(w.has_room_for(index));
        assert forall|j: int| #[trigger]
            v.add_all(pairs).count_at(j) == v.count_at(j) + pairs_count_at(pairs, j) by {
            lemma_add_count_at(w, index, c, j);
        }
    }
}

/// The bins of a store from the highest bucket index down hold, for each
/// bucket index in their range, the count of the store.
pub proof fn lemma_bins_down(v: StoreView, lo: int, hi: int)
    requires
        v.wf(),
        lo <= hi,
    ensures
        pairs_within(v.bins_down(lo, hi), lo, hi - 1),
        pairs_total(v.bins_down(lo, hi)) + v.mass_from(hi) == v.mass_from(lo),
        forall|j: int| #[trigger]
            pairs_count_at(v.bins_down(lo, hi), j) == if lo <= j < hi {
                v.count_at(j)
            } else {
                0
            },
    decreases hi - lo,
{
    if lo < hi {
        lemma_bins_down(v, lo + 1, hi);
        lemma_mass_upto_step(v, lo);
        lemma_mass_bounds(v, v.key(lo));
        let rest = v.bins_down(lo + 1, hi);
        if v.count_at(lo) > 0 {
            assert(rest.push((lo, v.count_at(lo) as u64)).drop_last() =~= rest);
        }
        assert forall|j: int| #[trigger]
            pairs_count_at(v.bins_down(lo, hi), j) == if lo <= j < hi {
                v.count_at(j)
            } else {
                0
            } by {
            assert(pairs_count_at(rest, j) == if lo + 1 <= j < hi {
                v.count_at(j)
            } else {
                0
            });
        }
    } else {
        assert forall|j: int| #[trigger] pairs_count_at(v.bins_down(lo, hi), j) == 0 by {}
    }
}

/// Where the limit of a store spans all 32-bit bucket indices, merging another
/// store into it adds the counts bucket by bucket.
pub proof fn lemma_merge_counts(v: StoreView, other: StoreView)
    requires
        v.wf(),
        other.wf(),
        v.limit >= 0x1_0000_0000,
        v.total() + other.total() <= MAX_COUNT,
    ensures
        v.add_all(other.descending_bins()).wf(),
        v.add_all(other.descending_bins()).total() == v.total() + other.total(),
        forall|j: int| #[trigger]
            v.add_all(other.descending_bins()).count_at(j) == v.count_at(j) + other.count_at(j),
{
    if !other.is_empty() {
        let lo = other.min_index();
        let hi = other.max_index() + 1;
        lemma_bins_down(other, lo, hi);
        lemma_mass_ends(other);
        lemma_add_all_counts(v, other.descending_bins(), i32::MIN as int, i32::MAX as int);
    }
}

} // verus!
