use vstd::prelude::*;
use crate::encoding::{
    count_raw,
    count_to_raw,
    decode_signed_var_long,
    decode_unsigned_var_long,
    decode_var_double,
    lemma_parse_len,
    raw_to_count,
    encode_signed_var_long,
    encode_unsigned_var_long,
    encode_var_double,
    lemma_count_round_trip,
    lemma_signed_var_round_trip,
    lemma_unsigned_var_round_trip,
    lemma_var_double_round_trip,
    parse_signed_var,
    parse_unsigned_var,
    parse_var_double,
    raw_count,
    signed_var_bytes,
    unsigned_var_bytes,
    var_double_bytes,
    MAX_COUNT,
};
use crate::error::Error;
use crate::flag::{marker_of, Flag, FlagType};
use crate::input::Input;
use crate::output::Output;
use crate::store::DenseStore;
use crate::store_model::{
    lemma_mass_bounds,
    lemma_pairs_total_concat,
    pairs_total,
    StoreView,
};

verus! {

/// How the bins of a store are laid out in its block of the byte format.
#[derive(PartialEq, Eq, Structural, Clone, Copy, Debug)]
pub enum BinEncodingMode {
    /// The number of bins, then for each bin the step from the bucket index
    /// before it (from zero for the first) and its count.
    IndexDeltasAndCounts,
    /// The bucket index of the first bin, the number of bins, then the counts
    /// of bins at bucket indices that follow one another.
    ContiguousCounts,
}

impl BinEncodingMode {
    /// The sub-flag that stands for the mode in the byte format.
    pub open spec fn code(self) -> u8 {
        match self {
            BinEncodingMode::IndexDeltasAndCounts => 1,
            BinEncodingMode::ContiguousCounts => 3,
        }
    }

    /// The mode with a given sub-flag, if there is one.
    pub open spec fn of_code(code: u8) -> Option<BinEncodingMode> {
        if code == 1 {
            Some(BinEncodingMode::IndexDeltasAndCounts)
        } else if code == 3 {
            Some(BinEncodingMode::ContiguousCounts)
        } else {
            None
        }
    }

    /// The mode that the sub-flag of a marker byte names; fails where it names
    /// none.
    pub fn of_flag(marker: u8) -> (r: Result<BinEncodingMode, Error>)
        ensures
            match BinEncodingMode::of_code(marker >> 2) {
                Some(mode) => r == Ok::<BinEncodingMode, Error>(mode),
                None => r is Err,
            },
    {
        let code: u8 = marker >> 2;
        if code == 1 {
            Ok(BinEncodingMode::IndexDeltasAndCounts)
        } else if code == 3 {
            Ok(BinEncodingMode::ContiguousCounts)
        } else {
            Err(Error::InvalidArgument("Unknown BinEncodingMode."))
        }
    }

    /// The flag that opens a store's block of class `flag_type` in this mode.
    pub fn to_flag(&self, flag_type: FlagType) -> (r: Flag)
        ensures
            r@ == marker_of(flag_type.code(), self.code()),
    {
        match self {
            BinEncodingMode::IndexDeltasAndCounts => Flag::with_type(flag_type, 1),
            BinEncodingMode::ContiguousCounts => Flag::with_type(flag_type, 3),
        }
    }
}

/// The bucket index at which the written bins of a store begin: its smallest,
/// and zero for an empty store.
pub open spec fn first_index(v: StoreView) -> int {
    if v.is_empty() {
        0
    } else {
        v.min_index()
    }
}

/// The bins of a store at the bucket indices from `lo` up to, not including,
/// `hi`, those without a count too: index and count.
pub open spec fn contiguous_pairs(v: StoreView, lo: int, hi: int) -> Seq<(int, u64)> {
    Seq::new((hi - lo) as nat, |t: int| (lo + t, v.count_at(lo + t) as u64))
}

/// The counts of the same bins as variable-length doubles.
pub open spec fn counts_bytes(v: StoreView, lo: int, hi: int) -> Seq<u8>
    decreases hi - lo,
{
    if hi <= lo {
        Seq::empty()
    } else {
        var_double_bytes(count_raw(v.count_at(lo) as u64)) + counts_bytes(v, lo + 1, hi)
    }
}

/// What follows the flag in the block of a store: the bucket index of its
/// first bin, the number of its bins, and their counts.
pub open spec fn store_payload_bytes(v: StoreView) -> Seq<u8> {
    signed_var_bytes(first_index(v) as i64) + unsigned_var_bytes(v.bins.len() as u64)
        + counts_bytes(v, first_index(v), first_index(v) + v.bins.len())
}

/// The block of a store in the byte format.
pub open spec fn store_block_bytes(v: StoreView, flag_type: FlagType) -> Seq<u8> {
    seq![marker_of(flag_type.code(), BinEncodingMode::ContiguousCounts.code())]
        + store_payload_bytes(v)
}

/// A result of parsing with `acc` put before its pairs and `used` added to the
/// bytes it took.
pub open spec fn after_prefix(
    acc: Seq<(int, u64)>,
    used: nat,
    rest: Option<(Seq<(int, u64)>, nat)>,
) -> Option<(Seq<(int, u64)>, nat)> {
    match rest {
        Some((pairs, n)) => Some((acc + pairs, used + n)),
        None => None,
    }
}

/// Reads `n` counts at the head of `s` for the bucket indices from `index` on.
/// Fails where `s` ends too early, a count is no whole number, or a bucket
/// index is no 32-bit number.
pub open spec fn parse_counts(s: Seq<u8>, n: nat, index: int) -> Option<(Seq<(int, u64)>, nat)>
    decreases n,
{
    if n == 0 {
        Some((Seq::empty(), 0nat))
    } else if index > i32::MAX {
        None
    } else {
        match parse_var_double(s) {
            Some((raw, m)) => match raw_count(raw) {
                Some(c) => after_prefix(
                    seq![(index, c)],
                    m,
                    parse_counts(s.skip(m as int), (n - 1) as nat, index + 1),
                ),
                None => None,
            },
            None => None,
        }
    }
}

/// Reads `n` pairs of a step and a count at the head of `s`, the steps taken
/// from bucket index `index`.
pub open spec fn parse_delta_pairs(s: Seq<u8>, n: nat, index: int) -> Option<
    (Seq<(int, u64)>, nat),
>
    decreases n,
{
    if n == 0 {
        Some((Seq::empty(), 0nat))
    } else {
        match parse_signed_var(s) {
            Some((delta, a)) => if !(i32::MIN <= index + delta <= i32::MAX) {
                None
            } else {
                match parse_var_double(s.skip(a as int)) {
                    Some((raw, m)) => match raw_count(raw) {
                        Some(c) => after_prefix(
                            seq![(index + delta, c)],
                            a + m,
                            parse_delta_pairs(
                                s.skip(a as int).skip(m as int),
                                (n - 1) as nat,
                                index + delta,
                            ),
                        ),
                        None => None,
                    },
                    None => None,
                }
            },
            None => None,
        }
    }
}

/// Reads what follows the flag in the block of a store, in the given mode: the
/// pairs of bucket index and count in the order of the block, and the bytes
/// they took.
pub open spec fn parse_store_payload(s: Seq<u8>, mode: BinEncodingMode) -> Option<
    (Seq<(int, u64)>, nat),
> {
    match mode {
        BinEncodingMode::ContiguousCounts => match parse_signed_var(s) {
            Some((first, a)) => if !(i32::MIN <= first <= i32::MAX) {
                None
            } else {
                match parse_unsigned_var(s.skip(a as int)) {
                    Some((n, b)) => after_prefix(
                        Seq::empty(),
                        a + b,
                        parse_counts(s.skip(a as int).skip(b as int), n as nat, first as int),
                    ),
                    None => None,
                }
            },
            None => None,
        },
        BinEncodingMode::IndexDeltasAndCounts => match parse_unsigned_var(s) {
            Some((n, a)) => after_prefix(
                Seq::empty(),
                a,
                parse_delta_pairs(s.skip(a as int), n as nat, 0),
            ),
            None => None,
        },
    }
}

/// Parsed bins took no more bytes than there were.
pub proof fn lemma_parse_pairs_len(s: Seq<u8>, n: nat, index: int)
    ensures
        parse_counts(s, n, index) matches Some((_, used)) ==> used <= s.len(),
        parse_delta_pairs(s, n, index) matches Some((_, used)) ==> used <= s.len(),
    decreases n,
{
    if n > 0 {
        lemma_parse_len(s);
        if parse_var_double(s) is Some {
            let m = parse_var_double(s)->Some_0.1;
            lemma_parse_pairs_len(s.skip(m as int), (n - 1) as nat, index + 1);
        }
        if parse_signed_var(s) is Some {
            let (delta, a) = parse_signed_var(s)->Some_0;
            lemma_parse_len(s.skip(a as int));
            if parse_var_double(s.skip(a as int)) is Some {
                let m = parse_var_double(s.skip(a as int))->Some_0.1;
                lemma_parse_pairs_len(
                    s.skip(a as int).skip(m as int),
                    (n - 1) as nat,
                    index + delta,
                );
            }
        }
    }
}

/// A parsed block of a store took no more bytes than there were.
pub proof fn lemma_parse_store_payload_len(s: Seq<u8>, mode: BinEncodingMode)
    ensures
        parse_store_payload(s, mode) matches Some((_, used)) ==> used <= s.len(),
{
    lemma_parse_len(s);
    match mode {
        BinEncodingMode::ContiguousCounts => {
            if parse_signed_var(s) is Some {
                let (first, a) = parse_signed_var(s)->Some_0;
                lemma_parse_len(s.skip(a as int));
                if parse_unsigned_var(s.skip(a as int)) is Some {
                    let (n, b) = parse_unsigned_var(s.skip(a as int))->Some_0;
                    lemma_parse_pairs_len(s.skip(a as int).skip(b as int), n as nat, first as int);
                }
            }
        },
        BinEncodingMode::IndexDeltasAndCounts => {
            if parse_unsigned_var(s) is Some {
                let (n, a) = parse_unsigned_var(s)->Some_0;
                lemma_parse_pairs_len(s.skip(a as int), n as nat, 0);
            }
        },
    }
}

/// What a store becomes when parsed pairs are added to it, and the bytes that
/// the pairs took; `None` where nothing was parsed or the total would be no
/// count any more.
pub open spec fn merged_pairs(v: StoreView, parsed: Option<(Seq<(int, u64)>, nat)>) -> Option<
    (StoreView, nat),
> {
    match parsed {
        Some((pairs, used)) => if v.total() + pairs_total(pairs) <= MAX_COUNT {
            Some((v.add_all(pairs), used))
        } else {
            None
        },
        None => None,
    }
}

/// Reading written counts gives the bins back, whatever follows them.
pub proof fn lemma_counts_round_trip(v: StoreView, lo: int, hi: int, tail: Seq<u8>)
    requires
        v.total() <= MAX_COUNT,
        lo <= hi <= i32::MAX + 1,
    ensures
        parse_counts(counts_bytes(v, lo, hi) + tail, (hi - lo) as nat, lo) == Some(
            (contiguous_pairs(v, lo, hi), counts_bytes(v, lo, hi).len()),
        ),
    decreases hi - lo,
{
    if lo < hi {
        let c = v.count_at(lo) as u64;
        lemma_mass_bounds(v, v.key(lo));
        let head = var_double_bytes(count_raw(c));
        let rest = counts_bytes(v, lo + 1, hi);
        assert((head + rest) + tail =~= head + (rest + tail));
        lemma_var_double_round_trip(count_raw(c), rest + tail);
        lemma_count_round_trip(c);
        assert((head + (rest + tail)).skip(head.len() as int) =~= rest + tail);
        lemma_counts_round_trip(v, lo + 1, hi, tail);
        assert(seq![(lo, c)] + contiguous_pairs(v, lo + 1, hi) =~= contiguous_pairs(v, lo, hi));
    } else {
        assert(contiguous_pairs(v, lo, hi) =~= Seq::<(int, u64)>::empty());
    }
}

/// Reading the written block of a store gives its bins back, whatever follows
/// the block.
pub proof fn lemma_store_payload_round_trip(v: StoreView, tail: Seq<u8>)
    requires
        v.wf(),
        v.limit <= usize::MAX,
    ensures
        parse_store_payload(store_payload_bytes(v) + tail, BinEncodingMode::ContiguousCounts)
            == Some(
            (
                contiguous_pairs(v, first_index(v), first_index(v) + v.bins.len()),
                store_payload_bytes(v).len(),
            ),
        ),
{
    let first = first_index(v);
    let n = v.bins.len();
    let a = signed_var_bytes(first as i64);
    let b = unsigned_var_bytes(n as u64);
    let c = counts_bytes(v, first, first + n);
    let s = store_payload_bytes(v) + tail;
    assert(s =~= a + (b + (c + tail)));
    lemma_signed_var_round_trip(first as i64, b + (c + tail));
    assert(s.skip(a.len() as int) =~= b + (c + tail));
    lemma_unsigned_var_round_trip(n as u64, c + tail);
    assert((b + (c + tail)).skip(b.len() as int) =~= c + tail);
    lemma_counts_round_trip(v, first, first + n, tail);
    assert(Seq::<(int, u64)>::empty() + contiguous_pairs(v, first, first + n)
        =~= contiguous_pairs(v, first, first + n));
}

impl DenseStore {
    /// Writes the block of the store, of class `flag_type`.
    pub fn encode(&self, output: &mut Output, flag_type: FlagType) -> (r: Result<(), Error>)
        requires
            self.wf(),
        ensures
            r is Ok,
            final(output)@ == old(output)@ + store_block_bytes(self@, flag_type),
    {
        let ghost before = output@;
        let flag = BinEncodingMode::ContiguousCounts.to_flag(flag_type);
        let _ = flag.encode(output);
        let empty = self.is_empty();
        let lo: i64 = if empty {
            0
        } else {
            self.get_min_index() as i64
        };
        let hi: i64 = if empty {
            0
        } else {
            self.get_max_index() as i64 + 1
        };
        let _ = encode_signed_var_long(output, lo);
        let _ = encode_unsigned_var_long(output, (hi - lo) as u64);
        let ghost target = before + store_block_bytes(self@, flag_type);
        assert(target =~= output@ + counts_bytes(self@, lo as int, hi as int));
        let mut i: i64 = lo;
        while i < hi
            invariant
                self.wf(),
                i32::MIN <= lo <= i <= hi <= i32::MAX + 1,
                target == output@ + counts_bytes(self@, i as int, hi as int),
            decreases hi - i,
        {
            let c = self.get_count(i as i32);
            proof {
                lemma_mass_bounds(self@, self@.key(i as int));
            }
            let ghost held = output@;
            let _ = encode_var_double(output, count_to_raw(c));
            assert(held + counts_bytes(self@, i as int, hi as int) =~= output@ + counts_bytes(
                self@,
                i + 1,
                hi as int,
            ));
            i = i + 1;
        }
        assert(target =~= output@);
        Ok(())
    }

    fn decode_counts(&mut self, input: &mut Input, n: u64, first: i64) -> (r: Result<(), Error>)
        requires
            old(self).wf(),
            old(input).wf(),
            i32::MIN <= first <= i32::MAX,
        ensures
            final(self).wf(),
            final(input).wf(),
            match merged_pairs(
                old(self)@,
                parse_counts(old(input).remaining(), n as nat, first as int),
            ) {
                Some((w, used)) => r is Ok && final(self)@ == w && final(input).remaining() == old(
                    input,
                ).remaining().skip(used as int),
                None => r is Err,
            },
    {
        let ghost v0 = self@;
        let ghost s0 = input.remaining();
        let ghost whole = parse_counts(s0, n as nat, first as int);
        let ghost mut acc: Seq<(int, u64)> = Seq::empty();
        let ghost mut used: nat = 0;
        let mut t: u64 = 0;
        let mut index: i64 = first;
        proof {
            assert(s0.skip(0) =~= s0);
            assert(acc + parse_counts(s0, n as nat, first as int)->Some_0.0 =~= parse_counts(
                s0,
                n as nat,
                first as int,
            )->Some_0.0);
        }
        while t < n
            invariant
                self.wf(),
                input.wf(),
                t <= n,
                index == first + t,
                i32::MIN <= first <= i32::MAX,
                index <= i32::MAX + 1,
                v0 == old(self)@,
                s0 == old(input).remaining(),
                whole == parse_counts(s0, n as nat, first as int),
                self@ == v0.add_all(acc),
                self@.total() == v0.total() + pairs_total(acc),
                used <= s0.len(),
                input.remaining() == s0.skip(used as int),
                whole == after_prefix(
                    acc,
                    used,
                    parse_counts(input.remaining(), (n - t) as nat, index as int),
                ),
            decreases n - t,
        {
            let ghost cur = input.remaining();
            if index > i32::MAX as i64 {
                return Err(Error::InvalidArgument("Bucket index out of range."));
            }
            proof {
                lemma_parse_len(cur);
            }
            let raw = match decode_var_double(input) {
                Ok(raw) => raw,
                Err(e) => {
                    return Err(e);
                },
            };
            let c = match raw_to_count(raw) {
                Some(c) => c,
                None => {
                    return Err(Error::InvalidArgument("A count must be a whole number."));
                },
            };
            let ghost m = parse_var_double(cur)->Some_0.1;
            let ghost next = parse_counts(cur.skip(m as int), (n - t - 1) as nat, index + 1);
            proof {
                assert(acc.push((index as int, c)).drop_last() =~= acc);
                assert(s0.skip(used as int).skip(m as int) =~= s0.skip((used + m) as int));
                if next is Some {
                    let rest = next->Some_0.0;
                    assert(acc.push((index as int, c)) + rest =~= acc + (seq![(index as int, c)]
                        + rest));
                    lemma_pairs_total_concat(acc.push((index as int, c)), rest);
                }
            }
            if c > MAX_COUNT - self.get_total_count() {
                return Err(Error::InvalidArgument("The total count is too large."));
            }
            self.add(index as i32, c);
            proof {
                acc = acc.push((index as int, c));
                used = used + m;
            }
            index = index + 1;
            t = t + 1;
        }
        proof {
            assert(acc + Seq::<(int, u64)>::empty() =~= acc);
            self.lemma_wf();
        }
        Ok(())
    }

    fn decode_delta_pairs(&mut self, input: &mut Input, n: u64) -> (r: Result<(), Error>)
        requires
            old(self).wf(),
            old(input).wf(),
        ensures
            final(self).wf(),
            final(input).wf(),
            match merged_pairs(
                old(self)@,
                parse_delta_pairs(old(input).remaining(), n as nat, 0),
            ) {
                Some((w, used)) => r is Ok && final(self)@ == w && final(input).remaining() == old(
                    input,
                ).remaining().skip(used as int),
                None => r is Err,
            },
    {
        let ghost v0 = self@;
        let ghost s0 = input.remaining();
        let ghost whole = parse_delta_pairs(s0, n as nat, 0);
        let ghost mut acc: Seq<(int, u64)> = Seq::empty();
        let ghost mut used: nat = 0;
        let mut t: u64 = 0;
        let mut index: i64 = 0;
        proof {
            assert(s0.skip(0) =~= s0);
            assert(acc + whole->Some_0.0 =~= whole->Some_0.0);
        }
        while t < n
            invariant
                self.wf(),
                input.wf(),
                t <= n,
                i32::MIN <= index <= i32::MAX,
                v0 == old(self)@,
                s0 == old(input).remaining(),
                whole == parse_delta_pairs(s0, n as nat, 0),
                self@ == v0.add_all(acc),
                self@.total() == v0.total() + pairs_total(acc),
                used <= s0.len(),
                input.remaining() == s0.skip(used as int),
                whole == after_prefix(
                    acc,
                    used,
                    parse_delta_pairs(input.remaining(), (n - t) as nat, index as int),
                ),
            decreases n - t,
        {
            let ghost cur = input.remaining();
            proof {
                lemma_parse_len(cur);
            }
            let delta = match decode_signed_var_long(input) {
                Ok(delta) => delta,
                Err(e) => {
                    return Err(e);
                },
            };
            if delta < i32::MIN as i64 - index || delta > i32::MAX as i64 - index {
                return Err(Error::InvalidArgument("Bucket index out of range."));
            }
            let ghost a = parse_signed_var(cur)->Some_0.1;
            proof {
                lemma_parse_len(cur.skip(a as int));
            }
            let raw = match decode_var_double(input) {
                Ok(raw) => raw,
                Err(e) => {
                    return Err(e);
                },
            };
            let c = match raw_to_count(raw) {
                Some(c) => c,
                None => {
                    return Err(Error::InvalidArgument("A count must be a whole number."));
                },
            };
            let to: i64 = index + delta;
            let ghost m = parse_var_double(cur.skip(a as int))->Some_0.1;
            let ghost next = parse_delta_pairs(
                cur.skip(a as int).skip(m as int),
                (n - t - 1) as nat,
                to as int,
            );
            proof {
                assert(acc.push((to as int, c)).drop_last() =~= acc);
                assert(s0.skip(used as int).skip(a as int).skip(m as int) =~= s0.skip(
                    (used + a + m) as int,
                ));
                if next is Some {
                    let rest = next->Some_0.0;
                    assert(acc.push((to as int, c)) + rest =~= acc + (seq![(to as int, c)] + rest));
                    lemma_pairs_total_concat(acc.push((to as int, c)), rest);
                }
            }
            if c > MAX_COUNT - self.get_total_count() {
                return Err(Error::InvalidArgument("The total count is too large."));
            }
            self.add(to as i32, c);
            proof {
                acc = acc.push((to as int, c));
                used = used + a + m;
            }
            index = to;
            t = t + 1;
        }
        proof {
            assert(acc + Seq::<(int, u64)>::empty() =~= acc);
            self.lemma_wf();
        }
        Ok(())
    }

    /// Reads what follows the flag in a store's block, in the given mode, and
    /// adds each bin to the store in the order of the block. Fails where the
    /// block ends too early, a bucket index is no 32-bit number, a count is no
    /// whole number, or the total would be no count any more; the store then
    /// holds the bins read before the failure.
    pub fn decode_and_merge_with(&mut self, input: &mut Input, mode: BinEncodingMode) -> (r:
        Result<(), Error>)
        requires
            old(self).wf(),
            old(input).wf(),
        ensures
            final(self).wf(),
            final(input).wf(),
            match merged_pairs(old(self)@, parse_store_payload(old(input).remaining(), mode)) {
                Some((w, used)) => r is Ok && final(self)@ == w && final(input).remaining() == old(
                    input,
                ).remaining().skip(used as int),
                None => r is Err,
            },
    {
        let ghost s0 = input.remaining();
        proof {
            lemma_parse_len(s0);
        }
        match mode {
            BinEncodingMode::ContiguousCounts => {
                let first = match decode_signed_var_long(input) {
                    Ok(first) => first,
                    Err(e) => {
                        return Err(e);
                    },
                };
                if first < i32::MIN as i64 || first > i32::MAX as i64 {
                    return Err(Error::InvalidArgument("Bucket index out of range."));
                }
                let ghost a = parse_signed_var(s0)->Some_0.1;
                proof {
                    lemma_parse_len(s0.skip(a as int));
                }
                let n = match decode_unsigned_var_long(input) {
                    Ok(n) => n,
                    Err(e) => {
                        return Err(e);
                    },
                };
                let ghost b = parse_unsigned_var(s0.skip(a as int))->Some_0.1;
                let ghost inner = parse_counts(input.remaining(), n as nat, first as int);
                proof {
                    lemma_parse_pairs_len(input.remaining(), n as nat, first as int);
                }
                let r = self.decode_counts(input, n, first);
                proof {
                    if inner is Some {
                        assert(Seq::<(int, u64)>::empty() + inner->Some_0.0 =~= inner->Some_0.0);
                        let used = inner->Some_0.1;
                        assert(s0.skip(a as int).skip(b as int).skip(used as int) =~= s0.skip(
                            (a + b + used) as int,
                        ));
                    }
                }
                r
            },
            BinEncodingMode::IndexDeltasAndCounts => {
                let n = match decode_unsigned_var_long(input) {
                    Ok(n) => n,
                    Err(e) => {
                        return Err(e);
                    },
                };
                let ghost a = parse_unsigned_var(s0)->Some_0.1;
                let ghost inner = parse_delta_pairs(input.remaining(), n as nat, 0);
                proof {
                    lemma_parse_pairs_len(input.remaining(), n as nat, 0);
                }
                let r = self.decode_delta_pairs(input, n);
                proof {
                    if inner is Some {
                        assert(Seq::<(int, u64)>::empty() + inner->Some_0.0 =~= inner->Some_0.0);
                        let used = inner->Some_0.1;
                        assert(s0.skip(a as int).skip(used as int) =~= s0.skip((a + used) as int));
                    }
                }
                r
            },
        }
    }
}

} // verus!
