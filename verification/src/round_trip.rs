use vstd::prelude::*;
use crate::encoding::{
    count_raw,
    lemma_count_round_trip,
    lemma_var_double_round_trip,
    var_double_bytes,
    MAX_COUNT,
};
use crate::flag::{lemma_marker_parts, marker_of, FlagType, ZERO_COUNT};
use crate::index_mapping::{lemma_le_round_trip, mapping_block_bytes, IndexMapping};
use crate::output::le_bytes;
use crate::sketch::{Bucket, SketchView};
use crate::sketch_codec::{
    apply_block,
    apply_blocks,
    fresh_decoding,
    sketch_bytes,
    sketch_of,
    zero_block_bytes,
    Decoding,
};
use crate::store_codec::{
    contiguous_pairs,
    first_index,
    lemma_store_payload_round_trip,
    store_block_bytes,
    store_payload_bytes,
    BinEncodingMode,
};
use crate::store_model::{
    lemma_add_all_counts,
    lemma_mass_bounds,
    lemma_mass_ends,
    lemma_mass_upto_step,
    pairs_count_at,
    pairs_total,
    pairs_within,
    StoreView,
};

verus! {

/// The store that is read from the written block of the store `v` into the
/// empty store `e`.
pub open spec fn reread(e: StoreView, v: StoreView) -> StoreView {
    e.add_all(contiguous_pairs(v, first_index(v), first_index(v) + v.bins.len()))
}

proof fn lemma_contiguous_pairs(v: StoreView, lo: int, hi: int)
    requires
        v.wf(),
        lo <= hi,
    ensures
        pairs_within(contiguous_pairs(v, lo, hi), lo, hi - 1),
        pairs_total(contiguous_pairs(v, lo, hi)) + v.mass_upto(lo - 1) == v.mass_upto(hi - 1),
        forall|j: int| #[trigger]
            pairs_count_at(contiguous_pairs(v, lo, hi), j) == if lo <= j < hi {
                v.count_at(j)
            } else {
                0
            },
    decreases hi - lo,
{
    let pairs = contiguous_pairs(v, lo, hi);
    if lo < hi {
        let init = contiguous_pairs(v, lo, hi - 1);
        lemma_contiguous_pairs(v, lo, hi - 1);
        lemma_mass_upto_step(v, hi - 1);
        lemma_mass_bounds(v, v.key(hi - 1));
        assert(pairs.drop_last() =~= init);
        assert(pairs.last() == (hi - 1, v.count_at(hi - 1) as u64));
        assert forall|j: int| #[trigger]
            pairs_count_at(pairs, j) == if lo <= j < hi {
                v.count_at(j)
            } else {
                0
            } by {
            assert(pairs_count_at(init, j) == if lo <= j < hi - 1 {
                v.count_at(j)
            } else {
                0
            });
        }
    } else {
        assert forall|j: int| #[trigger] pairs_count_at(pairs, j) == 0 by {}
    }
}

/// A store that is read back into an empty store with room for its bins holds
/// the same count in every bucket.
pub proof fn lemma_reread(e: StoreView, v: StoreView)
    requires
        e.wf(),
        e.is_empty(),
        v.wf(),
        v.bins.len() <= e.limit,
    ensures
        reread(e, v).wf(),
        reread(e, v).total() == v.total(),
        e.total() + pairs_total(
            contiguous_pairs(v, first_index(v), first_index(v) + v.bins.len()),
        ) <= MAX_COUNT,
        forall|j: int| #[trigger] reread(e, v).count_at(j) == v.count_at(j),
{
    let lo = first_index(v);
    let hi = lo + v.bins.len();
    let pairs = contiguous_pairs(v, lo, hi);
    assert(e.bins =~= Seq::<u64>::empty());
    if v.is_empty() {
        assert(pairs =~= Seq::<(int, u64)>::empty());
        assert(v.bins =~= Seq::<u64>::empty());
    } else {
        lemma_contiguous_pairs(v, lo, hi);
        lemma_mass_ends(v);
        lemma_add_all_counts(e, pairs, lo, hi - 1);
        assert forall|j: int| #[trigger] reread(e, v).count_at(j) == v.count_at(j) by {
            assert(pairs_count_at(pairs, j) == if lo <= j < hi {
                v.count_at(j)
            } else {
                0
            });
        }
    }
}

proof fn lemma_apply_store_block(st: Decoding, v: StoreView, positive: bool, tail: Seq<u8>)
    requires
        v.wf(),
        v.limit <= usize::MAX,
        st.positive.wf(),
        st.negative.wf(),
        positive ==> st.positive.is_empty() && v.bins.len() <= st.positive.limit,
        !positive ==> st.negative.is_empty() && v.bins.len() <= st.negative.limit,
    ensures
        positive ==> apply_blocks(st, store_block_bytes(v, FlagType::PositiveStore) + tail)
            == apply_blocks(Decoding { positive: reread(st.positive, v), ..st }, tail),
        !positive ==> apply_blocks(st, store_block_bytes(v, FlagType::NegativeStore) + tail)
            == apply_blocks(Decoding { negative: reread(st.negative, v), ..st }, tail),
{
    let flag_type = if positive {
        FlagType::PositiveStore
    } else {
        FlagType::NegativeStore
    };
    let payload = store_payload_bytes(v);
    let s = store_block_bytes(v, flag_type) + tail;
    let flag = marker_of(flag_type.code(), BinEncodingMode::ContiguousCounts.code());
    lemma_marker_parts(flag_type.code(), 3);
    assert(s[0] == flag);
    assert(s.skip(1) =~= payload + tail);
    lemma_store_payload_round_trip(v, tail);
    if positive {
        lemma_reread(st.positive, v);
    } else {
        lemma_reread(st.negative, v);
    }
    assert(s.skip(payload.len() as int + 1) =~= tail);
    assert(apply_block(st, s) is Some);
}

proof fn lemma_apply_zero_block(st: Decoding, zero: u64, tail: Seq<u8>)
    requires
        zero <= MAX_COUNT,
        st.zero_count == 0,
    ensures
        apply_blocks(st, zero_block_bytes(zero) + tail) == apply_blocks(
            Decoding { zero_count: zero, ..st },
            tail,
        ),
{
    let s = zero_block_bytes(zero) + tail;
    if zero == 0 {
        assert(s =~= tail);
    } else {
        let body = var_double_bytes(count_raw(zero));
        assert(s[0] == ZERO_COUNT);
        assert(ZERO_COUNT & 3 == 0) by (bit_vector);
        assert(s.skip(1) =~= body + tail);
        lemma_var_double_round_trip(count_raw(zero), tail);
        lemma_count_round_trip(zero);
        assert(s.skip(body.len() as int + 1) =~= tail);
        assert(apply_block(st, s) is Some);
    }
}

proof fn lemma_apply_mapping_block(st: Decoding, m: IndexMapping, tail: Seq<u8>)
    requires
        m.wf(),
        !st.fixed,
    ensures
        apply_blocks(st, mapping_block_bytes(m) + tail) == apply_blocks(
            Decoding { mapping: Some(m), ..st },
            tail,
        ),
{
    let s = mapping_block_bytes(m) + tail;
    let rest = le_bytes(m.index_offset) + tail;
    lemma_marker_parts(FlagType::IndexMapping.code(), m.layout.code());
    assert(s[0] == marker_of(FlagType::IndexMapping.code(), m.layout.code()));
    let body = s.skip(1);
    assert(body =~= le_bytes(m.gamma) + rest);
    lemma_le_round_trip(m.gamma, rest);
    lemma_le_round_trip(m.index_offset, tail);
    assert(forall|k: int| 0 <= k < 8 ==> body[8 + k] == rest[k]);
    assert(s.skip(17) =~= tail);
    assert(apply_block(st, s) is Some);
}

/// Encode/decode round-trip: the bytes of a sketch read back as a sketch with
/// the same mapping, the same count around zero, the same count in all, and
/// the same count in every bucket.
pub proof fn lemma_round_trip(v: SketchView, x: Bucket)
    requires
        v.wf(),
        v.positive.limit <= usize::MAX,
        v.negative.limit <= usize::MAX,
    ensures
        apply_blocks(fresh_decoding(), sketch_bytes(v)) is Some,
        apply_blocks(fresh_decoding(), sketch_bytes(v))->Some_0.mapping == Some(v.mapping),
        sketch_of(apply_blocks(fresh_decoding(), sketch_bytes(v))->Some_0).wf(),
        sketch_of(apply_blocks(fresh_decoding(), sketch_bytes(v))->Some_0).zero_count
            == v.zero_count,
        sketch_of(apply_blocks(fresh_decoding(), sketch_bytes(v))->Some_0).count() == v.count(),
        sketch_of(apply_blocks(fresh_decoding(), sketch_bytes(v))->Some_0).bucket_count(x)
            == v.bucket_count(x),
{
    let st0 = fresh_decoding();
    let zero = zero_block_bytes(v.zero_count);
    let pos = store_block_bytes(v.positive, FlagType::PositiveStore);
    let neg = store_block_bytes(v.negative, FlagType::NegativeStore);
    let empty = Seq::<u8>::empty();
    assert(sketch_bytes(v) =~= mapping_block_bytes(v.mapping) + (zero + (pos + (neg + empty))));
    lemma_apply_mapping_block(st0, v.mapping, zero + (pos + (neg + empty)));
    let st1 = Decoding { mapping: Some(v.mapping), ..st0 };
    lemma_apply_zero_block(st1, v.zero_count, pos + (neg + empty));
    let st2 = Decoding { zero_count: v.zero_count, ..st1 };
    assert(crate::store_model::sum(Seq::<u64>::empty()) == 0);
    lemma_apply_store_block(st2, v.positive, true, neg + empty);
    let st3 = Decoding { positive: reread(st2.positive, v.positive), ..st2 };
    lemma_reread(st2.positive, v.positive);
    lemma_apply_store_block(st3, v.negative, false, empty);
    let st4 = Decoding { negative: reread(st3.negative, v.negative), ..st3 };
    lemma_reread(st3.negative, v.negative);
    assert(apply_blocks(st4, empty) == Some(st4));
    match x {
        Bucket::Negative(i) => {
            assert(st4.negative.count_at(i as int) == v.negative.count_at(i as int));
        },
        Bucket::Zero => {},
        Bucket::Positive(i) => {
            assert(st4.positive.count_at(i as int) == v.positive.count_at(i as int));
        },
    }
}

} // verus!
