use vstd::prelude::*;
use crate::encoding::{
    count_raw,
    decode_var_double,
    lemma_parse_len,
    parse_var_double,
    raw_count,
    raw_to_count,
    var_double_bytes,
    MAX_COUNT,
};
use crate::error::Error;
use crate::flag::{Flag, FlagType, COUNT, MAX, MIN, SUM, ZERO_COUNT};
use crate::index_mapping::{
    mapping_block_bytes,
    parse_mapping_payload,
    IndexMapping,
    IndexMappingLayout,
};
use crate::input::Input;
use crate::sketch::{unbounded_view, SketchView};
use crate::store_codec::{
    lemma_parse_store_payload_len,
    merged_pairs,
    parse_store_payload,
    store_block_bytes,
    BinEncodingMode,
};
use crate::store_model::StoreView;

verus! {

/// What has been read of a stream of blocks so far. Where `fixed` is set, the
/// mapping is that of a sketch into which the stream is merged, and a mapping
/// in the stream must equal it; else the last mapping in the stream stands.
pub struct Decoding {
    pub fixed: bool,
    pub mapping: Option<IndexMapping>,
    pub zero_count: u64,
    pub positive: StoreView,
    pub negative: StoreView,
}

/// What has been read before the first block of a stream that is merged into
/// a sketch.
pub open spec fn decoding_of(v: SketchView) -> Decoding {
    Decoding {
        fixed: true,
        mapping: Some(v.mapping),
        zero_count: v.zero_count,
        positive: v.positive,
        negative: v.negative,
    }
}

/// What has been read before the first block of a stream that makes a sketch
/// of its own: no mapping, and stores that never collapse.
pub open spec fn fresh_decoding() -> Decoding {
    Decoding {
        fixed: false,
        mapping: None,
        zero_count: 0,
        positive: unbounded_view(),
        negative: unbounded_view(),
    }
}

/// The sketch that has been read, where a mapping has.
pub open spec fn sketch_of(st: Decoding) -> SketchView {
    SketchView {
        mapping: st.mapping->Some_0,
        negative: st.negative,
        positive: st.positive,
        zero_count: st.zero_count,
    }
}

/// The block of the count around zero: nothing where that count is zero.
pub open spec fn zero_block_bytes(zero: u64) -> Seq<u8> {
    if zero == 0 {
        Seq::empty()
    } else {
        seq![ZERO_COUNT] + var_double_bytes(count_raw(zero))
    }
}

/// The bytes of a sketch: the blocks of its mapping, of its count around zero,
/// of its positive store and of its negative store.
pub open spec fn sketch_bytes(v: SketchView) -> Seq<u8> {
    mapping_block_bytes(v.mapping) + zero_block_bytes(v.zero_count) + store_block_bytes(
        v.positive,
        FlagType::PositiveStore,
    ) + store_block_bytes(v.negative, FlagType::NegativeStore)
}

/// Reads what follows the flag `flag` of a store's block at the head of `s`
/// into the store `v`.
pub open spec fn apply_store_block(v: StoreView, s: Seq<u8>, flag: u8) -> Option<(StoreView, nat)> {
    match BinEncodingMode::of_code(flag >> 2) {
        Some(mode) => merged_pairs(v, parse_store_payload(s, mode)),
        None => None,
    }
}

/// Reads what follows the flag `flag` of a mapping's block at the head of `s`.
pub open spec fn parse_mapping_block(s: Seq<u8>, flag: u8) -> Option<(IndexMapping, nat)> {
    match IndexMappingLayout::of_code(flag >> 2) {
        Some(layout) => parse_mapping_payload(s, layout),
        None => None,
    }
}

/// Reads what follows the flag `flag` of a feature block at the head of `s`:
/// the count around zero after the block, from `zero` before it, and the bytes
/// that the block took. The count around zero is added; exact statistics are
/// passed over; any other feature is refused.
pub open spec fn parse_feature_block(s: Seq<u8>, flag: u8, zero: u64) -> Option<(u64, nat)> {
    if flag == ZERO_COUNT {
        match parse_var_double(s) {
            Some((raw, m)) => match raw_count(raw) {
                Some(c) => if zero + c <= MAX_COUNT {
                    Some(((zero + c) as u64, m))
                } else {
                    None
                },
                None => None,
            },
            None => None,
        }
    } else if flag == COUNT {
        match parse_var_double(s) {
            Some((_, m)) => Some((zero, m)),
            None => None,
        }
    } else if flag == SUM || flag == MIN || flag == MAX {
        if s.len() >= 8 {
            Some((zero, 8nat))
        } else {
            None
        }
    } else {
        None
    }
}

/// Reads the block at the head of `s`, which is not empty: what has been read
/// once the block is, and the bytes that the block took.
pub open spec fn apply_block(st: Decoding, s: Seq<u8>) -> Option<(Decoding, nat)> {
    let flag = s[0];
    let body = s.skip(1);
    if flag & 3 == 1 {
        match apply_store_block(st.positive, body, flag) {
            Some((w, used)) => Some((Decoding { positive: w, ..st }, used + 1)),
            None => None,
        }
    } else if flag & 3 == 3 {
        match apply_store_block(st.negative, body, flag) {
            Some((w, used)) => Some((Decoding { negative: w, ..st }, used + 1)),
            None => None,
        }
    } else if flag & 3 == 2 {
        match parse_mapping_block(body, flag) {
            Some((m, used)) => if st.fixed && st.mapping != Some(m) {
                None
            } else {
                Some((Decoding { mapping: Some(m), ..st }, used + 1))
            },
            None => None,
        }
    } else {
        match parse_feature_block(body, flag, st.zero_count) {
            Some((z, used)) => Some((Decoding { zero_count: z, ..st }, used + 1)),
            None => None,
        }
    }
}

/// Reads all blocks of `s` in turn: what has been read at its end, or `None`
/// where a block cannot be read.
pub open spec fn apply_blocks(st: Decoding, s: Seq<u8>) -> Option<Decoding>
    decreases s.len(),
{
    if s.len() == 0 {
        Some(st)
    } else {
        match apply_block(st, s) {
            Some((next, used)) => if 0 < used <= s.len() {
                apply_blocks(next, s.skip(used as int))
            } else {
                None
            },
            None => None,
        }
    }
}

/// A block that was read took at least its flag and no more bytes than there
/// were.
pub proof fn lemma_apply_block_len(st: Decoding, s: Seq<u8>)
    requires
        s.len() > 0,
    ensures
        apply_block(st, s) matches Some((_, used)) ==> 1 <= used <= s.len(),
{
    let flag = s[0];
    let body = s.skip(1);
    lemma_parse_len(body);
    if BinEncodingMode::of_code(flag >> 2) is Some {
        lemma_parse_store_payload_len(body, BinEncodingMode::of_code(flag >> 2)->Some_0);
    }
}

/// Reads what follows the flag of a mapping's block.
pub fn decode_mapping_block(input: &mut Input, flag: &Flag) -> (r: Result<IndexMapping, Error>)
    requires
        old(input).wf(),
    ensures
        final(input).wf(),
        match parse_mapping_block(old(input).remaining(), flag@) {
            Some((m, used)) => r == Ok::<IndexMapping, Error>(m) && m.wf() && final(input).remaining() == old(input).remaining().skip(used as int),
            None => r is Err,
        },
{
    let ghost s = input.remaining();
    let layout = match IndexMappingLayout::of_flag(flag) {
        Ok(layout) => layout,
        Err(e) => {
            return Err(e);
        },
    };
    let gamma = match input.read_double_le() {
        Ok(gamma) => gamma,
        Err(e) => {
            return Err(e);
        },
    };
    let index_offset = match input.read_double_le() {
        Ok(index_offset) => index_offset,
        Err(e) => {
            return Err(e);
        },
    };
    proof {
        assert(s.skip(8).skip(8) =~= s.skip(16));
        assert(forall|k: int| 0 <= k < 8 ==> s.skip(8)[k] == s[8 + k]);
    }
    IndexMapping::with_gamma_offset(layout, gamma, index_offset)
}

/// Passes over the block of an exact statistic; fails for any other feature.
pub fn ignore_exact_summary_statistic_flags(input: &mut Input, flag: &Flag) -> (r: Result<
    (),
    Error,
>)
    requires
        old(input).wf(),
        flag@ != ZERO_COUNT,
    ensures
        final(input).wf(),
        match parse_feature_block(old(input).remaining(), flag@, 0) {
            Some((_, used)) => r is Ok && final(input).remaining() == old(input).remaining().skip(
                used as int,
            ),
            None => r is Err,
        },
{
    let marker = flag.get_marker();
    if marker == COUNT {
        match decode_var_double(input) {
            Ok(_) => Ok(()),
            Err(e) => Err(e),
        }
    } else if marker == SUM || marker == MIN || marker == MAX {
        match input.read_double_le() {
            Ok(_) => Ok(()),
            Err(e) => Err(e),
        }
    } else {
        Err(Error::InvalidArgument("Unknown encoding flag."))
    }
}

/// Reads what follows the flag of a feature block: the count around zero
/// after the block, from `zero` before it.
pub fn decode_feature_block(input: &mut Input, flag: &Flag, zero: u64) -> (r: Result<u64, Error>)
    requires
        old(input).wf(),
        zero <= MAX_COUNT,
    ensures
        final(input).wf(),
        match parse_feature_block(old(input).remaining(), flag@, zero) {
            Some((z, used)) => r == Ok::<u64, Error>(z) && z <= MAX_COUNT && final(input).remaining() == old(input).remaining().skip(used as int),
            None => r is Err,
        },
{
    if flag.get_marker() == ZERO_COUNT {
        let raw = match decode_var_double(input) {
            Ok(raw) => raw,
            Err(e) => {
                return Err(e);
            },
        };
        match raw_to_count(raw) {
            Some(c) => {
                if c > MAX_COUNT - zero {
                    Err(Error::InvalidArgument("The total count is too large."))
                } else {
                    Ok(zero + c)
                }
            },
            None => Err(Error::InvalidArgument("A count must be a whole number.")),
        }
    } else {
        match ignore_exact_summary_statistic_flags(input, flag) {
            Ok(()) => Ok(zero),
            Err(e) => Err(e),
        }
    }
}

} // verus!
