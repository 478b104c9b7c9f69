use vstd::prelude::*;
use crate::error::Error;
use crate::flag::{marker_of, Flag, FlagType};
use crate::input::le_u64;
use crate::output::{le_bytes, Output};

verus! {

/// The bit pattern of the double one.
pub const ONE_BITS: u64 = 0x3ff0_0000_0000_0000;

/// The bit pattern of the double positive infinity.
pub const INFINITY_BITS: u64 = 0x7ff0_0000_0000_0000;

/// How a mapping approximates the logarithm by which it buckets values.
#[derive(PartialEq, Eq, Structural, Clone, Copy, Debug)]
pub enum IndexMappingLayout {
    /// The logarithm itself.
    LOG,
    /// A cubic interpolation of the logarithm between powers of two.
    LogCubic,
}

/// The mapping between values and bucket indices, as far as the library needs
/// it: the layout and the bit patterns of the base `gamma` and of the index
/// offset. Two mappings are equal when all three are.
#[derive(PartialEq, Eq, Structural, Clone, Copy, Debug)]
pub struct IndexMapping {
    pub layout: IndexMappingLayout,
    pub gamma: u64,
    pub index_offset: u64,
}

/// Whether `gamma` is the bit pattern of a finite double above one. Among the
/// doubles that are not negative, a larger double has a larger bit pattern.
pub open spec fn is_valid_gamma(gamma: u64) -> bool {
    ONE_BITS < gamma < INFINITY_BITS
}

impl IndexMappingLayout {
    /// The sub-flag that stands for the layout in the byte format.
    pub open spec fn code(self) -> u8 {
        match self {
            IndexMappingLayout::LOG => 0,
            IndexMappingLayout::LogCubic => 3,
        }
    }

    /// The layout with a given sub-flag, if there is one.
    pub open spec fn of_code(code: u8) -> Option<IndexMappingLayout> {
        if code == 0 {
            Some(IndexMappingLayout::LOG)
        } else if code == 3 {
            Some(IndexMappingLayout::LogCubic)
        } else {
            None
        }
    }

    /// The layout that the sub-flag of `flag` names; fails where it names none.
    pub fn of_flag(flag: &Flag) -> (r: Result<IndexMappingLayout, Error>)
        ensures
            match IndexMappingLayout::of_code(flag@ >> 2) {
                Some(layout) => r == Ok::<IndexMappingLayout, Error>(layout),
                None => r is Err,
            },
    {
        let code: u8 = flag.get_marker() >> 2;
        if code == 0 {
            Ok(IndexMappingLayout::LOG)
        } else if code == 3 {
            Ok(IndexMappingLayout::LogCubic)
        } else {
            Err(Error::InvalidArgument("Unknown IndexMappingLayout."))
        }
    }

    /// The flag that opens the block of a mapping with this layout.
    pub fn to_flag(&self) -> (r: Flag)
        ensures
            r@ == marker_of(FlagType::IndexMapping.code(), self.code()),
    {
        match self {
            IndexMappingLayout::LOG => Flag::with_type(FlagType::IndexMapping, 0),
            IndexMappingLayout::LogCubic => Flag::with_type(FlagType::IndexMapping, 3),
        }
    }
}

/// The block of a mapping in the byte format: its flag, then `gamma` and the
/// index offset, eight bytes each.
pub open spec fn mapping_block_bytes(m: IndexMapping) -> Seq<u8> {
    seq![marker_of(FlagType::IndexMapping.code(), m.layout.code())] + le_bytes(m.gamma)
        + le_bytes(m.index_offset)
}

/// Reads the two doubles of a mapping's block at the head of `s`, for a block
/// whose flag named `layout`: the mapping and the bytes it took.
pub open spec fn parse_mapping_payload(s: Seq<u8>, layout: IndexMappingLayout) -> Option<
    (IndexMapping, nat),
> {
    if s.len() < 16 || !is_valid_gamma(le_u64(s, 0)) {
        None
    } else {
        Some((IndexMapping { layout, gamma: le_u64(s, 0), index_offset: le_u64(s, 8) }, 16nat))
    }
}

/// Eight bytes written least significant first read back as the same number.
pub proof fn lemma_le_round_trip(v: u64, tail: Seq<u8>)
    ensures
        le_u64(le_bytes(v) + tail, 0) == v,
        (le_bytes(v) + tail).skip(8) == tail,
        le_bytes(v).len() == 8,
{
    let s = le_bytes(v) + tail;
    assert(s.skip(8) =~= tail);
    let b0 = (v & 0xff) as u8;
    let b1 = ((v >> 8) & 0xff) as u8;
    let b2 = ((v >> 16) & 0xff) as u8;
    let b3 = ((v >> 24) & 0xff) as u8;
    let b4 = ((v >> 32) & 0xff) as u8;
    let b5 = ((v >> 40) & 0xff) as u8;
    let b6 = ((v >> 48) & 0xff) as u8;
    let b7 = ((v >> 56) & 0xff) as u8;
    assert(s[0] == b0 && s[1] == b1 && s[2] == b2 && s[3] == b3 && s[4] == b4 && s[5] == b5 && s[6]
        == b6 && s[7] == b7);
    assert((b0 as u64) | (b1 as u64) << 8 | (b2 as u64) << 16 | (b3 as u64) << 24 | (b4 as u64)
        << 32 | (b5 as u64) << 40 | (b6 as u64) << 48 | (b7 as u64) << 56 == v) by (bit_vector)
        requires
            b0 == (v & 0xff) as u8,
            b1 == ((v >> 8) & 0xff) as u8,
            b2 == ((v >> 16) & 0xff) as u8,
            b3 == ((v >> 24) & 0xff) as u8,
            b4 == ((v >> 32) & 0xff) as u8,
            b5 == ((v >> 40) & 0xff) as u8,
            b6 == ((v >> 48) & 0xff) as u8,
            b7 == ((v >> 56) & 0xff) as u8,
    ;
}

impl IndexMapping {
    /// The invariant of a mapping: its base is a finite double above one.
    pub open spec fn wf(self) -> bool {
        is_valid_gamma(self.gamma)
    }

    /// The mapping of the given layout, base and index offset, both as bit
    /// patterns; fails unless the base is a finite double above one.
    pub fn with_gamma_offset(layout: IndexMappingLayout, gamma: u64, index_offset: u64) -> (r:
        Result<IndexMapping, Error>)
        ensures
            is_valid_gamma(gamma) ==> r == Ok::<IndexMapping, Error>(
                IndexMapping { layout, gamma, index_offset },
            ),
            !is_valid_gamma(gamma) ==> r is Err,
    {
        if gamma <= ONE_BITS || gamma >= INFINITY_BITS {
            return Err(Error::InvalidArgument("Gamma must be greater than 1."));
        }
        Ok(IndexMapping { layout, gamma, index_offset })
    }

    /// The layout of the mapping.
    pub fn get_layout(&self) -> (r: IndexMappingLayout)
        ensures
            r == self.layout,
    {
        self.layout
    }

    /// The bit pattern of the base.
    pub fn get_gamma(&self) -> (r: u64)
        ensures
            r == self.gamma,
    {
        self.gamma
    }

    /// The bit pattern of the index offset.
    pub fn get_index_offset(&self) -> (r: u64)
        ensures
            r == self.index_offset,
    {
        self.index_offset
    }

    /// Writes the block of the mapping.
    pub fn encode(&self, output: &mut Output) -> (r: Result<(), Error>)
        ensures
            r is Ok,
            final(output)@ == old(output)@ + mapping_block_bytes(*self),
    {
        let flag = self.layout.to_flag();
        let _ = flag.encode(output);
        let _ = output.write_double_le(self.gamma);
        let _ = output.write_double_le(self.index_offset);
        assert(output@ =~= old(output)@ + mapping_block_bytes(*self));
        Ok(())
    }
}

} // verus!
