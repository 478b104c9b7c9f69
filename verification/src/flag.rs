use vstd::prelude::*;
use crate::error::Error;
use crate::input::Input;
use crate::output::Output;

verus! {

/// The class of block that a flag byte opens: the low two bits of the byte.
#[derive(PartialEq, Eq, Structural, Clone, Copy, Debug)]
pub enum FlagType {
    SketchFeatures,
    PositiveStore,
    IndexMapping,
    NegativeStore,
}

/// The one-byte tag that opens each block of the byte format.
#[derive(PartialEq, Eq, Structural, Clone, Copy, Debug)]
pub struct Flag {
    marker: u8,
}

impl FlagType {
    /// The two-bit code of the block class.
    pub open spec fn code(self) -> u8 {
        match self {
            FlagType::SketchFeatures => 0,
            FlagType::PositiveStore => 1,
            FlagType::IndexMapping => 2,
            FlagType::NegativeStore => 3,
        }
    }

    /// The two-bit code of the block class.
    pub fn to_code(&self) -> (r: u8)
        ensures
            r == self.code(),
    {
        match self {
            FlagType::SketchFeatures => 0,
            FlagType::PositiveStore => 1,
            FlagType::IndexMapping => 2,
            FlagType::NegativeStore => 3,
        }
    }

    /// The block class with code `t`; codes above three name no class.
    pub fn value_of(t: u8) -> (r: Result<FlagType, Error>)
        ensures
            t < 4 ==> r is Ok && r->Ok_0.code() == t,
            t >= 4 ==> r is Err && r->Err_0.reason() == "Unknown FlagType."@,
    {
        if t == 0 {
            Ok(FlagType::SketchFeatures)
        } else if t == 1 {
            Ok(FlagType::PositiveStore)
        } else if t == 2 {
            Ok(FlagType::IndexMapping)
        } else if t == 3 {
            Ok(FlagType::NegativeStore)
        } else {
            Err(Error::InvalidArgument("Unknown FlagType."))
        }
    }
}

impl View for Flag {
    type V = u8;

    closed spec fn view(&self) -> u8 {
        self.marker
    }
}

/// The marker made of a class code in the low two bits and the low six bits of
/// a sub-flag above them.
pub open spec fn marker_of(code: u8, sub_flag: u8) -> u8 {
    code | ((sub_flag & 0x3f) << 2)
}

/// The marker of the block that holds the count of the samples around zero.
pub const ZERO_COUNT: u8 = 0x04;

/// The marker of a block that holds an exact count of all samples.
pub const COUNT: u8 = 0xa0;

/// The marker of a block that holds an exact sum of all samples.
pub const SUM: u8 = 0x84;

/// The marker of a block that holds the exact smallest sample.
pub const MIN: u8 = 0x88;

/// The marker of a block that holds the exact largest sample.
pub const MAX: u8 = 0x8c;

/// The markers of the feature blocks are those of class `SketchFeatures` with
/// the sub-flags 1, 0x28, 0x21, 0x22 and 0x23.
pub proof fn lemma_feature_markers()
    ensures
        ZERO_COUNT == marker_of(FlagType::SketchFeatures.code(), 1),
        COUNT == marker_of(FlagType::SketchFeatures.code(), 0x28),
        SUM == marker_of(FlagType::SketchFeatures.code(), 0x21),
        MIN == marker_of(FlagType::SketchFeatures.code(), 0x22),
        MAX == marker_of(FlagType::SketchFeatures.code(), 0x23),
{
    assert(marker_of(0, 1) == 0x04) by (bit_vector);
    assert(marker_of(0, 0x28) == 0xa0) by (bit_vector);
    assert(marker_of(0, 0x21) == 0x84) by (bit_vector);
    assert(marker_of(0, 0x22) == 0x88) by (bit_vector);
    assert(marker_of(0, 0x23) == 0x8c) by (bit_vector);
}

/// A marker gives back the class and the sub-flag that it was made of.
pub proof fn lemma_marker_parts(code: u8, sub_flag: u8)
    requires
        code < 4,
        sub_flag < 64,
    ensures
        marker_of(code, sub_flag) & 3 == code,
        marker_of(code, sub_flag) >> 2 == sub_flag,
{
    assert(marker_of(code, sub_flag) & 3 == code && marker_of(code, sub_flag) >> 2 == sub_flag)
        by (bit_vector)
        requires
            code < 4,
            sub_flag < 64,
    ;
}

impl Flag {
    /// The flag with the given marker byte.
    pub fn new(marker: u8) -> (r: Flag)
        ensures
            r@ == marker,
    {
        Flag { marker }
    }

    /// Reads the flag byte that opens a block.
    pub fn decode(input: &mut Input) -> (r: Result<Flag, Error>)
        requires
            old(input).wf(),
        ensures
            final(input).wf(),
            old(input).remaining().len() > 0 ==> r is Ok && r->Ok_0@ == old(input).remaining()[0]
                && final(input).remaining() == old(input).remaining().skip(1),
            old(input).remaining().len() == 0 ==> r is Err && final(input).remaining() == old(
                input,
            ).remaining(),
    {
        match input.read_byte() {
            Ok(marker) => Ok(Flag::new(marker)),
            Err(e) => Err(e),
        }
    }

    /// The block class in the low two bits of the marker.
    pub fn get_type(&self) -> (r: Result<FlagType, Error>)
        ensures
            r is Ok,
            r->Ok_0.code() == self@ & 3,
    {
        let m: u8 = self.marker;
        let t: u8 = m & 3;
        assert(t < 4) by (bit_vector)
            requires
                t == m & 3,
        ;
        FlagType::value_of(t)
    }

    /// The marker byte.
    pub fn get_marker(&self) -> (r: u8)
        ensures
            r == self@,
    {
        self.marker
    }

    /// Writes the marker byte.
    pub fn encode(&self, output: &mut Output) -> (r: Result<(), Error>)
        ensures
            r is Ok,
            final(output)@ == old(output)@.push(self@),
    {
        output.write_byte(self.marker)
    }

    /// The flag of class `flag_type` with `sub_flag` above the class bits; only
    /// the low six bits of `sub_flag` find room.
    pub fn with_type(flag_type: FlagType, sub_flag: u8) -> (r: Flag)
        ensures
            r@ == marker_of(flag_type.code(), sub_flag),
    {
        let t: u8 = flag_type.to_code();
        let low: u8 = sub_flag & 0x3f;
        assert(low < 64) by (bit_vector)
            requires
                low == sub_flag & 0x3f,
        ;
        Flag::new(t | (low << 2))
    }
}

} // verus!
