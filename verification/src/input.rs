use vstd::prelude::*;
use crate::error::Error;

verus! {

/// A cursor over a byte buffer: everything before the cursor has been read.
pub struct Input<'a> {
    bytes: &'a Vec<u8>,
    pos: usize,
}

/// The eight bytes of `s` starting at `at`, read as a little-endian integer.
pub open spec fn le_u64(s: Seq<u8>, at: int) -> u64
    recommends
        0 <= at,
        at + 8 <= s.len(),
{
    (s[at] as u64) | (s[at + 1] as u64) << 8 | (s[at + 2] as u64) << 16 | (s[at + 3] as u64) << 24
        | (s[at + 4] as u64) << 32 | (s[at + 5] as u64) << 40 | (s[at + 6] as u64) << 48 | (s[at
        + 7] as u64) << 56
}

impl<'a> Input<'a> {
    /// Whether the cursor lies inside the buffer.
    pub closed spec fn wf(&self) -> bool {
        self.pos <= self.bytes@.len()
    }

    /// The bytes that have not been read yet.
    pub closed spec fn remaining(&self) -> Seq<u8> {
        self.bytes@.subrange(self.pos as int, self.bytes@.len() as int)
    }

    /// A cursor at the start of `bytes`.
    pub fn wrap(bytes: &'a Vec<u8>) -> (r: Input<'a>)
        ensures
            r.wf(),
            r.remaining() == bytes@,
    {
        let r = Input { bytes, pos: 0 };
        assert(r.remaining() =~= bytes@);
        r
    }

    /// Whether any byte is left to read.
    pub fn has_remaining(&self) -> (r: bool)
        requires
            self.wf(),
        ensures
            r == (self.remaining().len() > 0),
    {
        self.pos < self.bytes.len()
    }

    /// Reads one byte, or fails at the end of the buffer and reads nothing.
    pub fn read_byte(&mut self) -> (r: Result<u8, Error>)
        requires
            old(self).wf(),
        ensures
            final(self).wf(),
            old(self).remaining().len() > 0 ==> r == Ok::<u8, Error>(old(self).remaining()[0])
                && final(self).remaining() == old(self).remaining().skip(1),
            old(self).remaining().len() == 0 ==> r is Err && final(self).remaining() == old(
                self,
            ).remaining(),
    {
        if self.pos < self.bytes.len() {
            let b = self.bytes[self.pos];
            self.pos = self.pos + 1;
            assert(self.remaining() =~= old(self).remaining().skip(1));
            Ok(b)
        } else {
            Err(Error::InvalidArgument("Unexpected end of input."))
        }
    }

    /// Reads eight bytes as the little-endian bit pattern of a double, or fails
    /// when fewer than eight are left and reads nothing.
    pub fn read_double_le(&mut self) -> (r: Result<u64, Error>)
        requires
            old(self).wf(),
        ensures
            final(self).wf(),
            old(self).remaining().len() >= 8 ==> r == Ok::<u64, Error>(
                le_u64(old(self).remaining(), 0),
            ) && final(self).remaining() == old(self).remaining().skip(8),
            old(self).remaining().len() < 8 ==> r is Err && final(self).remaining() == old(
                self,
            ).remaining(),
    {
        if self.bytes.len() - self.pos < 8 {
            return Err(Error::InvalidArgument("Unexpected end of input."));
        }
        let p = self.pos;
        let ghost rem = self.remaining();
        assert(forall|k: int| 0 <= k < 8 ==> rem[k] == self.bytes@[p + k]);
        let b0: u64 = self.bytes[p] as u64;
        let b1: u64 = self.bytes[p + 1] as u64;
        let b2: u64 = self.bytes[p + 2] as u64;
        let b3: u64 = self.bytes[p + 3] as u64;
        let b4: u64 = self.bytes[p + 4] as u64;
        let b5: u64 = self.bytes[p + 5] as u64;
        let b6: u64 = self.bytes[p + 6] as u64;
        let b7: u64 = self.bytes[p + 7] as u64;
        self.pos = p + 8;
        assert(self.remaining() =~= rem.skip(8));
        Ok(b0 | b1 << 8 | b2 << 16 | b3 << 24 | b4 << 32 | b5 << 40 | b6 << 48 | b7 << 56)
    }
}

} // verus!
