use vstd::prelude::*;
use crate::error::Error;

verus! {

/// A growing byte buffer.
pub struct Output {
    bytes: Vec<u8>,
}

/// The eight bytes of `v`, least significant first.
pub open spec fn le_bytes(v: u64) -> Seq<u8> {
    seq![
        (v & 0xff) as u8,
        ((v >> 8) & 0xff) as u8,
        ((v >> 16) & 0xff) as u8,
        ((v >> 24) & 0xff) as u8,
        ((v >> 32) & 0xff) as u8,
        ((v >> 40) & 0xff) as u8,
        ((v >> 48) & 0xff) as u8,
        ((v >> 56) & 0xff) as u8,
    ]
}

impl View for Output {
    type V = Seq<u8>;

    closed spec fn view(&self) -> Seq<u8> {
        self.bytes@
    }
}

impl Output {
    /// An empty buffer with room for `capacity` bytes.
    pub fn with_capacity(capacity: usize) -> (r: Output)
        ensures
            r@ == Seq::<u8>::empty(),
    {
        Output { bytes: Vec::with_capacity(capacity) }
    }

    /// Appends one byte.
    pub fn write_byte(&mut self, b: u8) -> (r: Result<(), Error>)
        ensures
            r is Ok,
            final(self)@ == old(self)@.push(b),
    {
        self.bytes.push(b);
        Ok(())
    }

    /// Appends the bit pattern of a double, least significant byte first.
    pub fn write_double_le(&mut self, v: u64) -> (r: Result<(), Error>)
        ensures
            r is Ok,
            final(self)@ == old(self)@ + le_bytes(v),
    {
        self.bytes.push((v & 0xff) as u8);
        self.bytes.push(((v >> 8) & 0xff) as u8);
        self.bytes.push(((v >> 16) & 0xff) as u8);
        self.bytes.push(((v >> 24) & 0xff) as u8);
        self.bytes.push(((v >> 32) & 0xff) as u8);
        self.bytes.push(((v >> 40) & 0xff) as u8);
        self.bytes.push(((v >> 48) & 0xff) as u8);
        self.bytes.push(((v >> 56) & 0xff) as u8);
        assert(self@ =~= old(self)@ + le_bytes(v));
        Ok(())
    }

    /// The bytes written so far, and no more.
    pub fn trim(self) -> (r: Vec<u8>)
        ensures
            r@ == self@,
    {
        self.bytes
    }
}

} // verus!
