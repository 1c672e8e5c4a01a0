//! Append-only arena in which wire structures are assembled bottom-up.
//!
//! Writes only ever extend the buffer, so an offset returned by a write names
//! a region that is already final and may safely be referenced by structures
//! written later.  There is no back-patching: a parent must be written after
//! every child it points at.

use crate::wire::value_record;
use vstd::bytes::spec_u32_to_le_bytes;
use vstd::bytes::spec_u64_to_le_bytes;
use vstd::bytes::u32_to_le_bytes;
use vstd::bytes::u64_to_le_bytes;
use vstd::prelude::*;
use vstd::slice::slice_to_vec;

verus! {

/// A single forward-growing byte arena for one encode call.
pub struct Builder {
    bytes: Vec<u8>,
}

impl View for Builder {
    type V = Seq<u8>;

    closed spec fn view(&self) -> Seq<u8> {
        self.bytes@
    }
}

impl Builder {
    /// A fresh, empty arena.
    pub fn new() -> (b: Builder)
        ensures
            b@ == Seq::<u8>::empty(),
    {
        Builder { bytes: Vec::new() }
    }

    /// The offset at which the next write will land.
    pub fn offset(&self) -> (r: u32)
        requires
            self@.len() <= u32::MAX,
        ensures
            r == self@.len(),
    {
        self.bytes.len() as u32
    }

    /// Appends one byte.
    pub fn push_u8(&mut self, x: u8)
        ensures
            final(self)@ == old(self)@.push(x),
    {
        self.bytes.push(x);
    }

    /// Appends a 32-bit integer, little endian.
    pub fn push_u32(&mut self, x: u32)
        ensures
            final(self)@ == old(self)@ + spec_u32_to_le_bytes(x),
    {
        let mut t = u32_to_le_bytes(x);
        self.bytes.append(&mut t);
    }

    /// Appends a 64-bit integer, little endian.
    pub fn push_u64(&mut self, x: u64)
        ensures
            final(self)@ == old(self)@ + spec_u64_to_le_bytes(x),
    {
        let mut t = u64_to_le_bytes(x);
        self.bytes.append(&mut t);
    }

    /// Writes one value record, length then bytes, and returns its stable offset.
    pub fn push_value(&mut self, v: &[u8]) -> (off: u32)
        requires
            old(self)@.len() + 4 + v@.len() <= u32::MAX,
        ensures
            final(self)@ == old(self)@ + value_record(v@),
            off == old(self)@.len(),
    {
        let off = self.bytes.len() as u32;
        self.push_u32(v.len() as u32);
        let mut t = slice_to_vec(v);
        self.bytes.append(&mut t);
        off
    }

    /// Hands the finished arena out as the envelope buffer.
    pub fn into_bytes(self) -> (r: Vec<u8>)
        ensures
            r@ == self@,
    {
        self.bytes
    }
}

} // verus!
