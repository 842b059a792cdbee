//! What it means for a type to be packable, and the laws that tie packing to
//! unpacking.

use vstd::prelude::*;

use crate::bytepack::buffer::{changes_only_slot, keeps_packed};
use crate::bytepack::packer::BytePacker;
use crate::bytepack::unpacker::ByteUnpacker;

verus! {

/// A value that can be written into a buffer.
///
/// Packing writes the value's fixed region, `PACK_BYTES` bytes, at the offset
/// it is given, and appends whatever else it needs to the end of the buffer.
/// Buffers are addressed by `u32`, so nothing is packed into a buffer that
/// would grow beyond `u32::MAX` bytes.
pub trait Pack: DeepView {
    /// The size of the fixed region, in bytes.
    const PACK_BYTES: u32;

    /// The size of the fixed region as a number without bound: the sum that
    /// `PACK_BYTES` is computed as.
    spec fn fixed_len() -> nat;

    /// `PACK_BYTES` is the size of the fixed region wherever that size can
    /// be a `u32` at all. (The compiler refuses a program in which the sum
    /// overflows, so in compiled code it always is.)
    proof fn lemma_pack_bytes()
        requires
            Self::fixed_len() <= u32::MAX,
        ensures
            Self::PACK_BYTES == Self::fixed_len(),
    ;

    /// The number of bytes that packing the value appends to the buffer.
    spec fn dyn_len(&self) -> nat;

    /// The buffer after the value was packed at `offset` into `buf`.
    spec fn packed(&self, offset: nat, buf: Seq<u8>) -> Seq<u8>;

    /// Packs the value at `offset`.
    fn pack(&self, offset: u32, packer: &mut BytePacker)
        requires
            offset + Self::fixed_len() <= old(packer)@.len(),
            old(packer)@.len() + self.dyn_len() <= u32::MAX,
        ensures
            final(packer)@ == self.packed(offset as nat, old(packer)@),
    ;

    /// Packing grows the buffer by `dyn_len` bytes and changes nothing of what
    /// was there but the value's own slot.
    proof fn lemma_packed(&self, offset: nat, buf: Seq<u8>)
        requires
            offset + Self::fixed_len() <= buf.len(),
        ensures
            self.packed(offset, buf).len() == buf.len() + self.dyn_len(),
            changes_only_slot(buf, self.packed(offset, buf), offset, Self::fixed_len()),
    ;
}

/// A value that can be read back from a buffer.
pub trait Unpack<'b>: Sized + DeepView {
    /// The value that the bytes at `offset` in `buf` decode to, if any.
    spec fn unpacked(offset: nat, buf: Seq<u8>) -> Option<Self::V>;

    /// Reads the value at `offset`. Malformed or missing data gives `None`.
    fn unpack(offset: u32, unpacker: &ByteUnpacker<'b>) -> (value: Option<Self>)
        ensures
            value.deep_view() == Self::unpacked(offset as nat, unpacker@),
    ;
}

/// A type whose values come back from the bytes they were packed into.
pub trait RoundTrip<'b>: Pack + Unpack<'b> {
    /// Whether this value is one that comes back. Every value of most types
    /// is; a sequence is if its items are and their fixed region is not
    /// empty, since the number of items is read off its size.
    spec fn round_trips(&self) -> bool;

    /// Whatever is packed at `offset` is read back from there, in the buffer
    /// that packing left and in every later one that still holds the value's
    /// slot and the bytes that packing appended.
    proof fn lemma_round_trip(&self, offset: nat, buf: Seq<u8>, later: Seq<u8>)
        requires
            self.round_trips(),
            offset + Self::fixed_len() <= buf.len(),
            buf.len() + self.dyn_len() <= u32::MAX,
            keeps_packed(self.packed(offset, buf), later, offset, Self::fixed_len(), buf.len()),
        ensures
            Self::unpacked(offset, later) == Some(self.deep_view()),
    ;
}

} // verus!
