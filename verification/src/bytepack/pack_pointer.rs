//! The eight-byte descriptor of a range in the dynamic region.

use vstd::prelude::*;
use vstd::slice::slice_subrange;

use crate::bytepack::buffer::{lemma_read_agrees, lemma_read_written, read_at, write_at};
use crate::bytepack::endian::push_be;
use crate::bytepack::pack::{Pack, RoundTrip, Unpack};
use crate::bytepack::packer::BytePacker;
use crate::bytepack::unpacker::ByteUnpacker;
use crate::bytepack::endian::{be_bytes, be_value, lemma_be_limits, lemma_be_value_bound};
use crate::bytepack::endian::{from_be, lemma_be_bytes_len, lemma_be_value_of_bytes, to_be};

verus! {

/// Where indirect data lies in the buffer: `len` bytes from `offset` on.
///
/// No indirect data ever starts at offset zero, so a pointer whose `offset`
/// is zero carries its meaning in `len` instead: zero for nothing at all
/// (see [`PackPointer::null`]), anything else for a four-byte tag.
#[derive(Debug, Clone, Copy, PartialEq, Eq, Structural)]
pub struct PackPointer {
    pub offset: u32,
    pub len: u32,
}

impl DeepView for PackPointer {
    type V = PackPointer;

    open spec fn deep_view(&self) -> PackPointer {
        *self
    }
}

impl PackPointer {
    /// The pointer to nothing.
    pub fn null() -> (ptr: Self)
        ensures
            ptr.is_null(),
    {
        PackPointer { offset: 0, len: 0 }
    }

    /// Whether this is the pointer to nothing.
    pub open spec fn is_null(self) -> bool {
        self.offset == 0 && self.len == 0
    }

    /// The eight bytes of a pointer in a buffer: `offset`, then `len`, each
    /// big-endian.
    pub open spec fn wire(self) -> Seq<u8> {
        be_bytes(self.offset as nat, 4) + be_bytes(self.len as nat, 4)
    }

    /// The pointer that eight bytes spell.
    pub open spec fn from_wire(bytes: Seq<u8>) -> PackPointer {
        PackPointer {
            offset: be_value(bytes.subrange(0, 4)) as u32,
            len: be_value(bytes.subrange(4, 8)) as u32,
        }
    }

    /// The pointer stored at `offset` in `buf`, if eight bytes are there.
    pub open spec fn read(buf: Seq<u8>, offset: nat) -> Option<PackPointer> {
        if offset + 8 <= buf.len() {
            Some(Self::from_wire(read_at(buf, offset, 8)))
        } else {
            None
        }
    }

    /// The pointer that carries `tag` inline.
    pub fn inline(tag: [u8; 4]) -> (ptr: Self)
        ensures
            ptr.offset == 0,
            ptr.len == be_value(tag@),
    {
        proof {
            lemma_be_value_bound(tag@);
            lemma_be_limits();
        }
        let len = from_be(vstd::array::array_as_slice(&tag));
        PackPointer { offset: 0, len: len as u32 }
    }

    /// The tag that the pointer carries inline, if it carries one.
    pub fn inline_tag(&self) -> (tag: Option<[u8; 4]>)
        ensures
            self.offset == 0 ==> tag is Some && tag->0@ == be_bytes(self.len as nat, 4),
            self.offset != 0 ==> tag is None,
    {
        if self.offset == 0 {
            let bytes = to_be(self.len as u128, 4);
            proof {
                lemma_be_bytes_len(self.len as nat, 4);
            }
            let tag: [u8; 4] = [bytes[0], bytes[1], bytes[2], bytes[3]];
            assert(tag@ =~= bytes@);
            Some(tag)
        } else {
            None
        }
    }
}

pub proof fn lemma_pointer_wire(ptr: PackPointer)
    ensures
        ptr.wire().len() == 8,
        PackPointer::from_wire(ptr.wire()) == ptr,
{
    lemma_be_bytes_len(ptr.offset as nat, 4);
    lemma_be_bytes_len(ptr.len as nat, 4);
    lemma_be_limits();
    lemma_be_value_of_bytes(ptr.offset as nat, 4);
    lemma_be_value_of_bytes(ptr.len as nat, 4);
    assert(ptr.wire().subrange(0, 4) =~= be_bytes(ptr.offset as nat, 4));
    assert(ptr.wire().subrange(4, 8) =~= be_bytes(ptr.len as nat, 4));
}

} // verus!

verus! {

impl Pack for PackPointer {
    const PACK_BYTES: u32 = 8;

    open spec fn fixed_len() -> nat {
        8
    }

    proof fn lemma_pack_bytes() {
    }

    open spec fn dyn_len(&self) -> nat {
        0
    }

    open spec fn packed(&self, offset: nat, buf: Seq<u8>) -> Seq<u8> {
        write_at(buf, offset, self.wire())
    }

    fn pack(&self, offset: u32, packer: &mut BytePacker) {
        let mut bytes = to_be(self.offset as u128, 4);
        push_be(&mut bytes, self.len as u128, 4);
        proof {
            lemma_pointer_wire(*self);
            assert(Self::fixed_len() == 8);
            assert(self.packed(offset as nat, packer@) == write_at(packer@, offset as nat, self.wire()));
        }
        packer.pack_bytes(offset, bytes.as_slice());
    }

    proof fn lemma_packed(&self, offset: nat, buf: Seq<u8>) {
        lemma_pointer_wire(*self);
        lemma_read_written(buf, offset, self.wire());
    }
}

impl<'b> Unpack<'b> for PackPointer {
    open spec fn unpacked(offset: nat, buf: Seq<u8>) -> Option<PackPointer> {
        PackPointer::read(buf, offset)
    }

    fn unpack(offset: u32, unpacker: &ByteUnpacker<'b>) -> (value: Option<Self>) {
        assert(Self::unpacked(offset as nat, unpacker@) == PackPointer::read(unpacker@, offset as nat));
        if offset as u64 + 8 > unpacker.len() as u64 {
            return None;
        }
        let bytes = unpacker.read_bytes(PackPointer { offset, len: 8 });
        let high = slice_subrange(bytes, 0, 4);
        let low = slice_subrange(bytes, 4, 8);
        proof {
            lemma_be_value_bound(high@);
            lemma_be_value_bound(low@);
            lemma_be_limits();
        }
        Some(PackPointer { offset: from_be(high) as u32, len: from_be(low) as u32 })
    }
}

impl<'b> RoundTrip<'b> for PackPointer {
    open spec fn round_trips(&self) -> bool {
        true
    }

    proof fn lemma_round_trip(&self, offset: nat, buf: Seq<u8>, later: Seq<u8>) {
        lemma_pointer_wire(*self);
        lemma_read_written(buf, offset, self.wire());
        lemma_read_agrees(self.packed(offset, buf), later, offset, 8);
    }
}

} // verus!
