//! Writing values into a growing buffer.

use vstd::prelude::*;

use crate::bytepack::buffer::{write_at, zeros};
use crate::bytepack::pack::Pack;
use crate::bytepack::pack_pointer::PackPointer;
use crate::bytepack::packer_format::PackerFormat;

verus! {

/// The buffer that values are packed into.
pub struct BytePacker {
    bytes: Vec<u8>,
}

impl View for BytePacker {
    type V = Seq<u8>;

    closed spec fn view(&self) -> Seq<u8> {
        self.bytes@
    }
}

impl BytePacker {
    /// A buffer of `fixed_byte_count` zero bytes: room for the fixed region
    /// of what is to be packed at offset zero.
    pub fn new(fixed_byte_count: u32) -> (packer: Self)
        ensures
            packer@ == zeros(fixed_byte_count as nat),
    {
        let bytes: Vec<u8> = vec![0u8; fixed_byte_count as usize];
        assert(bytes@ =~= zeros(fixed_byte_count as nat));
        BytePacker { bytes }
    }

    /// Writes `value` over the bytes from `offset` on.
    pub fn pack_bytes(&mut self, offset: u32, value: &[u8])
        requires
            offset + value@.len() <= old(self)@.len(),
        ensures
            final(self)@ == write_at(old(self)@, offset as nat, value@),
    {
        pack_fixed_value(&mut self.bytes, offset, value);
    }

    /// Appends `value` to the dynamic region and writes the pointer to it at
    /// `offset`.
    pub fn pack_bytes_indirect(&mut self, offset: u32, value: &[u8])
        requires
            offset + 8 <= old(self)@.len(),
            old(self)@.len() + value@.len() <= u32::MAX,
        ensures
            final(self)@ == packed_indirect(old(self)@, offset as nat, value@),
    {
        let ptr = self.push_dynamic(value);
        ptr.pack(offset, self);
    }

    /// Reserves the fixed region of `value` in the dynamic region, writes the
    /// pointer to it at `offset`, and packs `value` there.
    pub fn pack_indirect<T: Pack>(&mut self, offset: u32, value: &T)
        requires
            offset + 8 <= old(self)@.len(),
            old(self)@.len() + T::fixed_len() + value.dyn_len() <= u32::MAX,
        ensures
            final(self)@ == packed_nested(old(self)@, offset as nat, value),
    {
        proof {
            T::lemma_pack_bytes();
        }
        let ptr = self.reserve_dynamic_bytes(T::PACK_BYTES);
        ptr.pack(offset, self);
        value.pack(ptr.offset, self);
    }

    /// Appends `value` to the dynamic region and returns the pointer to it.
    pub fn push_dynamic(&mut self, value: &[u8]) -> (ptr: PackPointer)
        requires
            old(self)@.len() + value@.len() <= u32::MAX,
        ensures
            final(self)@ == old(self)@ + value@,
            ptr.offset == old(self)@.len(),
            ptr.len == value@.len(),
    {
        push_dynamic_value(&mut self.bytes, value)
    }

    /// Appends `count` zero bytes to the dynamic region and returns the
    /// pointer to them.
    pub fn reserve_dynamic_bytes(&mut self, count: u32) -> (ptr: PackPointer)
        requires
            old(self)@.len() + count <= u32::MAX,
        ensures
            final(self)@ == old(self)@ + zeros(count as nat),
            ptr.offset == old(self)@.len(),
            ptr.len == count,
    {
        let offset = self.bytes.len() as u32;
        let mut i: u32 = 0;
        while i < count
            invariant
                i <= count,
                old(self)@.len() + count <= u32::MAX,
                self.bytes@ == old(self)@ + zeros(i as nat),
            decreases count - i,
        {
            self.bytes.push(0u8);
            i += 1;
            assert(self.bytes@ =~= old(self)@ + zeros(i as nat));
        }
        PackPointer { offset, len: count }
    }

    /// The bytes packed so far.
    pub fn finish(self) -> (bytes: Vec<u8>)
        ensures
            bytes@ == self@,
    {
        self.bytes
    }

    /// The bytes of `value` packed on its own, at offset zero.
    pub fn pack_value<T: Pack>(value: &T) -> (bytes: Vec<u8>)
        requires
            T::fixed_len() + value.dyn_len() <= u32::MAX,
        ensures
            bytes@ == value.packed(0, zeros(T::fixed_len())),
    {
        proof {
            T::lemma_pack_bytes();
        }
        let mut this = Self::new(T::PACK_BYTES);
        value.pack(0, &mut this);
        this.finish()
    }
}

/// The buffer after `value` was appended to `buf` and the pointer to it
/// written at `offset`.
pub open spec fn packed_indirect(buf: Seq<u8>, offset: nat, value: Seq<u8>) -> Seq<u8> {
    let ptr = PackPointer { offset: buf.len() as u32, len: value.len() as u32 };
    write_at(buf + value, offset, ptr.wire())
}

/// The buffer after room for the fixed region of `value` was appended to
/// `buf`, the pointer to it written at `offset`, and `value` packed there.
pub open spec fn packed_nested<T: Pack>(buf: Seq<u8>, offset: nat, value: &T) -> Seq<u8> {
    let ptr = PackPointer { offset: buf.len() as u32, len: T::fixed_len() as u32 };
    value.packed(buf.len(), write_at(buf + zeros(T::fixed_len()), offset, ptr.wire()))
}

/// Writes `value` over the bytes of `bytes` from `offset` on.
pub fn pack_fixed_value(bytes: &mut Vec<u8>, offset: u32, value: &[u8])
    requires
        offset + value@.len() <= old(bytes)@.len(),
    ensures
        final(bytes)@ == write_at(old(bytes)@, offset as nat, value@),
{
    let _ = bytes.len();
    let mut i: usize = 0;
    while i < value.len()
        invariant
            i <= value@.len(),
            offset + value@.len() <= bytes@.len() <= usize::MAX,
            bytes@ == write_at(old(bytes)@, offset as nat, value@.take(i as int)),
        decreases value@.len() - i,
    {
        bytes[offset as usize + i] = value[i];
        i += 1;
        assert(bytes@ =~= write_at(old(bytes)@, offset as nat, value@.take(i as int)));
    }
    assert(value@.take(i as int) =~= value@);
}

/// Appends `value` to `bytes` and returns the pointer to it.
pub fn push_dynamic_value(bytes: &mut Vec<u8>, value: &[u8]) -> (ptr: PackPointer)
    requires
        old(bytes)@.len() + value@.len() <= u32::MAX,
    ensures
        final(bytes)@ == old(bytes)@ + value@,
        ptr.offset == old(bytes)@.len(),
        ptr.len == value@.len(),
{
    let offset = bytes.len() as u32;
    let len = value.len() as u32;
    bytes.extend_from_slice(value);
    assert(bytes@ =~= old(bytes)@ + value@);
    PackPointer { offset, len }
}

} // verus!

verus! {

/// A window onto a buffer through which the fields of one record are packed
/// by name.
pub struct FieldPacker<'b, 'f> {
    pub bytes: &'b mut BytePacker,
    pub format: &'f PackerFormat,
    pub offset: u32,
}

impl BytePacker {
    /// A packer of the fields of the record that starts at `offset`, laid
    /// out as `format` says.
    pub fn fields<'b, 'f>(&'b mut self, format: &'f PackerFormat, offset: u32) -> (fields:
        FieldPacker<'b, 'f>)
        ensures
            *fields.bytes == *old(self),
            *final(self) == *final(fields.bytes),
            fields.format == format,
            fields.offset == offset,
    {
        FieldPacker { bytes: self, format, offset }
    }
}

impl<'b, 'f> FieldPacker<'b, 'f> {
    /// Packs `value` into the slot of the field `name`. A name that the
    /// format does not know is passed over.
    pub fn pack<T: Pack + ?Sized>(&mut self, name: &str, value: &T)
        requires
            old(self).format.spec_field(name@) matches Some(field) ==> {
                &&& T::fixed_len() == 0 || field.pointer.len == T::fixed_len()
                &&& field.pointer.offset + old(self).offset + T::fixed_len() <= old(self).bytes@.len()
                &&& old(self).bytes@.len() + value.dyn_len() <= u32::MAX
            },
        ensures
            final(self).format == old(self).format,
            final(self).offset == old(self).offset,
            *final(final(self).bytes) == *final(old(self).bytes),
            final(self).bytes@ == match old(self).format.spec_field(name@) {
                Some(field) => value.packed(
                    (field.pointer.offset + old(self).offset) as nat,
                    old(self).bytes@,
                ),
                None => old(self).bytes@,
            },
    {
        let field = match self.format.field(name) {
            Some(field) => field,
            None => {
                return ;
            },
        };
        value.pack(field.pointer.offset + self.offset, self.bytes);
    }
}

} // verus!
