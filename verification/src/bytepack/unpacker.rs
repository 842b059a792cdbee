//! Reading values back from a buffer.

use vstd::prelude::*;
use vstd::slice::slice_subrange;

use crate::bytepack::buffer::read_at;
use crate::bytepack::pack::Unpack;
use crate::bytepack::pack_pointer::PackPointer;
use crate::bytepack::packer_format::PackerFormat;

verus! {

/// A buffer that values are read from.
pub struct ByteUnpacker<'b> {
    bytes: &'b [u8],
}

impl<'b> View for ByteUnpacker<'b> {
    type V = Seq<u8>;

    closed spec fn view(&self) -> Seq<u8> {
        self.bytes@
    }
}

/// The bytes that the pointer stored at `offset` in `buf` points to, if a
/// pointer is there and its range lies within `buf`.
pub open spec fn indirect_bytes(buf: Seq<u8>, offset: nat) -> Option<Seq<u8>> {
    match PackPointer::read(buf, offset) {
        Some(ptr) => if ptr.offset + ptr.len <= buf.len() {
            Some(read_at(buf, ptr.offset as nat, ptr.len as nat))
        } else {
            None
        },
        None => None,
    }
}

impl<'b> ByteUnpacker<'b> {
    pub fn new(bytes: &'b [u8]) -> (unpacker: Self)
        ensures
            unpacker@ == bytes@,
    {
        ByteUnpacker { bytes }
    }

    /// The number of bytes in the buffer.
    pub fn len(&self) -> (len: usize)
        ensures
            len == self@.len(),
    {
        self.bytes.len()
    }

    /// The bytes that `ptr` points to.
    pub fn read_bytes(&self, ptr: PackPointer) -> (bytes: &'b [u8])
        requires
            ptr.offset + ptr.len <= self@.len(),
        ensures
            bytes@ == read_at(self@, ptr.offset as nat, ptr.len as nat),
    {
        read_fixed_value(self.bytes, ptr.offset, ptr.len)
    }

    /// The bytes that the pointer stored at `offset` points to.
    pub fn read_indirect(&self, offset: u32) -> (bytes: Option<&'b [u8]>)
        ensures
            bytes.deep_view() == indirect_bytes(self@, offset as nat),
    {
        match PackPointer::unpack(offset, self) {
            Some(ptr) => {
                if ptr.offset as u64 + ptr.len as u64 <= self.bytes.len() as u64 {
                    let bytes = self.read_bytes(ptr);
                    assert(bytes.deep_view() =~= bytes@);
                    Some(bytes)
                } else {
                    None
                }
            },
            None => None,
        }
    }
}

/// The `len` bytes of `bytes` from `offset` on.
pub fn read_fixed_value<'a>(bytes: &'a [u8], offset: u32, len: u32) -> (value: &'a [u8])
    requires
        offset + len <= bytes@.len(),
    ensures
        value@ == read_at(bytes@, offset as nat, len as nat),
{
    let _ = bytes.len();
    slice_subrange(bytes, offset as usize, offset as usize + len as usize)
}

} // verus!

verus! {

/// A window onto a buffer through which the fields of one record are read
/// by name.
pub struct FieldUnpacker<'b, 'f> {
    bytes: ByteUnpacker<'b>,
    format: &'f PackerFormat,
    offset: u32,
}

impl<'b> ByteUnpacker<'b> {
    /// An unpacker of the fields of the record that starts at `offset`, laid
    /// out as `format` says.
    pub fn fields<'f>(&self, format: &'f PackerFormat, offset: u32) -> (fields: FieldUnpacker<
        'b,
        'f,
    >)
        ensures
            fields@ == self@,
            fields.spec_format() == format,
            fields.spec_offset() == offset,
    {
        FieldUnpacker { bytes: ByteUnpacker { bytes: self.bytes }, format, offset }
    }
}

impl<'b, 'f> View for FieldUnpacker<'b, 'f> {
    type V = Seq<u8>;

    closed spec fn view(&self) -> Seq<u8> {
        self.bytes@
    }
}

impl<'b, 'f> FieldUnpacker<'b, 'f> {
    /// The layout that fields are found by.
    pub closed spec fn spec_format(&self) -> &'f PackerFormat {
        self.format
    }

    /// The offset at which the record starts.
    pub closed spec fn spec_offset(&self) -> u32 {
        self.offset
    }

    /// The value of the field `name`, if the format knows the name, the
    /// field's slot can be addressed, and the bytes there decode.
    pub open spec fn spec_unpack<T: Unpack<'b>>(&self, name: Seq<char>) -> Option<T::V> {
        match self.spec_format().spec_field(name) {
            Some(field) => if field.pointer.offset + self.spec_offset() > u32::MAX {
                None
            } else {
                T::unpacked((field.pointer.offset + self.spec_offset()) as nat, self@)
            },
            None => None,
        }
    }

    /// Reads the field `name`.
    pub fn unpack<T: Unpack<'b>>(&self, name: &str) -> (value: Option<T>)
        ensures
            value.deep_view() == self.spec_unpack::<T>(name@),
    {
        let field = match self.format.field(name) {
            Some(field) => field,
            None => {
                return None;
            },
        };
        if field.pointer.offset as u64 + self.offset as u64 > u32::MAX as u64 {
            return None;
        }
        T::unpack(field.pointer.offset + self.offset, &self.bytes)
    }
}

} // verus!
