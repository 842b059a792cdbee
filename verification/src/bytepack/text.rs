//! Packing of text and byte strings: a pointer in the fixed region, the bytes
//! themselves in the dynamic region.

use vstd::prelude::*;
use vstd::string::StringSliceAdditionalSpecFns;
use vstd::utf8::{decode_utf8, encode_utf8, valid_utf8};
use vstd::utf8::{encode_utf8_decode_utf8, encode_utf8_valid_utf8};

use crate::bytepack::buffer::{changes_only_slot, keeps_packed, lemma_read_agrees, lemma_read_written};
use crate::bytepack::pack::{Pack, RoundTrip, Unpack};
use crate::bytepack::pack_pointer::{lemma_pointer_wire, PackPointer};
use crate::bytepack::packer::{packed_indirect, BytePacker};
use crate::bytepack::unpacker::{indirect_bytes, ByteUnpacker};

verus! {

/// `String::from_utf8` of the standard library: the text that `bytes` spell
/// in UTF-8, and nothing if they are not valid UTF-8.
#[verifier::external_body]
pub(crate) fn string_from_utf8(bytes: Vec<u8>) -> (text: Option<String>)
    ensures
        text is Some == valid_utf8(bytes@),
        text matches Some(t) ==> t@ == decode_utf8(bytes@),
{
    match String::from_utf8(bytes) {
        Ok(text) => Some(text),
        Err(_) => None,
    }
}

/// `core::str::from_utf8` of the standard library: the text that `bytes`
/// spell in UTF-8, borrowed from them, and nothing if they are not valid
/// UTF-8.
#[verifier::external_body]
pub(crate) fn str_from_utf8<'a>(bytes: &'a [u8]) -> (text: Option<&'a str>)
    ensures
        text is Some == valid_utf8(bytes@),
        text matches Some(t) ==> t@ == decode_utf8(bytes@),
{
    match core::str::from_utf8(bytes) {
        Ok(text) => Some(text),
        Err(_) => None,
    }
}

/// The text that the pointer stored at `offset` in `buf` points to, if a
/// pointer is there, its range lies within `buf`, and the bytes are UTF-8.
pub open spec fn unpacked_text(offset: nat, buf: Seq<u8>) -> Option<Seq<char>> {
    match indirect_bytes(buf, offset) {
        Some(bytes) => if valid_utf8(bytes) {
            Some(decode_utf8(bytes))
        } else {
            None
        },
        None => None,
    }
}

/// Appending bytes and writing the pointer to them changes nothing else.
pub proof fn lemma_packed_indirect(buf: Seq<u8>, offset: nat, value: Seq<u8>)
    requires
        offset + 8 <= buf.len(),
    ensures
        packed_indirect(buf, offset, value).len() == buf.len() + value.len(),
        changes_only_slot(buf, packed_indirect(buf, offset, value), offset, 8),
{
    let ptr = PackPointer { offset: buf.len() as u32, len: value.len() as u32 };
    lemma_pointer_wire(ptr);
    lemma_read_written(buf + value, offset, ptr.wire());
}

/// Bytes packed behind a pointer are read back through it.
pub proof fn lemma_indirect_round_trip(buf: Seq<u8>, offset: nat, value: Seq<u8>, later: Seq<u8>)
    requires
        offset + 8 <= buf.len(),
        buf.len() + value.len() <= u32::MAX,
        keeps_packed(packed_indirect(buf, offset, value), later, offset, 8, buf.len()),
    ensures
        indirect_bytes(later, offset) == Some(value),
{
    let ptr = PackPointer { offset: buf.len() as u32, len: value.len() as u32 };
    let now = packed_indirect(buf, offset, value);
    lemma_pointer_wire(ptr);
    lemma_read_written(buf + value, offset, ptr.wire());
    lemma_read_agrees(now, later, offset, 8);
    assert(PackPointer::read(later, offset) == Some(ptr));
    assert(indirect_bytes(later, offset)->0 =~= value);
}

/// Text is read back from where it was packed.
pub proof fn lemma_text_round_trip(buf: Seq<u8>, offset: nat, text: Seq<char>, later: Seq<u8>)
    requires
        offset + 8 <= buf.len(),
        buf.len() + encode_utf8(text).len() <= u32::MAX,
        keeps_packed(packed_indirect(buf, offset, encode_utf8(text)), later, offset, 8, buf.len()),
    ensures
        unpacked_text(offset, later) == Some(text),
{
    lemma_indirect_round_trip(buf, offset, encode_utf8(text), later);
    encode_utf8_valid_utf8(text);
    encode_utf8_decode_utf8(text);
}

impl Pack for str {
    const PACK_BYTES: u32 = 8;

    open spec fn fixed_len() -> nat {
        8
    }

    proof fn lemma_pack_bytes() {
    }

    open spec fn dyn_len(&self) -> nat {
        encode_utf8(self@).len()
    }

    open spec fn packed(&self, offset: nat, buf: Seq<u8>) -> Seq<u8> {
        packed_indirect(buf, offset, encode_utf8(self@))
    }

    fn pack(&self, offset: u32, packer: &mut BytePacker) {
        packer.pack_bytes_indirect(offset, self.as_bytes());
    }

    proof fn lemma_packed(&self, offset: nat, buf: Seq<u8>) {
        lemma_packed_indirect(buf, offset, encode_utf8(self@));
    }
}

impl<'b> Unpack<'b> for &'b str {
    open spec fn unpacked(offset: nat, buf: Seq<u8>) -> Option<Seq<char>> {
        unpacked_text(offset, buf)
    }

    fn unpack(offset: u32, unpacker: &ByteUnpacker<'b>) -> (value: Option<Self>) {
        match unpacker.read_indirect(offset) {
            Some(bytes) => {
                assert(bytes.deep_view() =~= bytes@);
                str_from_utf8(bytes)
            },
            None => None,
        }
    }
}

impl Pack for String {
    const PACK_BYTES: u32 = 8;

    open spec fn fixed_len() -> nat {
        8
    }

    proof fn lemma_pack_bytes() {
    }

    open spec fn dyn_len(&self) -> nat {
        encode_utf8(self@).len()
    }

    open spec fn packed(&self, offset: nat, buf: Seq<u8>) -> Seq<u8> {
        packed_indirect(buf, offset, encode_utf8(self@))
    }

    fn pack(&self, offset: u32, packer: &mut BytePacker) {
        packer.pack_bytes_indirect(offset, self.as_str().as_bytes());
    }

    proof fn lemma_packed(&self, offset: nat, buf: Seq<u8>) {
        lemma_packed_indirect(buf, offset, encode_utf8(self@));
    }
}

impl<'b> Unpack<'b> for String {
    open spec fn unpacked(offset: nat, buf: Seq<u8>) -> Option<Seq<char>> {
        unpacked_text(offset, buf)
    }

    fn unpack(offset: u32, unpacker: &ByteUnpacker<'b>) -> (value: Option<Self>) {
        match unpacker.read_indirect(offset) {
            Some(bytes) => {
                assert(bytes.deep_view() =~= bytes@);
                string_from_utf8(vstd::slice::slice_to_vec(bytes))
            },
            None => None,
        }
    }
}

impl<'b> RoundTrip<'b> for String {
    open spec fn round_trips(&self) -> bool {
        true
    }

    proof fn lemma_round_trip(&self, offset: nat, buf: Seq<u8>, later: Seq<u8>) {
        lemma_text_round_trip(buf, offset, self@, later);
    }
}

impl Pack for [u8] {
    const PACK_BYTES: u32 = 8;

    open spec fn fixed_len() -> nat {
        8
    }

    proof fn lemma_pack_bytes() {
    }

    open spec fn dyn_len(&self) -> nat {
        self@.len()
    }

    open spec fn packed(&self, offset: nat, buf: Seq<u8>) -> Seq<u8> {
        packed_indirect(buf, offset, self@)
    }

    fn pack(&self, offset: u32, packer: &mut BytePacker) {
        packer.pack_bytes_indirect(offset, self);
    }

    proof fn lemma_packed(&self, offset: nat, buf: Seq<u8>) {
        lemma_packed_indirect(buf, offset, self@);
    }
}

impl<'b> Unpack<'b> for &'b [u8] {
    open spec fn unpacked(offset: nat, buf: Seq<u8>) -> Option<Seq<u8>> {
        indirect_bytes(buf, offset)
    }

    fn unpack(offset: u32, unpacker: &ByteUnpacker<'b>) -> (value: Option<Self>) {
        unpacker.read_indirect(offset)
    }
}

} // verus!
