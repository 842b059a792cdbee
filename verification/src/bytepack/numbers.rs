//! Packing of integers and booleans: fixed width, big-endian.

use vstd::prelude::*;

use crate::bytepack::buffer::{keeps_packed, lemma_read_agrees, lemma_read_written, read_at, write_at};
use crate::bytepack::endian::{be_bytes, be_limit, be_value, from_be, to_be};
use crate::bytepack::endian::{lemma_be_bytes_len, lemma_be_limits, lemma_be_value_bound, lemma_be_value_of_bytes};
use crate::bytepack::pack::{Pack, RoundTrip, Unpack};
use crate::bytepack::pack_pointer::PackPointer;
use crate::bytepack::packer::BytePacker;
use crate::bytepack::unpacker::ByteUnpacker;

verus! {

/// The buffer after the number `value` was written at `offset`, as `width`
/// big-endian bytes.
pub open spec fn packed_uint(value: nat, width: nat, offset: nat, buf: Seq<u8>) -> Seq<u8> {
    write_at(buf, offset, be_bytes(value, width))
}

/// The number that the `width` bytes at `offset` spell, if they are there.
pub open spec fn unpacked_uint(width: nat, offset: nat, buf: Seq<u8>) -> Option<nat> {
    if offset + width <= buf.len() {
        Some(be_value(read_at(buf, offset, width)))
    } else {
        None
    }
}

/// The number that stands for the signed `value` in `width` bytes of two's
/// complement.
pub open spec fn twos_complement(value: int, width: nat) -> nat {
    if value < 0 {
        (value + be_limit(width)) as nat
    } else {
        value as nat
    }
}

/// The signed number that `value` stands for in `width` bytes of two's
/// complement.
pub open spec fn from_twos_complement(value: nat, width: nat) -> int {
    if 2 * value >= be_limit(width) {
        value - be_limit(width)
    } else {
        value as int
    }
}

/// Writes `value` at `offset`, as `width` big-endian bytes.
pub fn pack_uint(value: u128, width: u32, offset: u32, packer: &mut BytePacker)
    requires
        width <= 16,
        offset + width <= old(packer)@.len(),
    ensures
        final(packer)@ == packed_uint(value as nat, width as nat, offset as nat, old(packer)@),
{
    let bytes = to_be(value, width as usize);
    proof {
        lemma_be_bytes_len(value as nat, width as nat);
    }
    packer.pack_bytes(offset, bytes.as_slice());
}

/// Reads the number that the `width` bytes at `offset` spell.
pub fn unpack_uint(width: u32, offset: u32, unpacker: &ByteUnpacker) -> (value: Option<u128>)
    requires
        width <= 16,
    ensures
        value is Some == unpacked_uint(width as nat, offset as nat, unpacker@) is Some,
        value matches Some(v) ==> {
            &&& unpacked_uint(width as nat, offset as nat, unpacker@) == Some(v as nat)
            &&& v < be_limit(width as nat)
        },
{
    if offset as u64 + width as u64 > unpacker.len() as u64 {
        return None;
    }
    let bytes = unpacker.read_bytes(PackPointer { offset, len: width });
    proof {
        lemma_be_value_bound(bytes@);
        lemma_be_limits();
        crate::bytepack::endian::lemma_be_limit_monotone(width as nat, 16);
    }
    Some(from_be(bytes))
}

pub proof fn lemma_packed_uint(value: nat, width: nat, offset: nat, buf: Seq<u8>)
    requires
        offset + width <= buf.len(),
    ensures
        packed_uint(value, width, offset, buf).len() == buf.len(),
        crate::bytepack::buffer::changes_only_slot(
            buf,
            packed_uint(value, width, offset, buf),
            offset,
            width,
        ),
{
    lemma_be_bytes_len(value, width);
    lemma_read_written(buf, offset, be_bytes(value, width));
}

/// A number that fits its width is read back from where it was written.
pub proof fn lemma_uint_round_trip(
    value: nat,
    width: nat,
    offset: nat,
    buf: Seq<u8>,
    later: Seq<u8>,
)
    requires
        value < be_limit(width),
        offset + width <= buf.len(),
        keeps_packed(packed_uint(value, width, offset, buf), later, offset, width, buf.len()),
    ensures
        unpacked_uint(width, offset, later) == Some(value),
{
    lemma_be_bytes_len(value, width);
    lemma_read_written(buf, offset, be_bytes(value, width));
    lemma_read_agrees(packed_uint(value, width, offset, buf), later, offset, width);
    lemma_be_value_of_bytes(value, width);
}

impl Pack for u8 {
    const PACK_BYTES: u32 = 1;

    open spec fn fixed_len() -> nat {
        1
    }

    proof fn lemma_pack_bytes() {
    }

    open spec fn dyn_len(&self) -> nat {
        0
    }

    open spec fn packed(&self, offset: nat, buf: Seq<u8>) -> Seq<u8> {
        packed_uint(*self as nat, 1, offset, buf)
    }

    fn pack(&self, offset: u32, packer: &mut BytePacker) {
        pack_uint(*self as u128, 1, offset, packer);
    }

    proof fn lemma_packed(&self, offset: nat, buf: Seq<u8>) {
        lemma_packed_uint(*self as nat, 1, offset, buf);
    }
}

impl<'b> Unpack<'b> for u8 {
    open spec fn unpacked(offset: nat, buf: Seq<u8>) -> Option<u8> {
        match unpacked_uint(1, offset, buf) {
            Some(value) => Some(value as u8),
            None => None,
        }
    }

    fn unpack(offset: u32, unpacker: &ByteUnpacker<'b>) -> (value: Option<Self>) {
        proof {
            lemma_be_limits();
        }
        match unpack_uint(1, offset, unpacker) {
            Some(value) => Some(value as u8),
            None => None,
        }
    }
}

impl<'b> RoundTrip<'b> for u8 {
    open spec fn round_trips(&self) -> bool {
        true
    }

    proof fn lemma_round_trip(&self, offset: nat, buf: Seq<u8>, later: Seq<u8>) {
        lemma_be_limits();
        lemma_uint_round_trip(*self as nat, 1, offset, buf, later);
    }
}

impl Pack for u16 {
    const PACK_BYTES: u32 = 2;

    open spec fn fixed_len() -> nat {
        2
    }

    proof fn lemma_pack_bytes() {
    }

    open spec fn dyn_len(&self) -> nat {
        0
    }

    open spec fn packed(&self, offset: nat, buf: Seq<u8>) -> Seq<u8> {
        packed_uint(*self as nat, 2, offset, buf)
    }

    fn pack(&self, offset: u32, packer: &mut BytePacker) {
        pack_uint(*self as u128, 2, offset, packer);
    }

    proof fn lemma_packed(&self, offset: nat, buf: Seq<u8>) {
        lemma_packed_uint(*self as nat, 2, offset, buf);
    }
}

impl<'b> Unpack<'b> for u16 {
    open spec fn unpacked(offset: nat, buf: Seq<u8>) -> Option<u16> {
        match unpacked_uint(2, offset, buf) {
            Some(value) => Some(value as u16),
            None => None,
        }
    }

    fn unpack(offset: u32, unpacker: &ByteUnpacker<'b>) -> (value: Option<Self>) {
        proof {
            lemma_be_limits();
        }
        match unpack_uint(2, offset, unpacker) {
            Some(value) => Some(value as u16),
            None => None,
        }
    }
}

impl<'b> RoundTrip<'b> for u16 {
    open spec fn round_trips(&self) -> bool {
        true
    }

    proof fn lemma_round_trip(&self, offset: nat, buf: Seq<u8>, later: Seq<u8>) {
        lemma_be_limits();
        lemma_uint_round_trip(*self as nat, 2, offset, buf, later);
    }
}

impl Pack for u32 {
    const PACK_BYTES: u32 = 4;

    open spec fn fixed_len() -> nat {
        4
    }

    proof fn lemma_pack_bytes() {
    }

    open spec fn dyn_len(&self) -> nat {
        0
    }

    open spec fn packed(&self, offset: nat, buf: Seq<u8>) -> Seq<u8> {
        packed_uint(*self as nat, 4, offset, buf)
    }

    fn pack(&self, offset: u32, packer: &mut BytePacker) {
        pack_uint(*self as u128, 4, offset, packer);
    }

    proof fn lemma_packed(&self, offset: nat, buf: Seq<u8>) {
        lemma_packed_uint(*self as nat, 4, offset, buf);
    }
}

impl<'b> Unpack<'b> for u32 {
    open spec fn unpacked(offset: nat, buf: Seq<u8>) -> Option<u32> {
        match unpacked_uint(4, offset, buf) {
            Some(value) => Some(value as u32),
            None => None,
        }
    }

    fn unpack(offset: u32, unpacker: &ByteUnpacker<'b>) -> (value: Option<Self>) {
        proof {
            lemma_be_limits();
        }
        match unpack_uint(4, offset, unpacker) {
            Some(value) => Some(value as u32),
            None => None,
        }
    }
}

impl<'b> RoundTrip<'b> for u32 {
    open spec fn round_trips(&self) -> bool {
        true
    }

    proof fn lemma_round_trip(&self, offset: nat, buf: Seq<u8>, later: Seq<u8>) {
        lemma_be_limits();
        lemma_uint_round_trip(*self as nat, 4, offset, buf, later);
    }
}

impl Pack for u64 {
    const PACK_BYTES: u32 = 8;

    open spec fn fixed_len() -> nat {
        8
    }

    proof fn lemma_pack_bytes() {
    }

    open spec fn dyn_len(&self) -> nat {
        0
    }

    open spec fn packed(&self, offset: nat, buf: Seq<u8>) -> Seq<u8> {
        packed_uint(*self as nat, 8, offset, buf)
    }

    fn pack(&self, offset: u32, packer: &mut BytePacker) {
        pack_uint(*self as u128, 8, offset, packer);
    }

    proof fn lemma_packed(&self, offset: nat, buf: Seq<u8>) {
        lemma_packed_uint(*self as nat, 8, offset, buf);
    }
}

impl<'b> Unpack<'b> for u64 {
    open spec fn unpacked(offset: nat, buf: Seq<u8>) -> Option<u64> {
        match unpacked_uint(8, offset, buf) {
            Some(value) => Some(value as u64),
            None => None,
        }
    }

    fn unpack(offset: u32, unpacker: &ByteUnpacker<'b>) -> (value: Option<Self>) {
        proof {
            lemma_be_limits();
        }
        match unpack_uint(8, offset, unpacker) {
            Some(value) => Some(value as u64),
            None => None,
        }
    }
}

impl<'b> RoundTrip<'b> for u64 {
    open spec fn round_trips(&self) -> bool {
        true
    }

    proof fn lemma_round_trip(&self, offset: nat, buf: Seq<u8>, later: Seq<u8>) {
        lemma_be_limits();
        lemma_uint_round_trip(*self as nat, 8, offset, buf, later);
    }
}

impl Pack for u128 {
    const PACK_BYTES: u32 = 16;

    open spec fn fixed_len() -> nat {
        16
    }

    proof fn lemma_pack_bytes() {
    }

    open spec fn dyn_len(&self) -> nat {
        0
    }

    open spec fn packed(&self, offset: nat, buf: Seq<u8>) -> Seq<u8> {
        packed_uint(*self as nat, 16, offset, buf)
    }

    fn pack(&self, offset: u32, packer: &mut BytePacker) {
        pack_uint(*self as u128, 16, offset, packer);
    }

    proof fn lemma_packed(&self, offset: nat, buf: Seq<u8>) {
        lemma_packed_uint(*self as nat, 16, offset, buf);
    }
}

impl<'b> Unpack<'b> for u128 {
    open spec fn unpacked(offset: nat, buf: Seq<u8>) -> Option<u128> {
        match unpacked_uint(16, offset, buf) {
            Some(value) => Some(value as u128),
            None => None,
        }
    }

    fn unpack(offset: u32, unpacker: &ByteUnpacker<'b>) -> (value: Option<Self>) {
        proof {
            lemma_be_limits();
        }
        match unpack_uint(16, offset, unpacker) {
            Some(value) => Some(value as u128),
            None => None,
        }
    }
}

impl<'b> RoundTrip<'b> for u128 {
    open spec fn round_trips(&self) -> bool {
        true
    }

    proof fn lemma_round_trip(&self, offset: nat, buf: Seq<u8>, later: Seq<u8>) {
        lemma_be_limits();
        lemma_uint_round_trip(*self as nat, 16, offset, buf, later);
    }
}

impl Pack for i8 {
    const PACK_BYTES: u32 = 1;

    open spec fn fixed_len() -> nat {
        1
    }

    proof fn lemma_pack_bytes() {
    }

    open spec fn dyn_len(&self) -> nat {
        0
    }

    open spec fn packed(&self, offset: nat, buf: Seq<u8>) -> Seq<u8> {
        packed_uint(twos_complement(*self as int, 1), 1, offset, buf)
    }

    fn pack(&self, offset: u32, packer: &mut BytePacker) {
        proof {
            lemma_be_limits();
        }
        let value: u8 = if *self >= 0 {
            *self as u8
        } else {
            (*self + i8::MAX + 1) as u8 + 0x80
        };
        pack_uint(value as u128, 1, offset, packer);
    }

    proof fn lemma_packed(&self, offset: nat, buf: Seq<u8>) {
        lemma_packed_uint(twos_complement(*self as int, 1), 1, offset, buf);
    }
}

impl<'b> Unpack<'b> for i8 {
    open spec fn unpacked(offset: nat, buf: Seq<u8>) -> Option<i8> {
        match unpacked_uint(1, offset, buf) {
            Some(value) => Some(from_twos_complement(value, 1) as i8),
            None => None,
        }
    }

    fn unpack(offset: u32, unpacker: &ByteUnpacker<'b>) -> (value: Option<Self>) {
        proof {
            lemma_be_limits();
        }
        match unpack_uint(1, offset, unpacker) {
            Some(value) => {
                let value = value as u8;
                if value >= 0x80 {
                    Some((value - 0x80) as i8 + i8::MIN)
                } else {
                    Some(value as i8)
                }
            },
            None => None,
        }
    }
}

impl<'b> RoundTrip<'b> for i8 {
    open spec fn round_trips(&self) -> bool {
        true
    }

    proof fn lemma_round_trip(&self, offset: nat, buf: Seq<u8>, later: Seq<u8>) {
        lemma_be_limits();
        lemma_uint_round_trip(twos_complement(*self as int, 1), 1, offset, buf, later);
    }
}

impl Pack for i16 {
    const PACK_BYTES: u32 = 2;

    open spec fn fixed_len() -> nat {
        2
    }

    proof fn lemma_pack_bytes() {
    }

    open spec fn dyn_len(&self) -> nat {
        0
    }

    open spec fn packed(&self, offset: nat, buf: Seq<u8>) -> Seq<u8> {
        packed_uint(twos_complement(*self as int, 2), 2, offset, buf)
    }

    fn pack(&self, offset: u32, packer: &mut BytePacker) {
        proof {
            lemma_be_limits();
        }
        let value: u16 = if *self >= 0 {
            *self as u16
        } else {
            (*self + i16::MAX + 1) as u16 + 0x8000
        };
        pack_uint(value as u128, 2, offset, packer);
    }

    proof fn lemma_packed(&self, offset: nat, buf: Seq<u8>) {
        lemma_packed_uint(twos_complement(*self as int, 2), 2, offset, buf);
    }
}

impl<'b> Unpack<'b> for i16 {
    open spec fn unpacked(offset: nat, buf: Seq<u8>) -> Option<i16> {
        match unpacked_uint(2, offset, buf) {
            Some(value) => Some(from_twos_complement(value, 2) as i16),
            None => None,
        }
    }

    fn unpack(offset: u32, unpacker: &ByteUnpacker<'b>) -> (value: Option<Self>) {
        proof {
            lemma_be_limits();
        }
        match unpack_uint(2, offset, unpacker) {
            Some(value) => {
                let value = value as u16;
                if value >= 0x8000 {
                    Some((value - 0x8000) as i16 + i16::MIN)
                } else {
                    Some(value as i16)
                }
            },
            None => None,
        }
    }
}

impl<'b> RoundTrip<'b> for i16 {
    open spec fn round_trips(&self) -> bool {
        true
    }

    proof fn lemma_round_trip(&self, offset: nat, buf: Seq<u8>, later: Seq<u8>) {
        lemma_be_limits();
        lemma_uint_round_trip(twos_complement(*self as int, 2), 2, offset, buf, later);
    }
}

impl Pack for i32 {
    const PACK_BYTES: u32 = 4;

    open spec fn fixed_len() -> nat {
        4
    }

    proof fn lemma_pack_bytes() {
    }

    open spec fn dyn_len(&self) -> nat {
        0
    }

    open spec fn packed(&self, offset: nat, buf: Seq<u8>) -> Seq<u8> {
        packed_uint(twos_complement(*self as int, 4), 4, offset, buf)
    }

    fn pack(&self, offset: u32, packer: &mut BytePacker) {
        proof {
            lemma_be_limits();
        }
        let value: u32 = if *self >= 0 {
            *self as u32
        } else {
            (*self + i32::MAX + 1) as u32 + 0x8000_0000
        };
        pack_uint(value as u128, 4, offset, packer);
    }

    proof fn lemma_packed(&self, offset: nat, buf: Seq<u8>) {
        lemma_packed_uint(twos_complement(*self as int, 4), 4, offset, buf);
    }
}

impl<'b> Unpack<'b> for i32 {
    open spec fn unpacked(offset: nat, buf: Seq<u8>) -> Option<i32> {
        match unpacked_uint(4, offset, buf) {
            Some(value) => Some(from_twos_complement(value, 4) as i32),
            None => None,
        }
    }

    fn unpack(offset: u32, unpacker: &ByteUnpacker<'b>) -> (value: Option<Self>) {
        proof {
            lemma_be_limits();
        }
        match unpack_uint(4, offset, unpacker) {
            Some(value) => {
                let value = value as u32;
                if value >= 0x8000_0000 {
                    Some((value - 0x8000_0000) as i32 + i32::MIN)
                } else {
                    Some(value as i32)
                }
            },
            None => None,
        }
    }
}

impl<'b> RoundTrip<'b> for i32 {
    open spec fn round_trips(&self) -> bool {
        true
    }

    proof fn lemma_round_trip(&self, offset: nat, buf: Seq<u8>, later: Seq<u8>) {
        lemma_be_limits();
        lemma_uint_round_trip(twos_complement(*self as int, 4), 4, offset, buf, later);
    }
}

impl Pack for i64 {
    const PACK_BYTES: u32 = 8;

    open spec fn fixed_len() -> nat {
        8
    }

    proof fn lemma_pack_bytes() {
    }

    open spec fn dyn_len(&self) -> nat {
        0
    }

    open spec fn packed(&self, offset: nat, buf: Seq<u8>) -> Seq<u8> {
        packed_uint(twos_complement(*self as int, 8), 8, offset, buf)
    }

    fn pack(&self, offset: u32, packer: &mut BytePacker) {
        proof {
            lemma_be_limits();
        }
        let value: u64 = if *self >= 0 {
            *self as u64
        } else {
            (*self + i64::MAX + 1) as u64 + 0x8000_0000_0000_0000
        };
        pack_uint(value as u128, 8, offset, packer);
    }

    proof fn lemma_packed(&self, offset: nat, buf: Seq<u8>) {
        lemma_packed_uint(twos_complement(*self as int, 8), 8, offset, buf);
    }
}

impl<'b> Unpack<'b> for i64 {
    open spec fn unpacked(offset: nat, buf: Seq<u8>) -> Option<i64> {
        match unpacked_uint(8, offset, buf) {
            Some(value) => Some(from_twos_complement(value, 8) as i64),
            None => None,
        }
    }

    fn unpack(offset: u32, unpacker: &ByteUnpacker<'b>) -> (value: Option<Self>) {
        proof {
            lemma_be_limits();
        }
        match unpack_uint(8, offset, unpacker) {
            Some(value) => {
                let value = value as u64;
                if value >= 0x8000_0000_0000_0000 {
                    Some((value - 0x8000_0000_0000_0000) as i64 + i64::MIN)
                } else {
                    Some(value as i64)
                }
            },
            None => None,
        }
    }
}

impl<'b> RoundTrip<'b> for i64 {
    open spec fn round_trips(&self) -> bool {
        true
    }

    proof fn lemma_round_trip(&self, offset: nat, buf: Seq<u8>, later: Seq<u8>) {
        lemma_be_limits();
        lemma_uint_round_trip(twos_complement(*self as int, 8), 8, offset, buf, later);
    }
}

impl Pack for i128 {
    const PACK_BYTES: u32 = 16;

    open spec fn fixed_len() -> nat {
        16
    }

    proof fn lemma_pack_bytes() {
    }

    open spec fn dyn_len(&self) -> nat {
        0
    }

    open spec fn packed(&self, offset: nat, buf: Seq<u8>) -> Seq<u8> {
        packed_uint(twos_complement(*self as int, 16), 16, offset, buf)
    }

    fn pack(&self, offset: u32, packer: &mut BytePacker) {
        proof {
            lemma_be_limits();
        }
        let value: u128 = if *self >= 0 {
            *self as u128
        } else {
            (*self + i128::MAX + 1) as u128 + 0x8000_0000_0000_0000_0000_0000_0000_0000
        };
        pack_uint(value as u128, 16, offset, packer);
    }

    proof fn lemma_packed(&self, offset: nat, buf: Seq<u8>) {
        lemma_packed_uint(twos_complement(*self as int, 16), 16, offset, buf);
    }
}

impl<'b> Unpack<'b> for i128 {
    open spec fn unpacked(offset: nat, buf: Seq<u8>) -> Option<i128> {
        match unpacked_uint(16, offset, buf) {
            Some(value) => Some(from_twos_complement(value, 16) as i128),
            None => None,
        }
    }

    fn unpack(offset: u32, unpacker: &ByteUnpacker<'b>) -> (value: Option<Self>) {
        proof {
            lemma_be_limits();
        }
        match unpack_uint(16, offset, unpacker) {
            Some(value) => {
                let value = value as u128;
                if value >= 0x8000_0000_0000_0000_0000_0000_0000_0000 {
                    Some((value - 0x8000_0000_0000_0000_0000_0000_0000_0000) as i128 + i128::MIN)
                } else {
                    Some(value as i128)
                }
            },
            None => None,
        }
    }
}

impl<'b> RoundTrip<'b> for i128 {
    open spec fn round_trips(&self) -> bool {
        true
    }

    proof fn lemma_round_trip(&self, offset: nat, buf: Seq<u8>, later: Seq<u8>) {
        lemma_be_limits();
        lemma_uint_round_trip(twos_complement(*self as int, 16), 16, offset, buf, later);
    }
}

/// The byte that stands for a boolean.
pub open spec fn bool_byte(value: bool) -> Seq<u8> {
    seq![if value { 1u8 } else { 0u8 }]
}

impl Pack for bool {
    const PACK_BYTES: u32 = 1;

    open spec fn fixed_len() -> nat {
        1
    }

    proof fn lemma_pack_bytes() {
    }

    open spec fn dyn_len(&self) -> nat {
        0
    }

    open spec fn packed(&self, offset: nat, buf: Seq<u8>) -> Seq<u8> {
        write_at(buf, offset, bool_byte(*self))
    }

    fn pack(&self, offset: u32, packer: &mut BytePacker) {
        let v: [u8; 1] = if *self { [1u8] } else { [0u8] };
        assert(v@ =~= bool_byte(*self));
        packer.pack_bytes(offset, vstd::array::array_as_slice(&v));
    }

    proof fn lemma_packed(&self, offset: nat, buf: Seq<u8>) {
        lemma_read_written(buf, offset, bool_byte(*self));
    }
}

impl<'b> Unpack<'b> for bool {
    /// One byte, strictly zero or one: any other byte decodes to nothing.
    open spec fn unpacked(offset: nat, buf: Seq<u8>) -> Option<bool> {
        if offset + 1 <= buf.len() {
            if buf[offset as int] == 1 {
                Some(true)
            } else if buf[offset as int] == 0 {
                Some(false)
            } else {
                None
            }
        } else {
            None
        }
    }

    fn unpack(offset: u32, unpacker: &ByteUnpacker<'b>) -> (value: Option<Self>) {
        if offset as u64 + 1 > unpacker.len() as u64 {
            return None;
        }
        let bytes = unpacker.read_bytes(PackPointer { offset, len: 1 });
        let byte = bytes[0];
        if byte == 1 {
            Some(true)
        } else if byte == 0 {
            Some(false)
        } else {
            None
        }
    }
}

impl<'b> RoundTrip<'b> for bool {
    open spec fn round_trips(&self) -> bool {
        true
    }

    proof fn lemma_round_trip(&self, offset: nat, buf: Seq<u8>, later: Seq<u8>) {
        lemma_read_written(buf, offset, bool_byte(*self));
        let now = self.packed(offset, buf);
        assert(later[offset as int] == now[offset as int]);
    }
}

} // verus!
