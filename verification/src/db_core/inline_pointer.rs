//! Values that are told apart by a four-byte tag.
//!
//! A tag alone travels in the pointer itself, in place of a length, with an
//! offset of zero. A tag with a payload lies in the dynamic region, the tag
//! first and the payload right behind it.

use vstd::prelude::*;
use vstd::slice::slice_subrange;

use crate::bytepack::buffer::{changes_only_slot, keeps_packed, lemma_read_agrees, lemma_read_written};
use crate::bytepack::buffer::{read_at, write_at, zeros};
use crate::bytepack::endian::{be_bytes, be_value, lemma_be_bytes_of_value, lemma_be_limits, lemma_be_value_bound};
use crate::bytepack::pack::{Pack, RoundTrip, Unpack};
use crate::bytepack::pack_pointer::{lemma_pointer_wire, PackPointer};
use crate::bytepack::packer::BytePacker;
use crate::bytepack::unpacker::ByteUnpacker;

verus! {

/// A tagged value to pack.
#[allow(inconsistent_fields)]
pub enum InlinePointerPack<'a, T> {
    /// The tag alone.
    Inline { tag: [u8; 4] },
    /// The tag and raw bytes.
    Indirect { tag: [u8; 4], value: &'a [u8] },
    /// The tag and a packed value.
    Nested { tag: [u8; 4], value: &'a T },
}

/// What an [`InlinePointerPack`] stands for.
#[allow(inconsistent_fields)]
pub enum InlinePointerPackView<V> {
    Inline { tag: Seq<u8> },
    Indirect { tag: Seq<u8>, value: Seq<u8> },
    Nested { tag: Seq<u8>, value: V },
}

impl<'a, T: DeepView> DeepView for InlinePointerPack<'a, T> {
    type V = InlinePointerPackView<T::V>;

    open spec fn deep_view(&self) -> InlinePointerPackView<T::V> {
        match self {
            InlinePointerPack::Inline { tag } => InlinePointerPackView::Inline { tag: tag@ },
            InlinePointerPack::Indirect { tag, value } => InlinePointerPackView::Indirect {
                tag: tag@,
                value: value@,
            },
            InlinePointerPack::Nested { tag, value } => InlinePointerPackView::Nested {
                tag: tag@,
                value: value.deep_view(),
            },
        }
    }
}

/// The buffer after `tag` was written at `offset`, inline.
pub open spec fn packed_tag(tag: Seq<u8>, offset: nat, buf: Seq<u8>) -> Seq<u8> {
    write_at(buf, offset, zeros(4) + tag)
}

/// The buffer after `tag` and `value` were appended and the pointer to both
/// written at `offset`.
pub open spec fn packed_tagged_bytes(
    tag: Seq<u8>,
    value: Seq<u8>,
    offset: nat,
    buf: Seq<u8>,
) -> Seq<u8> {
    let ptr = PackPointer { offset: buf.len() as u32, len: (4 + value.len()) as u32 };
    write_at(buf + tag + value, offset, ptr.wire())
}

/// The buffer after `tag` was appended, `value` packed right behind it, and
/// the pointer to both written at `offset`.
pub open spec fn packed_tagged_value<T: Pack>(
    tag: Seq<u8>,
    value: &T,
    offset: nat,
    buf: Seq<u8>,
) -> Seq<u8> {
    let ptr = PackPointer { offset: buf.len() as u32, len: (4 + T::fixed_len()) as u32 };
    write_at(
        value.packed(buf.len() + 4, buf + tag + zeros(T::fixed_len())),
        offset,
        ptr.wire(),
    )
}

impl<'a, T: Pack> Pack for InlinePointerPack<'a, T> {
    const PACK_BYTES: u32 = 8;

    open spec fn fixed_len() -> nat {
        8
    }

    proof fn lemma_pack_bytes() {
    }

    open spec fn dyn_len(&self) -> nat {
        match self {
            InlinePointerPack::Inline { .. } => 0,
            InlinePointerPack::Indirect { value, .. } => 4 + value@.len(),
            InlinePointerPack::Nested { value, .. } => 4 + T::fixed_len() + value.dyn_len(),
        }
    }

    open spec fn packed(&self, offset: nat, buf: Seq<u8>) -> Seq<u8> {
        match self {
            InlinePointerPack::Inline { tag } => packed_tag(tag@, offset, buf),
            InlinePointerPack::Indirect { tag, value } => packed_tagged_bytes(
                tag@,
                value@,
                offset,
                buf,
            ),
            InlinePointerPack::Nested { tag, value } => packed_tagged_value(
                tag@,
                *value,
                offset,
                buf,
            ),
        }
    }

    fn pack(&self, offset: u32, packer: &mut BytePacker) {
        assert(Self::fixed_len() == 8);
        assert(self.dyn_len() == match self {
            InlinePointerPack::Inline { .. } => 0,
            InlinePointerPack::Indirect { value, .. } => 4 + value@.len(),
            InlinePointerPack::Nested { value, .. } => 4 + T::fixed_len() + value.dyn_len(),
        });
        assert(self.packed(offset as nat, packer@) == match self {
            InlinePointerPack::Inline { tag } => packed_tag(tag@, offset as nat, packer@),
            InlinePointerPack::Indirect { tag, value } => packed_tagged_bytes(
                tag@,
                value@,
                offset as nat,
                packer@,
            ),
            InlinePointerPack::Nested { tag, value } => packed_tagged_value(
                tag@,
                *value,
                offset as nat,
                packer@,
            ),
        });
        let pointer = match self {
            InlinePointerPack::Inline { tag } => {
                let pointer = PackPointer::inline(*tag);
                proof {
                    lemma_be_bytes_of_value(tag@);
                    crate::bytepack::generics::lemma_null_wire();
                    assert(pointer.wire() =~= zeros(4) + tag@) by {
                        reveal_with_fuel(be_bytes, 5);
                    }
                }
                pointer
            },
            InlinePointerPack::Indirect { tag, value } => {
                let tag_pointer = packer.push_dynamic(vstd::array::array_as_slice(tag));
                let value_pointer = packer.push_dynamic(value);
                PackPointer {
                    offset: tag_pointer.offset,
                    len: tag_pointer.len + value_pointer.len,
                }
            },
            InlinePointerPack::Nested { tag, value } => {
                proof {
                    T::lemma_pack_bytes();
                }
                let tag_pointer = packer.push_dynamic(vstd::array::array_as_slice(tag));
                let value_pointer = packer.reserve_dynamic_bytes(T::PACK_BYTES);
                value.pack(value_pointer.offset, packer);
                proof {
                    value.lemma_packed(
                        old(packer)@.len() + 4,
                        old(packer)@ + tag@ + zeros(T::fixed_len()),
                    );
                }
                PackPointer {
                    offset: tag_pointer.offset,
                    len: tag_pointer.len + value_pointer.len,
                }
            },
        };
        pointer.pack(offset, packer);
    }

    proof fn lemma_packed(&self, offset: nat, buf: Seq<u8>) {
        match self {
            InlinePointerPack::Inline { tag } => {
                lemma_read_written(buf, offset, zeros(4) + tag@);
            },
            InlinePointerPack::Indirect { tag, value } => {
                let ptr = PackPointer { offset: buf.len() as u32, len: (4 + value@.len()) as u32 };
                lemma_pointer_wire(ptr);
                lemma_read_written(buf + tag@ + value@, offset, ptr.wire());
            },
            InlinePointerPack::Nested { tag, value } => {
                let ptr = PackPointer {
                    offset: buf.len() as u32,
                    len: (4 + T::fixed_len()) as u32,
                };
                let grown = buf + tag@ + zeros(T::fixed_len());
                let inner = value.packed(buf.len() + 4, grown);
                lemma_pointer_wire(ptr);
                value.lemma_packed(buf.len() + 4, grown);
                lemma_read_written(inner, offset, ptr.wire());
                let after = self.packed(offset, buf);
                assert forall|i: int|
                    0 <= i < buf.len() && !(offset <= i < offset + 8) implies #[trigger] after[i]
                    == buf[i] by {
                    assert(after[i] == inner[i]);
                    assert(inner[i] == grown[i]);
                }
            },
        }
    }
}

/// A tagged value as it is found in a buffer.
pub enum InlinePointerUnpack<'a> {
    /// The tag alone.
    Inline { tag: [u8; 4] },
    /// The tag, the bytes behind it, and the offset at which they begin.
    Indirect { tag: [u8; 4], value: &'a [u8], value_offset: u32 },
}

/// What an [`InlinePointerUnpack`] stands for.
pub enum InlinePointerUnpackView {
    Inline { tag: Seq<u8> },
    Indirect { tag: Seq<u8>, value: Seq<u8>, value_offset: u32 },
}

impl<'a> DeepView for InlinePointerUnpack<'a> {
    type V = InlinePointerUnpackView;

    open spec fn deep_view(&self) -> InlinePointerUnpackView {
        match self {
            InlinePointerUnpack::Inline { tag } => InlinePointerUnpackView::Inline { tag: tag@ },
            InlinePointerUnpack::Indirect { tag, value, value_offset } => {
                InlinePointerUnpackView::Indirect {
                    tag: tag@,
                    value: value@,
                    value_offset: *value_offset,
                }
            },
        }
    }
}

/// The tagged value stored at `offset` in `buf`. A pointer with offset zero
/// is a tag alone. Any other pointer must point to at least the four bytes
/// of a tag, within the buffer, and what follows must be addressable.
pub open spec fn unpacked_tagged(offset: nat, buf: Seq<u8>) -> Option<InlinePointerUnpackView> {
    match PackPointer::read(buf, offset) {
        Some(ptr) => if ptr.offset == 0 {
            Some(InlinePointerUnpackView::Inline { tag: be_bytes(ptr.len as nat, 4) })
        } else if ptr.offset + ptr.len <= buf.len() && ptr.len >= 4 && ptr.offset + 4
            <= u32::MAX {
            Some(
                InlinePointerUnpackView::Indirect {
                    tag: read_at(buf, ptr.offset as nat, 4),
                    value: read_at(buf, (ptr.offset + 4) as nat, (ptr.len - 4) as nat),
                    value_offset: (ptr.offset + 4) as u32,
                },
            )
        } else {
            None
        },
        None => None,
    }
}

impl<'b> Unpack<'b> for InlinePointerUnpack<'b> {
    open spec fn unpacked(offset: nat, buf: Seq<u8>) -> Option<InlinePointerUnpackView> {
        unpacked_tagged(offset, buf)
    }

    fn unpack(offset: u32, unpacker: &ByteUnpacker<'b>) -> (value: Option<Self>) {
        assert(Self::unpacked(offset as nat, unpacker@) == unpacked_tagged(offset as nat, unpacker@));
        let pointer = match PackPointer::unpack(offset, unpacker) {
            Some(pointer) => pointer,
            None => {
                return None;
            },
        };
        match pointer.inline_tag() {
            Some(tag) => {
                let found = InlinePointerUnpack::Inline { tag };
                assert(found.deep_view() == InlinePointerUnpackView::Inline { tag: tag@ });
                Some(found)
            },
            None => {
                if pointer.offset as u64 + pointer.len as u64 > unpacker.len() as u64
                    || pointer.len < 4 || pointer.offset > u32::MAX - 4 {
                    return None;
                }
                let value = unpacker.read_bytes(pointer);
                let tag: [u8; 4] = [value[0], value[1], value[2], value[3]];
                let rest = slice_subrange(value, 4, value.len());
                proof {
                    assert(tag@ =~= read_at(unpacker@, pointer.offset as nat, 4));
                    assert(rest@ =~= read_at(
                        unpacker@,
                        (pointer.offset + 4) as nat,
                        (pointer.len - 4) as nat,
                    ));
                }
                let found = InlinePointerUnpack::Indirect {
                    tag,
                    value: rest,
                    value_offset: (pointer.offset + 4) as u32,
                };
                assert(found.deep_view() == InlinePointerUnpackView::Indirect {
                    tag: tag@,
                    value: rest@,
                    value_offset: (pointer.offset + 4) as u32,
                });
                Some(found)
            },
        }
    }
}

/// A tag packed alone is read back alone.
pub proof fn lemma_tag_round_trip(tag: Seq<u8>, offset: nat, buf: Seq<u8>, later: Seq<u8>)
    requires
        tag.len() == 4,
        offset + 8 <= buf.len(),
        keeps_packed(packed_tag(tag, offset, buf), later, offset, 8, buf.len()),
    ensures
        unpacked_tagged(offset, later) == Some(InlinePointerUnpackView::Inline { tag }),
{
    let ptr = PackPointer { offset: 0, len: be_value(tag) as u32 };
    lemma_be_value_bound(tag);
    lemma_be_limits();
    lemma_be_bytes_of_value(tag);
    lemma_pointer_wire(ptr);
    assert(ptr.wire() =~= zeros(4) + tag) by {
        reveal_with_fuel(be_bytes, 5);
    }
    lemma_read_written(buf, offset, zeros(4) + tag);
    lemma_read_agrees(packed_tag(tag, offset, buf), later, offset, 8);
}

/// A tag packed with bytes is read back with them.
pub proof fn lemma_tagged_bytes_round_trip(
    tag: Seq<u8>,
    value: Seq<u8>,
    offset: nat,
    buf: Seq<u8>,
    later: Seq<u8>,
)
    requires
        tag.len() == 4,
        offset + 8 <= buf.len(),
        buf.len() + 4 + value.len() <= u32::MAX,
        keeps_packed(packed_tagged_bytes(tag, value, offset, buf), later, offset, 8, buf.len()),
    ensures
        unpacked_tagged(offset, later) == Some(
            InlinePointerUnpackView::Indirect {
                tag,
                value,
                value_offset: (buf.len() + 4) as u32,
            },
        ),
{
    let ptr = PackPointer { offset: buf.len() as u32, len: (4 + value.len()) as u32 };
    let now = packed_tagged_bytes(tag, value, offset, buf);
    lemma_pointer_wire(ptr);
    lemma_read_written(buf + tag + value, offset, ptr.wire());
    lemma_read_agrees(now, later, offset, 8);
    assert(PackPointer::read(later, offset) == Some(ptr));
    assert(read_at(later, ptr.offset as nat, 4) =~= tag);
    assert(read_at(later, (ptr.offset + 4) as nat, (ptr.len - 4) as nat) =~= value);
}

/// A tag packed with a value is read back, and the value is found right
/// behind the tag.
pub proof fn lemma_tagged_value_round_trip<'b, T: RoundTrip<'b>>(
    tag: Seq<u8>,
    value: &T,
    offset: nat,
    buf: Seq<u8>,
    later: Seq<u8>,
)
    requires
        tag.len() == 4,
        value.round_trips(),
        offset + 8 <= buf.len(),
        buf.len() + 4 + T::fixed_len() + value.dyn_len() <= u32::MAX,
        keeps_packed(packed_tagged_value(tag, value, offset, buf), later, offset, 8, buf.len()),
    ensures
        unpacked_tagged(offset, later) matches Some(
            InlinePointerUnpackView::Indirect { tag: found, value: _, value_offset },
        ) && found == tag && value_offset == buf.len() + 4,
        T::unpacked(buf.len() + 4, later) == Some(value.deep_view()),
{
    let ptr = PackPointer { offset: buf.len() as u32, len: (4 + T::fixed_len()) as u32 };
    let grown = buf + tag + zeros(T::fixed_len());
    let inner = value.packed(buf.len() + 4, grown);
    let now = packed_tagged_value(tag, value, offset, buf);
    lemma_pointer_wire(ptr);
    value.lemma_packed(buf.len() + 4, grown);
    lemma_read_written(inner, offset, ptr.wire());
    lemma_read_agrees(now, later, offset, 8);
    assert(PackPointer::read(later, offset) == Some(ptr));
    assert(read_at(later, ptr.offset as nat, 4) =~= tag) by {
        assert forall|i: int| buf.len() <= i < buf.len() + 4 implies later[i] == tag[i
            - buf.len()] by {
            assert(later[i] == now[i]);
            assert(now[i] == inner[i]);
            assert(inner[i] == grown[i]);
        }
    }
    assert forall|i: int| buf.len() + 4 <= i < inner.len() implies #[trigger] later[i]
        == inner[i] by {
        assert(later[i] == now[i]);
    }
    value.lemma_round_trip(buf.len() + 4, grown, later);
}

} // verus!
