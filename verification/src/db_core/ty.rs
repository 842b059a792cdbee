//! The types of fields and of expressions.

use vstd::prelude::*;
use vstd::utf8::{decode_utf8, encode_utf8, encode_utf8_decode_utf8, encode_utf8_valid_utf8, valid_utf8};

use vstd::std_specs::convert::FromSpecImpl;

use crate::bytepack::pack::{Pack, RoundTrip, Unpack};
use crate::bytepack::packer::BytePacker;
use crate::bytepack::text::string_from_utf8;
use crate::bytepack::unpacker::ByteUnpacker;
use crate::db_core::defs::table::{TableData, TableDataView};
use crate::db_core::inline_pointer::{lemma_tag_round_trip, lemma_tagged_bytes_round_trip};
use crate::db_core::inline_pointer::{packed_tag, packed_tagged_bytes, unpacked_tagged};
use crate::db_core::inline_pointer::{InlinePointerPack, InlinePointerUnpack, InlinePointerUnpackView};
use crate::db_core::named::{Named, NamedView};
use crate::names::str_eq;

verus! {

/// The type of a field: one of a closed set.
#[derive(Debug, PartialEq, Eq, Hash)]
pub enum FieldTy {
    IntI32,
    Bool,
    Timestamp,
    Text,
    /// A reference to a record of the table named.
    RecordId { table_name: String },
}

/// What a [`FieldTy`] stands for.
pub enum FieldTyView {
    IntI32,
    Bool,
    Timestamp,
    Text,
    RecordId { table_name: Seq<char> },
}

impl DeepView for FieldTy {
    type V = FieldTyView;

    open spec fn deep_view(&self) -> FieldTyView {
        match self {
            FieldTy::IntI32 => FieldTyView::IntI32,
            FieldTy::Bool => FieldTyView::Bool,
            FieldTy::Timestamp => FieldTyView::Timestamp,
            FieldTy::Text => FieldTyView::Text,
            FieldTy::RecordId { table_name } => FieldTyView::RecordId { table_name: table_name@ },
        }
    }
}

impl FieldTyView {
    /// The size of the fixed region of a field of this type.
    pub open spec fn byte_count(self) -> u32 {
        match self {
            FieldTyView::IntI32 => 4,
            FieldTyView::Bool => 1,
            FieldTyView::Timestamp => 8,
            FieldTyView::Text => 8,
            FieldTyView::RecordId { .. } => 16,
        }
    }

    /// The tag that spells this type in a buffer.
    pub open spec fn tag(self) -> Seq<u8> {
        match self {
            FieldTyView::IntI32 => seq![0x69u8, 0x33u8, 0x32u8, 0x20u8],
            FieldTyView::Bool => seq![0x62u8, 0x6fu8, 0x6fu8, 0x6cu8],
            FieldTyView::Timestamp => seq![0x74u8, 0x73u8, 0x74u8, 0x70u8],
            FieldTyView::Text => seq![0x74u8, 0x65u8, 0x78u8, 0x74u8],
            FieldTyView::RecordId { .. } => seq![0x72u8, 0x63u8, 0x72u8, 0x64u8],
        }
    }

    /// The type that a tag without payload spells.
    pub open spec fn of_inline_tag(tag: Seq<u8>) -> Option<FieldTyView> {
        if tag == FieldTyView::IntI32.tag() {
            Some(FieldTyView::IntI32)
        } else if tag == FieldTyView::Bool.tag() {
            Some(FieldTyView::Bool)
        } else if tag == FieldTyView::Timestamp.tag() {
            Some(FieldTyView::Timestamp)
        } else if tag == FieldTyView::Text.tag() {
            Some(FieldTyView::Text)
        } else {
            None
        }
    }

    /// The type that a tag with a payload of raw bytes spells.
    pub open spec fn of_indirect_tag(tag: Seq<u8>, value: Seq<u8>) -> Option<FieldTyView> {
        if tag == (FieldTyView::RecordId { table_name: Seq::empty() }).tag() && valid_utf8(value) {
            Some(FieldTyView::RecordId { table_name: decode_utf8(value) })
        } else {
            None
        }
    }
}

/// Whether `tag` is the four bytes given.
pub fn tag_is(tag: &[u8; 4], b0: u8, b1: u8, b2: u8, b3: u8) -> (same: bool)
    ensures
        same == (tag@ == seq![b0, b1, b2, b3]),
{
    let same = tag[0] == b0 && tag[1] == b1 && tag[2] == b2 && tag[3] == b3;
    proof {
        if same {
            assert(tag@ =~= seq![b0, b1, b2, b3]);
        } else {
            let other = seq![b0, b1, b2, b3];
            assert(other[0] == b0 && other[1] == b1 && other[2] == b2 && other[3] == b3);
        }
    }
    same
}

impl FieldTy {
    /// The size of the fixed region of a field of this type: four bytes for
    /// an integer, one for a boolean, eight for a timestamp, eight (a
    /// pointer) for text, sixteen for a record reference.
    pub fn byte_count(&self) -> (count: u32)
        ensures
            count == self.deep_view().byte_count(),
    {
        match self {
            FieldTy::IntI32 => 4,
            FieldTy::Bool => 1,
            FieldTy::Timestamp => 8,
            FieldTy::Text => 8,
            FieldTy::RecordId { .. } => 16,
        }
    }

    /// Whether two types are the same.
    pub fn same(&self, other: &FieldTy) -> (same: bool)
        ensures
            same == (self.deep_view() == other.deep_view()),
    {
        match (self, other) {
            (FieldTy::IntI32, FieldTy::IntI32) => true,
            (FieldTy::Bool, FieldTy::Bool) => true,
            (FieldTy::Timestamp, FieldTy::Timestamp) => true,
            (FieldTy::Text, FieldTy::Text) => true,
            (FieldTy::RecordId { table_name: a }, FieldTy::RecordId { table_name: b }) => str_eq(
                a.as_str(),
                b.as_str(),
            ),
            _ => false,
        }
    }

    /// The tag that spells this type in a buffer.
    pub fn tag(&self) -> (tag: [u8; 4])
        ensures
            tag@ == self.deep_view().tag(),
    {
        let tag: [u8; 4] = match self {
            FieldTy::IntI32 => [0x69, 0x33, 0x32, 0x20],
            FieldTy::Bool => [0x62, 0x6f, 0x6f, 0x6c],
            FieldTy::Timestamp => [0x74, 0x73, 0x74, 0x70],
            FieldTy::Text => [0x74, 0x65, 0x78, 0x74],
            FieldTy::RecordId { .. } => [0x72, 0x63, 0x72, 0x64],
        };
        assert(tag@ =~= self.deep_view().tag());
        tag
    }
}

impl Clone for FieldTy {
    fn clone(&self) -> (copy: Self)
        ensures
            copy.deep_view() == self.deep_view(),
    {
        match self {
            FieldTy::IntI32 => FieldTy::IntI32,
            FieldTy::Bool => FieldTy::Bool,
            FieldTy::Timestamp => FieldTy::Timestamp,
            FieldTy::Text => FieldTy::Text,
            FieldTy::RecordId { table_name } => FieldTy::RecordId { table_name: table_name.clone() },
        }
    }
}

impl Pack for FieldTy {
    const PACK_BYTES: u32 = 8;

    open spec fn fixed_len() -> nat {
        8
    }

    proof fn lemma_pack_bytes() {
    }

    open spec fn dyn_len(&self) -> nat {
        match self {
            FieldTy::RecordId { table_name } => 4 + encode_utf8(table_name@).len(),
            _ => 0,
        }
    }

    /// A type without parameters is its tag alone; a record reference is its
    /// tag and the name of the table referred to.
    open spec fn packed(&self, offset: nat, buf: Seq<u8>) -> Seq<u8> {
        match self {
            FieldTy::RecordId { table_name } => packed_tagged_bytes(
                self.deep_view().tag(),
                encode_utf8(table_name@),
                offset,
                buf,
            ),
            _ => packed_tag(self.deep_view().tag(), offset, buf),
        }
    }

    fn pack(&self, offset: u32, packer: &mut BytePacker) {
        let tag = self.tag();
        let pointer: InlinePointerPack<'_, u8> = match self {
            FieldTy::RecordId { table_name } => InlinePointerPack::Indirect {
                tag,
                value: table_name.as_str().as_bytes(),
            },
            _ => InlinePointerPack::Inline { tag },
        };
        pointer.pack(offset, packer);
    }

    proof fn lemma_packed(&self, offset: nat, buf: Seq<u8>) {
        match self {
            FieldTy::RecordId { table_name } => {
                lemma_field_ty_tags(self.deep_view());
                lemma_packed_tagged_bytes(
                    self.deep_view().tag(),
                    encode_utf8(table_name@),
                    offset,
                    buf,
                );
            },
            _ => {
                crate::bytepack::buffer::lemma_read_written(
                    buf,
                    offset,
                    crate::bytepack::buffer::zeros(4) + self.deep_view().tag(),
                );
            },
        }
    }
}

/// Appending a tag and bytes and writing the pointer to them changes nothing
/// else.
pub proof fn lemma_packed_tagged_bytes(tag: Seq<u8>, value: Seq<u8>, offset: nat, buf: Seq<u8>)
    requires
        tag.len() == 4,
        offset + 8 <= buf.len(),
    ensures
        packed_tagged_bytes(tag, value, offset, buf).len() == buf.len() + 4 + value.len(),
        crate::bytepack::buffer::changes_only_slot(
            buf,
            packed_tagged_bytes(tag, value, offset, buf),
            offset,
            8,
        ),
{
    let ptr = crate::bytepack::pack_pointer::PackPointer {
        offset: buf.len() as u32,
        len: (4 + value.len()) as u32,
    };
    crate::bytepack::pack_pointer::lemma_pointer_wire(ptr);
    crate::bytepack::buffer::lemma_read_written(buf + tag + value, offset, ptr.wire());
}

impl<'b> Unpack<'b> for FieldTy {
    open spec fn unpacked(offset: nat, buf: Seq<u8>) -> Option<FieldTyView> {
        match unpacked_tagged(offset, buf) {
            Some(InlinePointerUnpackView::Inline { tag }) => FieldTyView::of_inline_tag(tag),
            Some(InlinePointerUnpackView::Indirect { tag, value, .. }) => {
                FieldTyView::of_indirect_tag(tag, value)
            },
            None => None,
        }
    }

    fn unpack(offset: u32, unpacker: &ByteUnpacker<'b>) -> (value: Option<Self>) {
        let pointer = match InlinePointerUnpack::unpack(offset, unpacker) {
            Some(pointer) => pointer,
            None => {
                return None;
            },
        };
        match pointer {
            InlinePointerUnpack::Inline { tag } => {
                if tag_is(&tag, 0x69, 0x33, 0x32, 0x20) {
                    Some(FieldTy::IntI32)
                } else if tag_is(&tag, 0x62, 0x6f, 0x6f, 0x6c) {
                    Some(FieldTy::Bool)
                } else if tag_is(&tag, 0x74, 0x73, 0x74, 0x70) {
                    Some(FieldTy::Timestamp)
                } else if tag_is(&tag, 0x74, 0x65, 0x78, 0x74) {
                    Some(FieldTy::Text)
                } else {
                    None
                }
            },
            InlinePointerUnpack::Indirect { tag, value, value_offset: _ } => {
                if tag_is(&tag, 0x72, 0x63, 0x72, 0x64) {
                    match string_from_utf8(vstd::slice::slice_to_vec(value)) {
                        Some(table_name) => Some(FieldTy::RecordId { table_name }),
                        None => None,
                    }
                } else {
                    None
                }
            },
        }
    }
}

/// The tags of the field types are four bytes each, and no two are the same.
pub proof fn lemma_field_ty_tags(ty: FieldTyView)
    ensures
        ty.tag().len() == 4,
        !(ty is RecordId) ==> FieldTyView::of_inline_tag(ty.tag()) == Some(ty),
{
    let a = FieldTyView::IntI32.tag();
    let b = FieldTyView::Bool.tag();
    let c = FieldTyView::Timestamp.tag();
    let d = FieldTyView::Text.tag();
    assert(a[0] == 0x69 && b[0] == 0x62 && c[0] == 0x74 && d[0] == 0x74);
    assert(c[1] == 0x73 && d[1] == 0x65);
}

impl<'b> RoundTrip<'b> for FieldTy {
    open spec fn round_trips(&self) -> bool {
        true
    }

    proof fn lemma_round_trip(&self, offset: nat, buf: Seq<u8>, later: Seq<u8>) {
        lemma_field_ty_tags(self.deep_view());
        match self {
            FieldTy::RecordId { table_name } => {
                lemma_tagged_bytes_round_trip(
                    self.deep_view().tag(),
                    encode_utf8(table_name@),
                    offset,
                    buf,
                    later,
                );
                encode_utf8_valid_utf8(table_name@);
                encode_utf8_decode_utf8(table_name@);
            },
            _ => {
                lemma_tag_round_trip(self.deep_view().tag(), offset, buf, later);
            },
        }
    }
}

} // verus!

verus! {

/// The type of an expression: that of a field, or a record of a table.
#[derive(Debug, PartialEq, Eq)]
pub enum Ty {
    Field(FieldTy),
    Table(Named<TableData>),
}

/// What a [`Ty`] stands for.
pub enum TyView {
    Field(FieldTyView),
    Table(NamedView<TableDataView>),
}

impl DeepView for Ty {
    type V = TyView;

    open spec fn deep_view(&self) -> TyView {
        match self {
            Ty::Field(ty) => TyView::Field(ty.deep_view()),
            Ty::Table(table) => TyView::Table(table.deep_view()),
        }
    }
}

impl Clone for Ty {
    fn clone(&self) -> (copy: Self)
        ensures
            copy.deep_view() == self.deep_view(),
    {
        match self {
            Ty::Field(ty) => Ty::Field(ty.clone()),
            Ty::Table(table) => Ty::Table(
                Named { name: table.name.clone(), value: table.value.clone() },
            ),
        }
    }
}

impl Ty {
    /// Whether two types are the same.
    pub fn same(&self, other: &Ty) -> (same: bool)
        ensures
            same == (self.deep_view() == other.deep_view()),
    {
        match (self, other) {
            (Ty::Field(a), Ty::Field(b)) => a.same(b),
            (Ty::Table(a), Ty::Table(b)) => str_eq(a.name.as_str(), b.name.as_str())
                && a.value.same(&b.value),
            _ => false,
        }
    }
}

impl From<FieldTy> for Ty {
    fn from(value: FieldTy) -> (ty: Ty) {
        Ty::Field(value)
    }
}

impl FromSpecImpl<FieldTy> for Ty {
    open spec fn obeys_from_spec() -> bool {
        true
    }

    open spec fn from_spec(value: FieldTy) -> Ty {
        Ty::Field(value)
    }
}

} // verus!
