//! Field types that nest: numbers of every width, lists and optional
//! values, besides text, dates and references.

use vstd::prelude::*;
use vstd::utf8::{decode_utf8, encode_utf8, encode_utf8_decode_utf8, encode_utf8_valid_utf8, valid_utf8};

use crate::bytepack::buffer::{changes_only_slot, keeps_packed, lemma_read_agrees, lemma_read_written};
use crate::bytepack::buffer::{read_at, write_at, zeros};
use crate::bytepack::pack::{Pack, RoundTrip, Unpack};
use crate::bytepack::pack_pointer::{lemma_pointer_wire, PackPointer};
use crate::bytepack::packer::BytePacker;
use crate::bytepack::text::string_from_utf8;
use crate::bytepack::unpacker::ByteUnpacker;
use crate::db_core::inline_pointer::{lemma_tag_round_trip, lemma_tagged_bytes_round_trip};
use crate::db_core::inline_pointer::{packed_tag, packed_tagged_bytes, unpacked_tagged};
use crate::db_core::inline_pointer::{InlinePointerPack, InlinePointerUnpack, InlinePointerUnpackView};
use crate::db_core::ty::{lemma_packed_tagged_bytes, tag_is};
use crate::names::str_eq;

verus! {

/// The width and sign of a number.
#[derive(Debug, Clone, Copy, PartialEq, Eq, Structural)]
pub enum NumberFieldType {
    U8,
    U16,
    U32,
    U64,
    U128,
    I8,
    I16,
    I32,
    I64,
    I128,
}

/// The type of a field.
#[derive(Debug, PartialEq, Eq)]
#[allow(inconsistent_fields)]
pub enum FieldType {
    Number(NumberFieldType),
    DateTime,
    Text,
    /// A reference to a record of the table named.
    Record { table_name: String },
    /// A list of values of one type.
    List { ty: Box<FieldType> },
    /// A value of the type given, or none.
    Optional { ty: Box<FieldType> },
}

/// What a [`FieldType`] stands for.
#[allow(inconsistent_fields)]
pub enum FieldTypeView {
    Number(NumberFieldType),
    DateTime,
    Text,
    Record { table_name: Seq<char> },
    List { ty: Box<FieldTypeView> },
    Optional { ty: Box<FieldTypeView> },
}

/// What a field type stands for.
pub open spec fn type_view(ty: FieldType) -> FieldTypeView
    decreases ty,
{
    match ty {
        FieldType::Number(number) => FieldTypeView::Number(number),
        FieldType::DateTime => FieldTypeView::DateTime,
        FieldType::Text => FieldTypeView::Text,
        FieldType::Record { table_name } => FieldTypeView::Record { table_name: table_name@ },
        FieldType::List { ty } => FieldTypeView::List { ty: Box::new(type_view(*ty)) },
        FieldType::Optional { ty } => FieldTypeView::Optional { ty: Box::new(type_view(*ty)) },
    }
}

impl DeepView for FieldType {
    type V = FieldTypeView;

    open spec fn deep_view(&self) -> FieldTypeView {
        type_view(*self)
    }
}

impl NumberFieldType {
    /// The tag that spells the type in a buffer: its name, filled up with
    /// spaces.
    pub open spec fn tag(self) -> Seq<u8> {
        match self {
            NumberFieldType::U8 => seq![0x75u8, 0x38u8, 0x20u8, 0x20u8],
            NumberFieldType::U16 => seq![0x75u8, 0x31u8, 0x36u8, 0x20u8],
            NumberFieldType::U32 => seq![0x75u8, 0x33u8, 0x32u8, 0x20u8],
            NumberFieldType::U64 => seq![0x75u8, 0x36u8, 0x34u8, 0x20u8],
            NumberFieldType::U128 => seq![0x75u8, 0x31u8, 0x32u8, 0x38u8],
            NumberFieldType::I8 => seq![0x69u8, 0x38u8, 0x20u8, 0x20u8],
            NumberFieldType::I16 => seq![0x69u8, 0x31u8, 0x36u8, 0x20u8],
            NumberFieldType::I32 => seq![0x69u8, 0x33u8, 0x32u8, 0x20u8],
            NumberFieldType::I64 => seq![0x69u8, 0x36u8, 0x34u8, 0x20u8],
            NumberFieldType::I128 => seq![0x69u8, 0x31u8, 0x32u8, 0x38u8],
        }
    }

    /// The name of the type.
    pub open spec fn spec_name(self) -> Seq<char> {
        match self {
            NumberFieldType::U8 => "u8"@,
            NumberFieldType::U16 => "u16"@,
            NumberFieldType::U32 => "u32"@,
            NumberFieldType::U64 => "u64"@,
            NumberFieldType::U128 => "u128"@,
            NumberFieldType::I8 => "i8"@,
            NumberFieldType::I16 => "i16"@,
            NumberFieldType::I32 => "i32"@,
            NumberFieldType::I64 => "i64"@,
            NumberFieldType::I128 => "i128"@,
        }
    }

    /// The name of the type.
    pub fn name(&self) -> (name: &'static str)
        ensures
            name@ == self.spec_name(),
    {
        match self {
            NumberFieldType::U8 => "u8",
            NumberFieldType::U16 => "u16",
            NumberFieldType::U32 => "u32",
            NumberFieldType::U64 => "u64",
            NumberFieldType::U128 => "u128",
            NumberFieldType::I8 => "i8",
            NumberFieldType::I16 => "i16",
            NumberFieldType::I32 => "i32",
            NumberFieldType::I64 => "i64",
            NumberFieldType::I128 => "i128",
        }
    }

    /// The number of bytes that a number of the type takes.
    pub open spec fn spec_byte_count(self) -> u32 {
        match self {
            NumberFieldType::U8 => 1,
            NumberFieldType::U16 => 2,
            NumberFieldType::U32 => 4,
            NumberFieldType::U64 => 8,
            NumberFieldType::U128 => 16,
            NumberFieldType::I8 => 1,
            NumberFieldType::I16 => 2,
            NumberFieldType::I32 => 4,
            NumberFieldType::I64 => 8,
            NumberFieldType::I128 => 16,
        }
    }

    /// The type that `tag` spells.
    pub open spec fn of_tag(tag: Seq<u8>) -> Option<NumberFieldType> {
        if tag == NumberFieldType::U8.tag() {
            Some(NumberFieldType::U8)
        } else if tag == NumberFieldType::U16.tag() {
            Some(NumberFieldType::U16)
        } else if tag == NumberFieldType::U32.tag() {
            Some(NumberFieldType::U32)
        } else if tag == NumberFieldType::U64.tag() {
            Some(NumberFieldType::U64)
        } else if tag == NumberFieldType::U128.tag() {
            Some(NumberFieldType::U128)
        } else if tag == NumberFieldType::I8.tag() {
            Some(NumberFieldType::I8)
        } else if tag == NumberFieldType::I16.tag() {
            Some(NumberFieldType::I16)
        } else if tag == NumberFieldType::I32.tag() {
            Some(NumberFieldType::I32)
        } else if tag == NumberFieldType::I64.tag() {
            Some(NumberFieldType::I64)
        } else if tag == NumberFieldType::I128.tag() {
            Some(NumberFieldType::I128)
        } else {
            None
        }
    }

    /// The tag that spells the type in a buffer.
    pub fn tag_bytes(&self) -> (tag: [u8; 4])
        ensures
            tag@ == self.tag(),
    {
        let tag: [u8; 4] = match self {
            NumberFieldType::U8 => [0x75, 0x38, 0x20, 0x20],
            NumberFieldType::U16 => [0x75, 0x31, 0x36, 0x20],
            NumberFieldType::U32 => [0x75, 0x33, 0x32, 0x20],
            NumberFieldType::U64 => [0x75, 0x36, 0x34, 0x20],
            NumberFieldType::U128 => [0x75, 0x31, 0x32, 0x38],
            NumberFieldType::I8 => [0x69, 0x38, 0x20, 0x20],
            NumberFieldType::I16 => [0x69, 0x31, 0x36, 0x20],
            NumberFieldType::I32 => [0x69, 0x33, 0x32, 0x20],
            NumberFieldType::I64 => [0x69, 0x36, 0x34, 0x20],
            NumberFieldType::I128 => [0x69, 0x31, 0x32, 0x38],
        };
        assert(tag@ =~= self.tag());
        tag
    }

    /// The type that `tag` spells.
    pub fn from_tag(tag: &[u8; 4]) -> (number: Option<NumberFieldType>)
        ensures
            number == NumberFieldType::of_tag(tag@),
    {
        if tag_is(tag, 0x75, 0x38, 0x20, 0x20) {
            Some(NumberFieldType::U8)
        } else if tag_is(tag, 0x75, 0x31, 0x36, 0x20) {
            Some(NumberFieldType::U16)
        } else if tag_is(tag, 0x75, 0x33, 0x32, 0x20) {
            Some(NumberFieldType::U32)
        } else if tag_is(tag, 0x75, 0x36, 0x34, 0x20) {
            Some(NumberFieldType::U64)
        } else if tag_is(tag, 0x75, 0x31, 0x32, 0x38) {
            Some(NumberFieldType::U128)
        } else if tag_is(tag, 0x69, 0x38, 0x20, 0x20) {
            Some(NumberFieldType::I8)
        } else if tag_is(tag, 0x69, 0x31, 0x36, 0x20) {
            Some(NumberFieldType::I16)
        } else if tag_is(tag, 0x69, 0x33, 0x32, 0x20) {
            Some(NumberFieldType::I32)
        } else if tag_is(tag, 0x69, 0x36, 0x34, 0x20) {
            Some(NumberFieldType::I64)
        } else if tag_is(tag, 0x69, 0x31, 0x32, 0x38) {
            Some(NumberFieldType::I128)
        } else {
            None
        }
    }
}

/// Each number type is spelled by a tag of its own.
pub proof fn lemma_number_tags(number: NumberFieldType)
    ensures
        number.tag().len() == 4,
        NumberFieldType::of_tag(number.tag()) == Some(number),
        number.tag() != text_tag(),
        number.tag() != date_time_tag(),
{
    let t = number.tag();
    assert(t[0] == 0x75 || t[0] == 0x69);
    let u8_ = NumberFieldType::U8.tag();
    let u16_ = NumberFieldType::U16.tag();
    let u32_ = NumberFieldType::U32.tag();
    let u64_ = NumberFieldType::U64.tag();
    let u128_ = NumberFieldType::U128.tag();
    let i8_ = NumberFieldType::I8.tag();
    let i16_ = NumberFieldType::I16.tag();
    let i32_ = NumberFieldType::I32.tag();
    let i64_ = NumberFieldType::I64.tag();
    let i128_ = NumberFieldType::I128.tag();
    assert(u8_[0] == 0x75 && u8_[1] == 0x38 && u8_[2] == 0x20 && u8_[3] == 0x20);
    assert(u16_[0] == 0x75 && u16_[1] == 0x31 && u16_[2] == 0x36 && u16_[3] == 0x20);
    assert(u32_[0] == 0x75 && u32_[1] == 0x33 && u32_[2] == 0x32 && u32_[3] == 0x20);
    assert(u64_[0] == 0x75 && u64_[1] == 0x36 && u64_[2] == 0x34 && u64_[3] == 0x20);
    assert(u128_[0] == 0x75 && u128_[1] == 0x31 && u128_[2] == 0x32 && u128_[3] == 0x38);
    assert(i8_[0] == 0x69 && i8_[1] == 0x38 && i8_[2] == 0x20 && i8_[3] == 0x20);
    assert(i16_[0] == 0x69 && i16_[1] == 0x31 && i16_[2] == 0x36 && i16_[3] == 0x20);
    assert(i32_[0] == 0x69 && i32_[1] == 0x33 && i32_[2] == 0x32 && i32_[3] == 0x20);
    assert(i64_[0] == 0x69 && i64_[1] == 0x36 && i64_[2] == 0x34 && i64_[3] == 0x20);
    assert(i128_[0] == 0x69 && i128_[1] == 0x31 && i128_[2] == 0x32 && i128_[3] == 0x38);
    assert(text_tag()[0] == 0x74);
    assert(date_time_tag()[0] == 0x64);
}

/// The tag of text.
pub open spec fn text_tag() -> Seq<u8> {
    seq![0x74u8, 0x65u8, 0x78u8, 0x74u8]
}

/// The tag of dates with times.
pub open spec fn date_time_tag() -> Seq<u8> {
    seq![0x64u8, 0x61u8, 0x74u8, 0x69u8]
}

/// The tag of references to records.
pub open spec fn record_tag() -> Seq<u8> {
    seq![0x72u8, 0x63u8, 0x72u8, 0x64u8]
}

/// The tag of lists.
pub open spec fn list_tag() -> Seq<u8> {
    seq![0x6cu8, 0x69u8, 0x73u8, 0x74u8]
}

/// The tag of optional values.
pub open spec fn optional_tag() -> Seq<u8> {
    seq![0x6fu8, 0x70u8, 0x74u8, 0x69u8]
}

impl FieldTypeView {
    /// The tag that spells the outermost type in a buffer.
    pub open spec fn tag(self) -> Seq<u8> {
        match self {
            FieldTypeView::Number(number) => number.tag(),
            FieldTypeView::DateTime => date_time_tag(),
            FieldTypeView::Text => text_tag(),
            FieldTypeView::Record { .. } => record_tag(),
            FieldTypeView::List { .. } => list_tag(),
            FieldTypeView::Optional { .. } => optional_tag(),
        }
    }

    /// The size of the fixed region of a field of this type: the width of
    /// a number, eight bytes for a date, sixteen for a reference, and
    /// eight, a pointer, for text, lists and optional values.
    pub open spec fn byte_count(self) -> u32 {
        match self {
            FieldTypeView::Number(number) => number.spec_byte_count(),
            FieldTypeView::DateTime => 8,
            FieldTypeView::Text => 8,
            FieldTypeView::Record { .. } => 16,
            FieldTypeView::List { .. } => 8,
            FieldTypeView::Optional { .. } => 8,
        }
    }

    /// The type as it is shown to a reader.
    pub open spec fn text(self) -> Seq<char>
        decreases self,
    {
        match self {
            FieldTypeView::Number(number) => number.spec_name(),
            FieldTypeView::DateTime => "datetime"@,
            FieldTypeView::Text => "Text"@,
            FieldTypeView::Record { table_name } => "record<"@ + table_name + ">"@,
            FieldTypeView::List { ty } => "list<"@ + ty.text() + ">"@,
            FieldTypeView::Optional { ty } => "option<"@ + ty.text() + ">"@,
        }
    }

    /// How deep the type nests.
    pub open spec fn depth(self) -> nat
        decreases self,
    {
        match self {
            FieldTypeView::List { ty } => 1 + ty.depth(),
            FieldTypeView::Optional { ty } => 1 + ty.depth(),
            _ => 0,
        }
    }

    /// The number of bytes that packing the type appends to a buffer.
    pub open spec fn packed_len(self) -> nat
        decreases self,
    {
        match self {
            FieldTypeView::Record { table_name } => 4 + encode_utf8(table_name).len(),
            FieldTypeView::List { ty } => 12 + ty.packed_len(),
            FieldTypeView::Optional { ty } => 12 + ty.packed_len(),
            _ => 0,
        }
    }

    /// The buffer after the type was packed at `offset`. A type without
    /// parameters is its tag alone, a reference is its tag and the name
    /// of the table referred to, and a list or an optional value is its
    /// tag and, right behind it, the packed type of what it holds.
    pub open spec fn packed(self, offset: nat, buf: Seq<u8>) -> Seq<u8>
        decreases self, 0nat,
    {
        match self {
            FieldTypeView::Record { table_name } => packed_tagged_bytes(
                self.tag(),
                encode_utf8(table_name),
                offset,
                buf,
            ),
            FieldTypeView::List { ty } => Self::packed_nested(self.tag(), *ty, offset, buf),
            FieldTypeView::Optional { ty } => Self::packed_nested(self.tag(), *ty, offset, buf),
            _ => packed_tag(self.tag(), offset, buf),
        }
    }

    /// The buffer after `tag` was appended, `inner` packed right behind
    /// it, and the pointer to both written at `offset`.
    pub open spec fn packed_nested(
        tag: Seq<u8>,
        inner: FieldTypeView,
        offset: nat,
        buf: Seq<u8>,
    ) -> Seq<u8>
        decreases inner, 1nat,
    {
        let ptr = PackPointer { offset: buf.len() as u32, len: 12 };
        write_at(inner.packed(buf.len() + 4, buf + tag + zeros(8)), offset, ptr.wire())
    }

    /// The type stored at `offset` in `buf`, nesting no deeper than
    /// `depth`.
    pub open spec fn unpacked(offset: nat, buf: Seq<u8>, depth: nat) -> Option<FieldTypeView>
        decreases depth,
    {
        match unpacked_tagged(offset, buf) {
            Some(InlinePointerUnpackView::Inline { tag }) => if tag == text_tag() {
                Some(FieldTypeView::Text)
            } else if tag == date_time_tag() {
                Some(FieldTypeView::DateTime)
            } else {
                match NumberFieldType::of_tag(tag) {
                    Some(number) => Some(FieldTypeView::Number(number)),
                    None => None,
                }
            },
            Some(InlinePointerUnpackView::Indirect { tag, value, value_offset }) => if tag
                == record_tag() {
                if valid_utf8(value) {
                    Some(FieldTypeView::Record { table_name: decode_utf8(value) })
                } else {
                    None
                }
            } else if tag == list_tag() || tag == optional_tag() {
                if depth == 0 {
                    None
                } else {
                    match Self::unpacked(value_offset as nat, buf, (depth - 1) as nat) {
                        Some(inner) => if tag == list_tag() {
                            Some(FieldTypeView::List { ty: Box::new(inner) })
                        } else {
                            Some(FieldTypeView::Optional { ty: Box::new(inner) })
                        },
                        None => None,
                    }
                }
            } else {
                None
            },
            None => None,
        }
    }
}

} // verus!

verus! {

/// The tags of the types that are no numbers are four bytes each and
/// differ from one another.
pub proof fn lemma_other_tags()
    ensures
        text_tag().len() == 4,
        date_time_tag().len() == 4,
        record_tag().len() == 4,
        list_tag().len() == 4,
        optional_tag().len() == 4,
        text_tag() != date_time_tag(),
        record_tag() != list_tag(),
        record_tag() != optional_tag(),
        list_tag() != optional_tag(),
{
    assert(text_tag()[0] == 0x74 && date_time_tag()[0] == 0x64);
    assert(record_tag()[0] == 0x72 && list_tag()[0] == 0x6c && optional_tag()[0] == 0x6f);
}

/// Packing a type appends what it takes and changes nothing else but the
/// slot of its pointer.
pub proof fn lemma_type_packed(ty: FieldTypeView, offset: nat, buf: Seq<u8>)
    requires
        offset + 8 <= buf.len(),
    ensures
        ty.tag().len() == 4,
        ty.packed(offset, buf).len() == buf.len() + ty.packed_len(),
        changes_only_slot(buf, ty.packed(offset, buf), offset, 8),
        ty.packed_len() >= 12 * ty.depth(),
    decreases ty, 0nat,
{
    lemma_other_tags();
    match ty {
        FieldTypeView::Number(number) => {
            lemma_number_tags(number);
            lemma_read_written(buf, offset, zeros(4) + ty.tag());
        },
        FieldTypeView::Record { table_name } => {
            lemma_packed_tagged_bytes(ty.tag(), encode_utf8(table_name), offset, buf);
        },
        FieldTypeView::List { ty: inner } => {
            lemma_nested_packed(ty.tag(), *inner, offset, buf);
        },
        FieldTypeView::Optional { ty: inner } => {
            lemma_nested_packed(ty.tag(), *inner, offset, buf);
        },
        _ => {
            lemma_read_written(buf, offset, zeros(4) + ty.tag());
        },
    }
}

/// Packing a type behind its tag appends both and changes nothing else
/// but the slot of the pointer.
pub proof fn lemma_nested_packed(tag: Seq<u8>, inner: FieldTypeView, offset: nat, buf: Seq<u8>)
    requires
        tag.len() == 4,
        offset + 8 <= buf.len(),
    ensures
        FieldTypeView::packed_nested(tag, inner, offset, buf).len() == buf.len() + 12
            + inner.packed_len(),
        changes_only_slot(buf, FieldTypeView::packed_nested(tag, inner, offset, buf), offset, 8),
        inner.packed_len() >= 12 * inner.depth(),
    decreases inner, 1nat,
{
    let ptr = PackPointer { offset: buf.len() as u32, len: 12 };
    let grown = buf + tag + zeros(8);
    let packed = inner.packed(buf.len() + 4, grown);
    let after = FieldTypeView::packed_nested(tag, inner, offset, buf);
    lemma_type_packed(inner, buf.len() + 4, grown);
    lemma_pointer_wire(ptr);
    lemma_read_written(packed, offset, ptr.wire());
    assert forall|i: int| 0 <= i < buf.len() && !(offset <= i < offset + 8) implies #[trigger] after[i]
        == buf[i] by {
        assert(after[i] == packed[i]);
        assert(packed[i] == grown[i]);
    }
}

/// A type is read back from where it was packed, if it may nest as deep
/// as it does.
pub proof fn lemma_type_round_trip(
    ty: FieldTypeView,
    offset: nat,
    buf: Seq<u8>,
    later: Seq<u8>,
    depth: nat,
)
    requires
        offset + 8 <= buf.len(),
        buf.len() + ty.packed_len() <= u32::MAX,
        keeps_packed(ty.packed(offset, buf), later, offset, 8, buf.len()),
        depth >= ty.depth(),
    ensures
        FieldTypeView::unpacked(offset, later, depth) == Some(ty),
    decreases ty, 0nat,
{
    lemma_other_tags();
    match ty {
        FieldTypeView::Number(number) => {
            lemma_number_tags(number);
            lemma_tag_round_trip(ty.tag(), offset, buf, later);
        },
        FieldTypeView::Record { table_name } => {
            lemma_tagged_bytes_round_trip(ty.tag(), encode_utf8(table_name), offset, buf, later);
            encode_utf8_valid_utf8(table_name);
            encode_utf8_decode_utf8(table_name);
        },
        FieldTypeView::List { ty: inner } => {
            lemma_nested_round_trip(ty.tag(), *inner, offset, buf, later, depth);
        },
        FieldTypeView::Optional { ty: inner } => {
            lemma_nested_round_trip(ty.tag(), *inner, offset, buf, later, depth);
        },
        FieldTypeView::Text => {
            lemma_tag_round_trip(ty.tag(), offset, buf, later);
        },
        FieldTypeView::DateTime => {
            lemma_tag_round_trip(ty.tag(), offset, buf, later);
            assert(date_time_tag() != text_tag());
            lemma_date_time_is_no_number();
        },
    }
}

/// The tag of dates with times spells no number type.
pub proof fn lemma_date_time_is_no_number()
    ensures
        NumberFieldType::of_tag(date_time_tag()) is None,
        NumberFieldType::of_tag(text_tag()) is None,
{
    if NumberFieldType::of_tag(date_time_tag()) is Some {
        lemma_number_tags(NumberFieldType::of_tag(date_time_tag())->0);
        let n = NumberFieldType::of_tag(date_time_tag())->0;
        assert(n.tag() == date_time_tag());
    }
    if NumberFieldType::of_tag(text_tag()) is Some {
        lemma_number_tags(NumberFieldType::of_tag(text_tag())->0);
        let n = NumberFieldType::of_tag(text_tag())->0;
        assert(n.tag() == text_tag());
    }
}

/// A type packed behind the tag of a list or of an optional value is read
/// back, and the tag with it.
pub proof fn lemma_nested_round_trip(
    tag: Seq<u8>,
    inner: FieldTypeView,
    offset: nat,
    buf: Seq<u8>,
    later: Seq<u8>,
    depth: nat,
)
    requires
        tag == list_tag() || tag == optional_tag(),
        offset + 8 <= buf.len(),
        buf.len() + 12 + inner.packed_len() <= u32::MAX,
        keeps_packed(
            FieldTypeView::packed_nested(tag, inner, offset, buf),
            later,
            offset,
            8,
            buf.len(),
        ),
        depth >= 1 + inner.depth(),
    ensures
        FieldTypeView::unpacked(offset, later, depth) == Some(
            if tag == list_tag() {
                FieldTypeView::List { ty: Box::new(inner) }
            } else {
                FieldTypeView::Optional { ty: Box::new(inner) }
            },
        ),
    decreases inner, 1nat,
{
    lemma_other_tags();
    let ptr = PackPointer { offset: buf.len() as u32, len: 12 };
    let grown = buf + tag + zeros(8);
    let packed = inner.packed(buf.len() + 4, grown);
    let now = FieldTypeView::packed_nested(tag, inner, offset, buf);
    lemma_type_packed(inner, buf.len() + 4, grown);
    lemma_pointer_wire(ptr);
    lemma_read_written(packed, offset, ptr.wire());
    lemma_read_agrees(now, later, offset, 8);
    assert(PackPointer::read(later, offset) == Some(ptr));
    assert(read_at(later, ptr.offset as nat, 4) =~= tag) by {
        assert forall|i: int| buf.len() <= i < buf.len() + 4 implies later[i] == tag[i
            - buf.len()] by {
            assert(later[i] == now[i]);
            assert(now[i] == packed[i]);
            assert(packed[i] == grown[i]);
        }
    }
    assert forall|i: int| buf.len() + 4 <= i < packed.len() implies #[trigger] later[i]
        == packed[i] by {
        assert(later[i] == now[i]);
    }
    lemma_type_round_trip(inner, buf.len() + 4, grown, later, (depth - 1) as nat);
}

impl Clone for FieldType {
    fn clone(&self) -> (copy: Self)
        ensures
            copy.deep_view() == self.deep_view(),
        decreases self,
    {
        match self {
            FieldType::Number(number) => FieldType::Number(*number),
            FieldType::DateTime => FieldType::DateTime,
            FieldType::Text => FieldType::Text,
            FieldType::Record { table_name } => FieldType::Record { table_name: table_name.clone() },
            FieldType::List { ty } => {
                let inner = (**ty).clone();
                FieldType::List { ty: Box::new(inner) }
            },
            FieldType::Optional { ty } => {
                let inner = (**ty).clone();
                FieldType::Optional { ty: Box::new(inner) }
            },
        }
    }
}

impl FieldType {
    /// The tag that spells the outermost type in a buffer.
    pub fn tag(&self) -> (tag: [u8; 4])
        ensures
            tag@ == self.deep_view().tag(),
    {
        let tag: [u8; 4] = match self {
            FieldType::Number(number) => {
                return number.tag_bytes();
            },
            FieldType::DateTime => [0x64, 0x61, 0x74, 0x69],
            FieldType::Text => [0x74, 0x65, 0x78, 0x74],
            FieldType::Record { .. } => [0x72, 0x63, 0x72, 0x64],
            FieldType::List { .. } => [0x6c, 0x69, 0x73, 0x74],
            FieldType::Optional { .. } => [0x6f, 0x70, 0x74, 0x69],
        };
        assert(tag@ =~= self.deep_view().tag());
        tag
    }

    /// The type as it is packed: its tag alone, its tag with the name of
    /// the table referred to, or its tag with the type that it holds.
    pub fn pointer_value(&self) -> (value: InlinePointerPack<'_, FieldType>)
        ensures
            match self {
                FieldType::Record { table_name } => value matches InlinePointerPack::Indirect {
                    tag,
                    value: bytes,
                } && tag@ == record_tag() && bytes@ == encode_utf8(table_name@),
                FieldType::List { ty } => value matches InlinePointerPack::Nested {
                    tag,
                    value: inner,
                } && tag@ == list_tag() && *inner == **ty,
                FieldType::Optional { ty } => value matches InlinePointerPack::Nested {
                    tag,
                    value: inner,
                } && tag@ == optional_tag() && *inner == **ty,
                _ => value matches InlinePointerPack::Inline { tag } && tag@
                    == self.deep_view().tag(),
            },
    {
        let tag = self.tag();
        match self {
            FieldType::Record { table_name } => InlinePointerPack::Indirect {
                tag,
                value: table_name.as_str().as_bytes(),
            },
            FieldType::List { ty } => InlinePointerPack::Nested { tag, value: &**ty },
            FieldType::Optional { ty } => InlinePointerPack::Nested { tag, value: &**ty },
            _ => InlinePointerPack::Inline { tag },
        }
    }

    /// The size of the fixed region of a field of this type.
    pub fn byte_count(&self) -> (count: u32)
        ensures
            count == self.deep_view().byte_count(),
    {
        match self {
            FieldType::Number(NumberFieldType::U8) => 1,
            FieldType::Number(NumberFieldType::U16) => 2,
            FieldType::Number(NumberFieldType::U32) => 4,
            FieldType::Number(NumberFieldType::U64) => 8,
            FieldType::Number(NumberFieldType::U128) => 16,
            FieldType::Number(NumberFieldType::I8) => 1,
            FieldType::Number(NumberFieldType::I16) => 2,
            FieldType::Number(NumberFieldType::I32) => 4,
            FieldType::Number(NumberFieldType::I64) => 8,
            FieldType::Number(NumberFieldType::I128) => 16,
            FieldType::DateTime => 8,
            FieldType::Text => 8,
            FieldType::Record { .. } => 16,
            FieldType::List { .. } => 8,
            FieldType::Optional { .. } => 8,
        }
    }

    /// The type as it is shown to a reader: the name of a number, a date
    /// or text, and for a reference, a list or an optional value the kind
    /// with what it holds in angle brackets.
    pub fn to_text(&self) -> (text: String)
        ensures
            text@ == self.deep_view().text(),
        decreases self,
    {
        match self {
            FieldType::Number(number) => number.name().to_owned(),
            FieldType::DateTime => "datetime".to_owned(),
            FieldType::Text => "Text".to_owned(),
            FieldType::Record { table_name } => {
                let mut text = "record<".to_owned();
                text.append(table_name.as_str());
                text.append(">");
                text
            },
            FieldType::List { ty } => {
                let inner = (**ty).to_text();
                let mut text = "list<".to_owned();
                text.append(inner.as_str());
                text.append(">");
                text
            },
            FieldType::Optional { ty } => {
                let inner = (**ty).to_text();
                let mut text = "option<".to_owned();
                text.append(inner.as_str());
                text.append(">");
                text
            },
        }
    }

    /// Whether two types are the same.
    pub fn same(&self, other: &FieldType) -> (same: bool)
        ensures
            same == (self.deep_view() == other.deep_view()),
        decreases self,
    {
        match (self, other) {
            (FieldType::Number(a), FieldType::Number(b)) => *a == *b,
            (FieldType::DateTime, FieldType::DateTime) => true,
            (FieldType::Text, FieldType::Text) => true,
            (FieldType::Record { table_name: a }, FieldType::Record { table_name: b }) => str_eq(
                a.as_str(),
                b.as_str(),
            ),
            (FieldType::List { ty: a }, FieldType::List { ty: b }) => (**a).same(&**b),
            (FieldType::Optional { ty: a }, FieldType::Optional { ty: b }) => (**a).same(&**b),
            _ => false,
        }
    }

    /// Packs the type at `offset`.
    pub fn pack_type(&self, offset: u32, packer: &mut BytePacker)
        requires
            offset + 8 <= old(packer)@.len(),
            old(packer)@.len() + self.deep_view().packed_len() <= u32::MAX,
        ensures
            final(packer)@ == self.deep_view().packed(offset as nat, old(packer)@),
        decreases self,
    {
        let ghost start = packer@;
        proof {
            lemma_other_tags();
        }
        match self.pointer_value() {
            InlinePointerPack::Inline { tag } => {
                let pointer: InlinePointerPack<'_, u8> = InlinePointerPack::Inline { tag };
                pointer.pack(offset, packer);
            },
            InlinePointerPack::Indirect { tag, value } => {
                let pointer: InlinePointerPack<'_, u8> = InlinePointerPack::Indirect { tag, value };
                pointer.pack(offset, packer);
            },
            InlinePointerPack::Nested { tag, value } => {
                let tag_pointer = packer.push_dynamic(vstd::array::array_as_slice(&tag));
                let value_pointer = packer.reserve_dynamic_bytes(8);
                value.pack_type(value_pointer.offset, packer);
                proof {
                    lemma_type_packed(
                        value.deep_view(),
                        start.len() + 4,
                        start + tag@ + zeros(8),
                    );
                }
                let pointer = PackPointer {
                    offset: tag_pointer.offset,
                    len: tag_pointer.len + value_pointer.len,
                };
                pointer.pack(offset, packer);
            },
        }
    }

    /// Reads the type stored at `offset`, nesting no deeper than `depth`.
    pub fn unpack_type(offset: u32, unpacker: &ByteUnpacker, depth: usize) -> (ty: Option<FieldType>)
        ensures
            ty.deep_view() == FieldTypeView::unpacked(offset as nat, unpacker@, depth as nat),
        decreases depth,
    {
        let pointer = match InlinePointerUnpack::unpack(offset, unpacker) {
            Some(pointer) => pointer,
            None => {
                return None;
            },
        };
        match pointer {
            InlinePointerUnpack::Inline { tag } => {
                if tag_is(&tag, 0x74, 0x65, 0x78, 0x74) {
                    Some(FieldType::Text)
                } else if tag_is(&tag, 0x64, 0x61, 0x74, 0x69) {
                    Some(FieldType::DateTime)
                } else {
                    match NumberFieldType::from_tag(&tag) {
                        Some(number) => Some(FieldType::Number(number)),
                        None => None,
                    }
                }
            },
            InlinePointerUnpack::Indirect { tag, value, value_offset } => {
                if tag_is(&tag, 0x72, 0x63, 0x72, 0x64) {
                    match string_from_utf8(vstd::slice::slice_to_vec(value)) {
                        Some(table_name) => Some(FieldType::Record { table_name }),
                        None => None,
                    }
                } else {
                    let list = tag_is(&tag, 0x6c, 0x69, 0x73, 0x74);
                    let optional = tag_is(&tag, 0x6f, 0x70, 0x74, 0x69);
                    if !list && !optional {
                        return None;
                    }
                    if depth == 0 {
                        return None;
                    }
                    match FieldType::unpack_type(value_offset, unpacker, depth - 1) {
                        Some(inner) => {
                            if list {
                                Some(FieldType::List { ty: Box::new(inner) })
                            } else {
                                Some(FieldType::Optional { ty: Box::new(inner) })
                            }
                        },
                        None => None,
                    }
                }
            },
        }
    }
}

impl Pack for FieldType {
    const PACK_BYTES: u32 = 8;

    open spec fn fixed_len() -> nat {
        8
    }

    proof fn lemma_pack_bytes() {
    }

    open spec fn dyn_len(&self) -> nat {
        self.deep_view().packed_len()
    }

    open spec fn packed(&self, offset: nat, buf: Seq<u8>) -> Seq<u8> {
        self.deep_view().packed(offset, buf)
    }

    fn pack(&self, offset: u32, packer: &mut BytePacker) {
        assert(Self::fixed_len() == 8);
        assert(self.dyn_len() == self.deep_view().packed_len());
        assert(self.packed(offset as nat, packer@) == self.deep_view().packed(
            offset as nat,
            packer@,
        ));
        self.pack_type(offset, packer);
    }

    proof fn lemma_packed(&self, offset: nat, buf: Seq<u8>) {
        lemma_type_packed(self.deep_view(), offset, buf);
    }
}

impl<'b> Unpack<'b> for FieldType {
    /// The type stored at `offset`. A type cannot nest deeper than the
    /// buffer has bytes.
    open spec fn unpacked(offset: nat, buf: Seq<u8>) -> Option<FieldTypeView> {
        FieldTypeView::unpacked(offset, buf, buf.len())
    }

    fn unpack(offset: u32, unpacker: &ByteUnpacker<'b>) -> (value: Option<Self>) {
        assert(Self::unpacked(offset as nat, unpacker@) == FieldTypeView::unpacked(
            offset as nat,
            unpacker@,
            unpacker@.len(),
        ));
        FieldType::unpack_type(offset, unpacker, unpacker.len())
    }
}

impl<'b> RoundTrip<'b> for FieldType {
    open spec fn round_trips(&self) -> bool {
        true
    }

    proof fn lemma_round_trip(&self, offset: nat, buf: Seq<u8>, later: Seq<u8>) {
        lemma_type_packed(self.deep_view(), offset, buf);
        lemma_type_round_trip(self.deep_view(), offset, buf, later, later.len());
    }
}

} // verus!
