//! Records: an identifier and the packed bytes that belong to it.

use vstd::prelude::*;

use crate::bytepack::extern_types::{fresh_ulid, Timestamp, Ulid};
use crate::bytepack::pack::Unpack;
use crate::bytepack::unpacker::ByteUnpacker;
use crate::db_core::defs::table::{TableFieldData, TableFieldDataView};
use crate::db_core::ty::{FieldTy, FieldTyView};
use crate::db_core::value::{FieldValue, FieldValueView};
use crate::names::bytes_eq;

verus! {

/// A record as the store keeps it. What the bytes mean is known only
/// together with the layout of the table that the record belongs to.
#[derive(Debug, PartialEq, Eq)]
pub struct RecordBytes {
    id: Ulid,
    bytes: Vec<u8>,
}

/// What a [`RecordBytes`] stands for.
pub struct RecordBytesView {
    pub id: Ulid,
    pub bytes: Seq<u8>,
}

impl DeepView for RecordBytes {
    type V = RecordBytesView;

    closed spec fn deep_view(&self) -> RecordBytesView {
        RecordBytesView { id: self.id, bytes: self.bytes@ }
    }
}

impl Clone for RecordBytes {
    fn clone(&self) -> (copy: Self)
        ensures
            copy.deep_view() == self.deep_view(),
    {
        RecordBytes { id: self.id, bytes: self.bytes.clone() }
    }
}

/// The value of a field laid out as `field` says, in a record of the given
/// bytes; nothing if the bytes at the field's offset do not decode.
pub open spec fn field_value(bytes: Seq<u8>, field: TableFieldDataView) -> Option<FieldValueView> {
    let offset = field.offset as nat;
    match field.ty {
        FieldTyView::IntI32 => match i32::unpacked(offset, bytes) {
            Some(value) => Some(FieldValueView::Int(value)),
            None => None,
        },
        FieldTyView::Bool => match bool::unpacked(offset, bytes) {
            Some(value) => Some(FieldValueView::Bool(value)),
            None => None,
        },
        FieldTyView::Timestamp => match Timestamp::unpacked(offset, bytes) {
            Some(value) => Some(FieldValueView::Timestamp(value)),
            None => None,
        },
        FieldTyView::Text => match String::unpacked(offset, bytes) {
            Some(value) => Some(FieldValueView::Text(value)),
            None => None,
        },
        FieldTyView::RecordId { table_name } => match Ulid::unpacked(offset, bytes) {
            Some(id) => Some(FieldValueView::RecordId { id, table_name }),
            None => None,
        },
    }
}

impl RecordBytes {
    pub fn new(id: Ulid, bytes: Vec<u8>) -> (record: Self)
        ensures
            record.deep_view() == (RecordBytesView { id, bytes: bytes@ }),
    {
        RecordBytes { id, bytes }
    }

    /// A record of the given bytes under a fresh identifier.
    pub fn create(bytes: Vec<u8>) -> (record: Self)
        ensures
            record.deep_view().bytes == bytes@,
    {
        RecordBytes { id: fresh_ulid(), bytes }
    }

    pub fn id(&self) -> (id: Ulid)
        ensures
            id == self.deep_view().id,
    {
        self.id
    }

    pub fn bytes(&self) -> (bytes: &[u8])
        ensures
            bytes@ == self.deep_view().bytes,
    {
        self.bytes.as_slice()
    }

    /// The value of the field laid out as `field` says.
    pub fn get_field(&self, field: &TableFieldData) -> (value: Option<FieldValue>)
        ensures
            value.deep_view() == field_value(self.deep_view().bytes, field.deep_view()),
    {
        match &field.ty {
            FieldTy::IntI32 => match self.unpack::<i32>(field.offset) {
                Some(value) => Some(FieldValue::Int(value)),
                None => None,
            },
            FieldTy::Bool => match self.unpack::<bool>(field.offset) {
                Some(value) => Some(FieldValue::Bool(value)),
                None => None,
            },
            FieldTy::Timestamp => match self.unpack::<Timestamp>(field.offset) {
                Some(value) => Some(FieldValue::Timestamp(value)),
                None => None,
            },
            FieldTy::Text => match self.unpack::<String>(field.offset) {
                Some(value) => Some(FieldValue::Text(value)),
                None => None,
            },
            FieldTy::RecordId { table_name } => match self.unpack::<Ulid>(field.offset) {
                Some(id) => Some(FieldValue::RecordId { id, table_name: table_name.clone() }),
                None => None,
            },
        }
    }

    /// Reads a value of type `T` at `offset`.
    pub fn unpack<'a, T: Unpack<'a>>(&'a self, offset: u32) -> (value: Option<T>)
        ensures
            value.deep_view() == T::unpacked(offset as nat, self.deep_view().bytes),
    {
        T::unpack(offset, &ByteUnpacker::new(self.bytes()))
    }

    /// Whether two records are the same, identifier and bytes.
    pub fn same(&self, other: &RecordBytes) -> (same: bool)
        ensures
            same == (self.deep_view() == other.deep_view()),
    {
        self.id.0 == other.id.0 && bytes_eq(self.bytes.as_slice(), other.bytes.as_slice())
    }
}

} // verus!
