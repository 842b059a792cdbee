//! The values of fields and of expressions.

use vstd::prelude::*;
use vstd::std_specs::convert::FromSpecImpl;

use crate::bytepack::extern_types::{Timestamp, Ulid};
use crate::bytepack::pack::Pack;
use crate::bytepack::packer::BytePacker;
use crate::db_core::defs::table::{TableData, TableDataView};
use crate::db_core::named::{Named, NamedView};
use crate::db_core::record::{RecordBytes, RecordBytesView};
use crate::db_core::ty::{FieldTy, FieldTyView, Ty, TyView};
use crate::names::str_eq;

verus! {

/// The value of a field.
#[derive(Debug, PartialEq, Eq)]
pub enum FieldValue {
    Int(i32),
    Bool(bool),
    Timestamp(Timestamp),
    Text(String),
    /// A reference to the record `id` of the table named.
    RecordId { id: Ulid, table_name: String },
}

/// What a [`FieldValue`] stands for.
pub enum FieldValueView {
    Int(i32),
    Bool(bool),
    Timestamp(Timestamp),
    Text(Seq<char>),
    RecordId { id: Ulid, table_name: Seq<char> },
}

impl DeepView for FieldValue {
    type V = FieldValueView;

    open spec fn deep_view(&self) -> FieldValueView {
        match self {
            FieldValue::Int(value) => FieldValueView::Int(*value),
            FieldValue::Bool(value) => FieldValueView::Bool(*value),
            FieldValue::Timestamp(value) => FieldValueView::Timestamp(*value),
            FieldValue::Text(value) => FieldValueView::Text(value@),
            FieldValue::RecordId { id, table_name } => FieldValueView::RecordId {
                id: *id,
                table_name: table_name@,
            },
        }
    }
}

impl FieldValueView {
    /// The type of the value.
    pub open spec fn ty(self) -> FieldTyView {
        match self {
            FieldValueView::Int(_) => FieldTyView::IntI32,
            FieldValueView::Bool(_) => FieldTyView::Bool,
            FieldValueView::Timestamp(_) => FieldTyView::Timestamp,
            FieldValueView::Text(_) => FieldTyView::Text,
            FieldValueView::RecordId { table_name, .. } => FieldTyView::RecordId { table_name },
        }
    }
}

impl Clone for FieldValue {
    fn clone(&self) -> (copy: Self)
        ensures
            copy.deep_view() == self.deep_view(),
    {
        match self {
            FieldValue::Int(value) => FieldValue::Int(*value),
            FieldValue::Bool(value) => FieldValue::Bool(*value),
            FieldValue::Timestamp(value) => FieldValue::Timestamp(*value),
            FieldValue::Text(value) => FieldValue::Text(value.clone()),
            FieldValue::RecordId { id, table_name } => FieldValue::RecordId {
                id: *id,
                table_name: table_name.clone(),
            },
        }
    }
}

impl FieldValue {
    /// The type of the value.
    pub fn ty(&self) -> (ty: FieldTy)
        ensures
            ty.deep_view() == self.deep_view().ty(),
    {
        match self {
            FieldValue::Int(_) => FieldTy::IntI32,
            FieldValue::Bool(_) => FieldTy::Bool,
            FieldValue::Timestamp(_) => FieldTy::Timestamp,
            FieldValue::Text(_) => FieldTy::Text,
            FieldValue::RecordId { table_name, .. } => FieldTy::RecordId {
                table_name: table_name.clone(),
            },
        }
    }

    /// The buffer after the value was packed at `offset`: as the number,
    /// boolean, timestamp, text or identifier that it holds.
    pub open spec fn packed(&self, offset: nat, buf: Seq<u8>) -> Seq<u8> {
        match self {
            FieldValue::Int(value) => value.packed(offset, buf),
            FieldValue::Bool(value) => value.packed(offset, buf),
            FieldValue::Timestamp(value) => value.packed(offset, buf),
            FieldValue::Text(value) => value.packed(offset, buf),
            FieldValue::RecordId { id, .. } => id.packed(offset, buf),
        }
    }

    /// The number of bytes that packing the value appends to the buffer.
    pub open spec fn dyn_len(&self) -> nat {
        match self {
            FieldValue::Text(value) => value.dyn_len(),
            _ => 0,
        }
    }

    /// Packs the value at `offset`, into a slot of the size of its type.
    pub fn pack(&self, offset: u32, packer: &mut BytePacker)
        requires
            offset + self.deep_view().ty().byte_count() <= old(packer)@.len(),
            old(packer)@.len() + self.dyn_len() <= u32::MAX,
        ensures
            final(packer)@ == self.packed(offset as nat, old(packer)@),
    {
        match self {
            FieldValue::Int(value) => value.pack(offset, packer),
            FieldValue::Bool(value) => value.pack(offset, packer),
            FieldValue::Timestamp(value) => value.pack(offset, packer),
            FieldValue::Text(value) => value.pack(offset, packer),
            FieldValue::RecordId { id, table_name: _ } => id.pack(offset, packer),
        }
    }

    /// Whether two values are the same.
    pub fn same(&self, other: &FieldValue) -> (same: bool)
        ensures
            same == (self.deep_view() == other.deep_view()),
    {
        match (self, other) {
            (FieldValue::Int(a), FieldValue::Int(b)) => *a == *b,
            (FieldValue::Bool(a), FieldValue::Bool(b)) => *a == *b,
            (FieldValue::Timestamp(a), FieldValue::Timestamp(b)) => a.0 == b.0,
            (FieldValue::Text(a), FieldValue::Text(b)) => str_eq(a.as_str(), b.as_str()),
            (
                FieldValue::RecordId { id: a, table_name: s },
                FieldValue::RecordId { id: b, table_name: t },
            ) => a.0 == b.0 && str_eq(s.as_str(), t.as_str()),
            _ => false,
        }
    }
}

/// What an expression evaluates to: the value of a field, or a whole record
/// together with the layout of its table.
#[derive(Debug, PartialEq, Eq)]
pub enum Value {
    Field(FieldValue),
    Record { table: Named<TableData>, record: RecordBytes },
}

/// What a [`Value`] stands for.
pub enum ValueView {
    Field(FieldValueView),
    Record { table: NamedView<TableDataView>, record: RecordBytesView },
}

impl DeepView for Value {
    type V = ValueView;

    open spec fn deep_view(&self) -> ValueView {
        match self {
            Value::Field(value) => ValueView::Field(value.deep_view()),
            Value::Record { table, record } => ValueView::Record {
                table: table.deep_view(),
                record: record.deep_view(),
            },
        }
    }
}

impl ValueView {
    /// The type of the value.
    pub open spec fn ty(self) -> TyView {
        match self {
            ValueView::Field(value) => TyView::Field(value.ty()),
            ValueView::Record { table, .. } => TyView::Table(table),
        }
    }
}

impl Clone for Value {
    fn clone(&self) -> (copy: Self)
        ensures
            copy.deep_view() == self.deep_view(),
    {
        match self {
            Value::Field(value) => Value::Field(value.clone()),
            Value::Record { table, record } => Value::Record {
                table: Named { name: table.name.clone(), value: table.value.clone() },
                record: record.clone(),
            },
        }
    }
}

impl Value {
    /// The type of the value.
    pub fn ty(&self) -> (ty: Ty)
        ensures
            ty.deep_view() == self.deep_view().ty(),
    {
        match self {
            Value::Field(value) => Ty::Field(value.ty()),
            Value::Record { table, record: _ } => Ty::Table(
                Named { name: table.name.clone(), value: table.value.clone() },
            ),
        }
    }

    /// Whether two values are the same, part by part.
    pub fn same(&self, other: &Value) -> (same: bool)
        ensures
            same == (self.deep_view() == other.deep_view()),
    {
        match (self, other) {
            (Value::Field(a), Value::Field(b)) => a.same(b),
            (Value::Record { table: s, record: a }, Value::Record { table: t, record: b }) => {
                str_eq(s.name.as_str(), t.name.as_str()) && s.value.same(&t.value) && a.same(b)
            },
            _ => false,
        }
    }
}

impl From<FieldValue> for Value {
    fn from(value: FieldValue) -> (out: Value) {
        Value::Field(value)
    }
}

impl FromSpecImpl<FieldValue> for Value {
    open spec fn obeys_from_spec() -> bool {
        true
    }

    open spec fn from_spec(value: FieldValue) -> Value {
        Value::Field(value)
    }
}

} // verus!
