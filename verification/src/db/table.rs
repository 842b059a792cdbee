//! Tables described by the names and nesting types of their fields.

use vstd::prelude::*;
use vstd::std_specs::convert::FromSpecImpl;

use crate::bytepack::pack::{Pack, RoundTrip, Unpack};
use crate::bytepack::packer::BytePacker;
use crate::bytepack::packer_format::{pointer_names, size_of_first, PackerField, PackerFormat};
use crate::bytepack::unpacker::ByteUnpacker;
use crate::db::field_type::{FieldType, FieldTypeView};
use crate::db_core::defs::index::{IndexDef, IndexDefView, IndexOnDelete};
use crate::db_core::defs::table::{index_name, make_index_name};
use crate::names::{distinct_names, find_name, lemma_find_name, lemma_find_skips, str_eq};

verus! {

/// A field: its name and its type.
#[derive(Debug, PartialEq, Eq)]
pub struct TableField {
    pub name: String,
    pub ty: FieldType,
}

/// What a [`TableField`] stands for.
pub struct TableFieldView {
    pub name: Seq<char>,
    pub ty: FieldTypeView,
}

impl DeepView for TableField {
    type V = TableFieldView;

    open spec fn deep_view(&self) -> TableFieldView {
        TableFieldView { name: self.name@, ty: self.ty.deep_view() }
    }
}

impl Clone for TableField {
    fn clone(&self) -> (copy: Self)
        ensures
            copy.deep_view() == self.deep_view(),
    {
        TableField { name: self.name.clone(), ty: self.ty.clone() }
    }
}

impl TableField {
    pub fn new(name: &str, ty: FieldType) -> (field: Self)
        ensures
            field.name@ == name@,
            field.ty == ty,
    {
        TableField { name: name.to_owned(), ty }
    }

    pub fn name(&self) -> (name: &str)
        ensures
            name@ == self.name@,
    {
        self.name.as_str()
    }

    pub fn ty(&self) -> (ty: &FieldType)
        ensures
            *ty == self.ty,
    {
        &self.ty
    }
}

impl From<TableField> for PackerField {
    fn from(value: TableField) -> (field: PackerField)
        ensures
            field.name == value.name,
            field.size == value.ty.deep_view().byte_count(),
    {
        let size = value.ty.byte_count();
        PackerField { name: value.name, size }
    }
}

impl FromSpecImpl<TableField> for PackerField {
    open spec fn obeys_from_spec() -> bool {
        true
    }

    open spec fn from_spec(value: TableField) -> PackerField {
        PackerField { name: value.name, size: value.ty.deep_view().byte_count() }
    }
}

impl Pack for TableField {
    const PACK_BYTES: u32 = 16;

    open spec fn fixed_len() -> nat {
        16
    }

    proof fn lemma_pack_bytes() {
    }

    open spec fn dyn_len(&self) -> nat {
        (self.name, self.ty).dyn_len()
    }

    /// The name first, the type right behind it.
    open spec fn packed(&self, offset: nat, buf: Seq<u8>) -> Seq<u8> {
        (self.name, self.ty).packed(offset, buf)
    }

    fn pack(&self, offset: u32, packer: &mut BytePacker) {
        proof {
            self.name.lemma_packed(offset as nat, packer@);
        }
        self.name.pack(offset, packer);
        self.ty.pack(offset + 8, packer);
    }

    proof fn lemma_packed(&self, offset: nat, buf: Seq<u8>) {
        (self.name, self.ty).lemma_packed(offset, buf);
    }
}

impl<'b> Unpack<'b> for TableField {
    open spec fn unpacked(offset: nat, buf: Seq<u8>) -> Option<TableFieldView> {
        match String::unpacked(offset, buf) {
            Some(name) => if offset + 8 > u32::MAX {
                None
            } else {
                match FieldType::unpacked(offset + 8, buf) {
                    Some(ty) => Some(TableFieldView { name, ty }),
                    None => None,
                }
            },
            None => None,
        }
    }

    fn unpack(offset: u32, unpacker: &ByteUnpacker<'b>) -> (value: Option<Self>) {
        let name = match String::unpack(offset, unpacker) {
            Some(name) => name,
            None => {
                return None;
            },
        };
        if offset > u32::MAX - 8 {
            return None;
        }
        match FieldType::unpack(offset + 8, unpacker) {
            Some(ty) => Some(TableField { name, ty }),
            None => None,
        }
    }
}

impl<'b> RoundTrip<'b> for TableField {
    open spec fn round_trips(&self) -> bool {
        true
    }

    proof fn lemma_round_trip(&self, offset: nat, buf: Seq<u8>, later: Seq<u8>) {
        String::lemma_pack_bytes();
        (self.name, self.ty).lemma_round_trip(offset, buf, later);
    }
}

/// A table: its fields in order, and the name of the field that stands
/// for a record wherever one is shown.
#[derive(Debug, PartialEq, Eq)]
pub struct Table {
    pub fields: Vec<TableField>,
    pub main_display_field: Option<String>,
}

/// What a [`Table`] stands for.
pub struct TableView {
    pub fields: Seq<TableFieldView>,
    pub main_display_field: Option<Seq<char>>,
}

impl DeepView for Table {
    type V = TableView;

    open spec fn deep_view(&self) -> TableView {
        TableView {
            fields: self.fields.deep_view(),
            main_display_field: self.main_display_field.deep_view(),
        }
    }
}

/// Why a table cannot be made of the fields given.
#[derive(Debug, Clone, Copy, PartialEq, Eq, Structural)]
pub enum TableCreateErr {
    /// Two fields have the same name.
    DuplicateFieldName,
    /// The display field is no field of the table.
    MainDisplayFieldNameInvalid,
}

impl TableView {
    /// The names of the fields, in order.
    pub open spec fn names(self) -> Seq<Seq<char>> {
        Seq::new(self.fields.len(), |i: int| self.fields[i].name)
    }

    /// Why no table can be made of this, if none can.
    pub open spec fn invalid(self) -> Option<TableCreateErr> {
        if !distinct_names(self.names()) {
            Some(TableCreateErr::DuplicateFieldName)
        } else if self.main_display_field matches Some(name) && find_name(self.names(), name) is None {
            Some(TableCreateErr::MainDisplayFieldNameInvalid)
        } else {
            None
        }
    }

    /// The first field called `name`.
    pub open spec fn field(self, name: Seq<char>) -> Option<TableFieldView> {
        match find_name(self.names(), name) {
            Some(i) => Some(self.fields[i]),
            None => None,
        }
    }

    /// The sum of the sizes of the first `count` fields.
    pub open spec fn size_of_first(self, count: nat) -> nat
        decreases count,
    {
        if count == 0 || count > self.fields.len() {
            0
        } else {
            self.size_of_first((count - 1) as nat) + self.fields[count - 1].ty.byte_count() as nat
        }
    }

    /// The index over the field, if the field is a reference: references
    /// are indexed, and nothing else is.
    pub open spec fn index_for(table_name: Seq<char>, field: TableFieldView) -> Option<IndexDefView> {
        match field.ty {
            FieldTypeView::Record { .. } => Some(
                IndexDefView {
                    index_name: index_name(table_name, field.name),
                    table_name,
                    field_name: field.name,
                    on_delete: IndexOnDelete::Cascade,
                },
            ),
            _ => None,
        }
    }

    /// The indices over the first `count` fields, in order.
    pub open spec fn indices_of_first(self, table_name: Seq<char>, count: nat) -> Seq<IndexDefView>
        decreases count,
    {
        if count == 0 || count > self.fields.len() {
            Seq::empty()
        } else {
            let before = self.indices_of_first(table_name, (count - 1) as nat);
            match Self::index_for(table_name, self.fields[count - 1]) {
                Some(index) => before.push(index),
                None => before,
            }
        }
    }
}

/// Whether none of the `names` from position `i` on is the name at
/// position `i`.
pub fn name_is_unique(fields: &Vec<TableField>, i: usize) -> (unique: bool)
    requires
        i < fields@.len(),
    ensures
        unique == forall|j: int|
            i < j < fields@.len() ==> fields@[j].name@ != fields@[i as int].name@,
{
    let count = fields.len();
    let mut j: usize = i + 1;
    while j < count
        invariant
            i < j <= fields@.len(),
            count == fields@.len(),
            forall|k: int| i < k < j ==> fields@[k].name@ != fields@[i as int].name@,
        decreases fields@.len() - j,
    {
        if str_eq(fields[j].name.as_str(), fields[i].name.as_str()) {
            return false;
        }
        j += 1;
    }
    true
}

impl Table {
    /// A table of the fields given. No two fields may have the same name,
    /// and the display field, if one is named, must be one of them.
    pub fn new(fields: Vec<TableField>, main_display_field: Option<String>) -> (out: Result<
        Self,
        TableCreateErr,
    >)
        ensures
            match (TableView {
                fields: fields.deep_view(),
                main_display_field: main_display_field.deep_view(),
            }).invalid() {
                Some(err) => out == Err::<Table, TableCreateErr>(err),
                None => out matches Ok(table) && table.deep_view() == (TableView {
                    fields: fields.deep_view(),
                    main_display_field: main_display_field.deep_view(),
                }),
            },
    {
        let ghost view = TableView {
            fields: fields.deep_view(),
            main_display_field: main_display_field.deep_view(),
        };
        let ghost names = view.names();
        let mut i: usize = 0;
        while i < fields.len()
            invariant
                i <= fields@.len(),
                names == view.names(),
                view.fields == fields.deep_view(),
                names.len() == fields@.len(),
                forall|a: int, b: int| 0 <= a < i && a < b < names.len() ==> names[a] != names[b],
            decreases fields@.len() - i,
        {
            proof {
                assert forall|k: int| 0 <= k < names.len() implies names[k] == fields@[k].name@ by {
                    assert(view.fields[k] == fields@[k].deep_view());
                }
            }
            if !name_is_unique(&fields, i) {
                proof {
                    let j = choose|j: int|
                        i < j < fields@.len() && fields@[j].name@ == fields@[i as int].name@;
                    assert(names[i as int] == names[j]);
                }
                return Err(TableCreateErr::DuplicateFieldName);
            }
            i += 1;
        }
        match &main_display_field {
            Some(name) => {
                let mut found = false;
                let mut k: usize = 0;
                while k < fields.len() && !found
                    invariant
                        k <= fields@.len(),
                        names == view.names(),
                        view.fields == fields.deep_view(),
                        names.len() == fields@.len(),
                        !found ==> forall|j: int| 0 <= j < k ==> names[j] != name@,
                        found ==> exists|j: int| 0 <= j < names.len() && names[j] == name@,
                    decreases fields@.len() - k + if found { 0int } else { 1int },
                {
                    proof {
                        assert(view.fields[k as int] == fields@[k as int].deep_view());
                        assert(names[k as int] == fields@[k as int].name@);
                    }
                    if str_eq(fields[k].name.as_str(), name.as_str()) {
                        found = true;
                    } else {
                        k += 1;
                    }
                }
                proof {
                    lemma_find_name(names, name@);
                }
                if !found {
                    return Err(TableCreateErr::MainDisplayFieldNameInvalid);
                }
            },
            None => {},
        }
        Ok(Table { fields, main_display_field })
    }

    /// The first field called `name`.
    pub fn field(&self, name: &str) -> (field: Option<&TableField>)
        ensures
            field.deep_view() == self.deep_view().field(name@),
    {
        let ghost names = self.deep_view().names();
        let mut i: usize = 0;
        while i < self.fields.len()
            invariant
                i <= self.fields@.len(),
                names == self.deep_view().names(),
                names.len() == self.fields@.len(),
                forall|j: int| 0 <= j < i ==> names[j] != name@,
            decreases self.fields@.len() - i,
        {
            proof {
                assert(self.deep_view().fields[i as int] == self.fields@[i as int].deep_view());
                assert(names[i as int] == self.fields@[i as int].name@);
            }
            if str_eq(self.fields[i].name.as_str(), name) {
                proof {
                    lemma_find_skips(names, name@, i as int);
                }
                return Some(&self.fields[i]);
            }
            i += 1;
        }
        proof {
            lemma_find_skips(names, name@, i as int);
        }
        None
    }

    /// The fields, in order.
    pub fn fields(&self) -> (fields: &Vec<TableField>)
        ensures
            fields.deep_view() == self.deep_view().fields,
    {
        &self.fields
    }

    /// The name of the field that stands for a record wherever one is
    /// shown.
    pub fn main_display_field(&self) -> (name: Option<&str>)
        ensures
            name.deep_view() == self.deep_view().main_display_field,
    {
        match &self.main_display_field {
            Some(name) => Some(name.as_str()),
            None => None,
        }
    }

    /// The layout of a record of the table: each field's slot begins where
    /// the one before it ends.
    pub fn packer_format(&self) -> (format: PackerFormat)
        requires
            self.deep_view().size_of_first(self.deep_view().fields.len()) <= u32::MAX,
        ensures
            format.spec_fields().len() == self.deep_view().fields.len(),
            format.spec_fixed_byte_count() == self.deep_view().size_of_first(
                self.deep_view().fields.len(),
            ),
            forall|i: int|
                0 <= i < self.deep_view().fields.len() ==> {
                    &&& (#[trigger] format.spec_fields()[i]).name@ == self.deep_view().fields[i].name
                    &&& format.spec_fields()[i].pointer.offset == self.deep_view().size_of_first(
                        i as nat,
                    )
                    &&& format.spec_fields()[i].pointer.len
                        == self.deep_view().fields[i].ty.byte_count()
                },
    {
        let ghost view = self.deep_view();
        let mut fields: Vec<PackerField> = Vec::new();
        let mut i: usize = 0;
        while i < self.fields.len()
            invariant
                i <= self.fields@.len(),
                view == self.deep_view(),
                view.fields.len() == self.fields@.len(),
                fields@.len() == i,
                forall|k: int|
                    0 <= k < i ==> (#[trigger] fields@[k]).name@ == view.fields[k].name
                        && fields@[k].size == view.fields[k].ty.byte_count(),
            decreases self.fields@.len() - i,
        {
            proof {
                assert(view.fields[i as int] == self.fields@[i as int].deep_view());
            }
            fields.push(
                PackerField { name: self.fields[i].name.clone(), size: self.fields[i].ty.byte_count() },
            );
            i += 1;
        }
        proof {
            lemma_sizes_agree(view, fields@, fields@.len());
        }
        let format = PackerFormat::new(fields);
        proof {
            assert forall|i: int| 0 <= i < view.fields.len() implies {
                &&& (#[trigger] format.spec_fields()[i]).name@ == view.fields[i].name
                &&& format.spec_fields()[i].pointer.offset == view.size_of_first(i as nat)
                &&& format.spec_fields()[i].pointer.len == view.fields[i].ty.byte_count()
            } by {
                lemma_sizes_agree(view, fields@, i as nat);
            }
        }
        format
    }
}

/// The fields to lay out add up as the fields of the table do.
pub proof fn lemma_sizes_agree(view: TableView, fields: Seq<PackerField>, count: nat)
    requires
        count <= fields.len(),
        fields.len() == view.fields.len(),
        forall|k: int| 0 <= k < fields.len() ==> (#[trigger] fields[k]).size == view.fields[k].ty.byte_count(),
    ensures
        size_of_first(fields, count) == view.size_of_first(count),
    decreases count,
{
    if count > 0 {
        lemma_sizes_agree(view, fields, (count - 1) as nat);
    }
}

impl Pack for Table {
    const PACK_BYTES: u32 = 16;

    open spec fn fixed_len() -> nat {
        16
    }

    proof fn lemma_pack_bytes() {
    }

    open spec fn dyn_len(&self) -> nat {
        (self.fields, self.main_display_field).dyn_len()
    }

    /// The fields first, the name of the display field right behind them.
    open spec fn packed(&self, offset: nat, buf: Seq<u8>) -> Seq<u8> {
        (self.fields, self.main_display_field).packed(offset, buf)
    }

    fn pack(&self, offset: u32, packer: &mut BytePacker) {
        proof {
            self.fields.lemma_packed(offset as nat, packer@);
        }
        self.fields.pack(offset, packer);
        self.main_display_field.pack(offset + 8, packer);
    }

    proof fn lemma_packed(&self, offset: nat, buf: Seq<u8>) {
        (self.fields, self.main_display_field).lemma_packed(offset, buf);
    }
}

impl<'b> Unpack<'b> for Table {
    open spec fn unpacked(offset: nat, buf: Seq<u8>) -> Option<TableView> {
        match Vec::<TableField>::unpacked(offset, buf) {
            Some(fields) => if offset + 8 > u32::MAX {
                None
            } else {
                match Option::<String>::unpacked(offset + 8, buf) {
                    Some(main_display_field) => Some(TableView { fields, main_display_field }),
                    None => None,
                }
            },
            None => None,
        }
    }

    fn unpack(offset: u32, unpacker: &ByteUnpacker<'b>) -> (value: Option<Self>) {
        let fields = match Vec::<TableField>::unpack(offset, unpacker) {
            Some(fields) => fields,
            None => {
                return None;
            },
        };
        if offset > u32::MAX - 8 {
            return None;
        }
        match Option::<String>::unpack(offset + 8, unpacker) {
            Some(main_display_field) => Some(Table { fields, main_display_field }),
            None => None,
        }
    }
}

impl<'b> RoundTrip<'b> for Table {
    open spec fn round_trips(&self) -> bool {
        true
    }

    proof fn lemma_round_trip(&self, offset: nat, buf: Seq<u8>, later: Seq<u8>) {
        Vec::<TableField>::lemma_pack_bytes();
        assert(self.fields.round_trips());
        assert(self.main_display_field.round_trips());
        (self.fields, self.main_display_field).lemma_round_trip(offset, buf, later);
    }
}

/// A table together with its name.
#[derive(Debug, PartialEq, Eq)]
pub struct NamedTable {
    pub name: String,
    pub table: Table,
}

impl NamedTable {
    pub fn new(name: &str, table: Table) -> (named: Self)
        ensures
            named.name@ == name@,
            named.table == table,
    {
        NamedTable { name: name.to_owned(), table }
    }

    pub fn name(&self) -> (name: &str)
        ensures
            name@ == self.name@,
    {
        self.name.as_str()
    }

    /// The indices that the table keeps: a cascading one over every field
    /// that refers to a record, in the order of the fields.
    pub fn indices(&self) -> (indices: Vec<IndexDef>)
        ensures
            indices.deep_view() == self.table.deep_view().indices_of_first(
                self.name@,
                self.table.deep_view().fields.len(),
            ),
    {
        let ghost view = self.table.deep_view();
        let fields = self.table.fields();
        let mut result: Vec<IndexDef> = Vec::new();
        let mut i: usize = 0;
        assert(result.deep_view() =~= view.indices_of_first(self.name@, 0));
        while i < fields.len()
            invariant
                i <= fields@.len(),
                view == self.table.deep_view(),
                fields.deep_view() == view.fields,
                view.fields.len() == fields@.len(),
                result.deep_view() == view.indices_of_first(self.name@, i as nat),
            decreases fields@.len() - i,
        {
            let field = &fields[i];
            let ghost before = result.deep_view();
            proof {
                assert(view.fields[i as int] == field.deep_view());
            }
            match &field.ty {
                FieldType::Record { .. } => {
                    let index = IndexDef::new(
                        make_index_name(self.name.as_str(), field.name.as_str()),
                        self.name.clone(),
                        field.name.clone(),
                        IndexOnDelete::Cascade,
                    );
                    result.push(index);
                    assert(result.deep_view() =~= before.push(index.deep_view()));
                },
                _ => {},
            }
            i += 1;
        }
        result
    }
}

} // verus!
