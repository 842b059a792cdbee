//! Table definitions, and the layout derived from them.

use vstd::prelude::*;

use crate::bytepack::buffer::zeros;
use crate::bytepack::generics::{dyn_len_seq, lemma_dyn_len_seq_grows};
use crate::bytepack::pack::{Pack, RoundTrip, Unpack};
use crate::bytepack::packer::BytePacker;
use crate::bytepack::unpacker::ByteUnpacker;
use crate::db_core::defs::index::{IndexDef, IndexDefView, IndexOnDelete};
use crate::db_core::named::{names_of, Named, NamedView};
use crate::db_core::ty::{FieldTy, FieldTyView};
use crate::names::{distinct_names, find_name, lemma_find_name, lemma_find_skips, str_eq};

verus! {

/// A field as it is defined: its type, and whether lookups by its value are
/// wanted.
#[derive(Debug, PartialEq, Eq)]
pub struct TableFieldDef {
    pub ty: FieldTy,
    pub has_index: bool,
}

/// What a [`TableFieldDef`] stands for.
pub struct TableFieldDefView {
    pub ty: FieldTyView,
    pub has_index: bool,
}

impl DeepView for TableFieldDef {
    type V = TableFieldDefView;

    open spec fn deep_view(&self) -> TableFieldDefView {
        TableFieldDefView { ty: self.ty.deep_view(), has_index: self.has_index }
    }
}

impl Clone for TableFieldDef {
    fn clone(&self) -> (copy: Self)
        ensures
            copy.deep_view() == self.deep_view(),
    {
        TableFieldDef { ty: self.ty.clone(), has_index: self.has_index }
    }
}

impl Pack for TableFieldDef {
    const PACK_BYTES: u32 = 9;

    open spec fn fixed_len() -> nat {
        9
    }

    proof fn lemma_pack_bytes() {
    }

    open spec fn dyn_len(&self) -> nat {
        self.ty.dyn_len()
    }

    /// The type first, the flag right behind it.
    open spec fn packed(&self, offset: nat, buf: Seq<u8>) -> Seq<u8> {
        (self.ty, self.has_index).packed(offset, buf)
    }

    fn pack(&self, offset: u32, packer: &mut BytePacker) {
        proof {
            self.ty.lemma_packed(offset as nat, packer@);
        }
        self.ty.pack(offset, packer);
        self.has_index.pack(offset + 8, packer);
    }

    proof fn lemma_packed(&self, offset: nat, buf: Seq<u8>) {
        (self.ty, self.has_index).lemma_packed(offset, buf);
    }
}

impl<'b> Unpack<'b> for TableFieldDef {
    open spec fn unpacked(offset: nat, buf: Seq<u8>) -> Option<TableFieldDefView> {
        match FieldTy::unpacked(offset, buf) {
            Some(ty) => if offset + 8 > u32::MAX {
                None
            } else {
                match bool::unpacked(offset + 8, buf) {
                    Some(has_index) => Some(TableFieldDefView { ty, has_index }),
                    None => None,
                }
            },
            None => None,
        }
    }

    fn unpack(offset: u32, unpacker: &ByteUnpacker<'b>) -> (value: Option<Self>) {
        let ty = match FieldTy::unpack(offset, unpacker) {
            Some(ty) => ty,
            None => {
                return None;
            },
        };
        if offset > u32::MAX - 8 {
            return None;
        }
        match bool::unpack(offset + 8, unpacker) {
            Some(has_index) => Some(TableFieldDef { ty, has_index }),
            None => None,
        }
    }
}

impl<'b> RoundTrip<'b> for TableFieldDef {
    open spec fn round_trips(&self) -> bool {
        true
    }

    proof fn lemma_round_trip(&self, offset: nat, buf: Seq<u8>, later: Seq<u8>) {
        FieldTy::lemma_pack_bytes();
        (self.ty, self.has_index).lemma_round_trip(offset, buf, later);
    }
}

/// A table as it is defined: its fields in order, and the position of the
/// field that stands for a record wherever one is shown.
#[derive(Debug, PartialEq, Eq)]
pub struct TableDef {
    pub fields: Vec<Named<TableFieldDef>>,
    pub main_display_field: Option<u32>,
}

/// What a [`TableDef`] stands for.
pub struct TableDefView {
    pub fields: Seq<NamedView<TableFieldDefView>>,
    pub main_display_field: Option<u32>,
}

impl DeepView for TableDef {
    type V = TableDefView;

    open spec fn deep_view(&self) -> TableDefView {
        TableDefView {
            fields: self.fields.deep_view(),
            main_display_field: self.main_display_field,
        }
    }
}

impl Pack for TableDef {
    const PACK_BYTES: u32 = 16;

    open spec fn fixed_len() -> nat {
        16
    }

    proof fn lemma_pack_bytes() {
    }

    open spec fn dyn_len(&self) -> nat {
        (self.fields, self.main_display_field).dyn_len()
    }

    /// The fields first, the display field right behind them.
    open spec fn packed(&self, offset: nat, buf: Seq<u8>) -> Seq<u8> {
        (self.fields, self.main_display_field).packed(offset, buf)
    }

    fn pack(&self, offset: u32, packer: &mut BytePacker) {
        proof {
            self.fields.lemma_packed(offset as nat, packer@);
        }
        self.fields.pack(offset, packer);
        self.main_display_field.pack(offset + 8, packer);
    }

    proof fn lemma_packed(&self, offset: nat, buf: Seq<u8>) {
        (self.fields, self.main_display_field).lemma_packed(offset, buf);
    }
}

impl<'b> Unpack<'b> for TableDef {
    open spec fn unpacked(offset: nat, buf: Seq<u8>) -> Option<TableDefView> {
        match Vec::<Named<TableFieldDef>>::unpacked(offset, buf) {
            Some(fields) => if offset + 8 > u32::MAX {
                None
            } else {
                match Option::<u32>::unpacked(offset + 8, buf) {
                    Some(main_display_field) => Some(TableDefView { fields, main_display_field }),
                    None => None,
                }
            },
            None => None,
        }
    }

    fn unpack(offset: u32, unpacker: &ByteUnpacker<'b>) -> (value: Option<Self>) {
        let fields = match Vec::<Named<TableFieldDef>>::unpack(offset, unpacker) {
            Some(fields) => fields,
            None => {
                return None;
            },
        };
        if offset > u32::MAX - 8 {
            return None;
        }
        match Option::<u32>::unpack(offset + 8, unpacker) {
            Some(main_display_field) => Some(TableDef { fields, main_display_field }),
            None => None,
        }
    }
}

impl<'b> RoundTrip<'b> for TableDef {
    open spec fn round_trips(&self) -> bool {
        true
    }

    proof fn lemma_round_trip(&self, offset: nat, buf: Seq<u8>, later: Seq<u8>) {
        Vec::<Named<TableFieldDef>>::lemma_pack_bytes();
        assert(self.fields.round_trips());
        (self.fields, self.main_display_field).lemma_round_trip(offset, buf, later);
    }
}

} // verus!

verus! {

/// A field as it is laid out: its type, the offset of its slot in a
/// record's fixed region, and whether lookups by its value are wanted.
#[derive(Debug, PartialEq, Eq, Hash)]
pub struct TableFieldData {
    pub ty: FieldTy,
    pub offset: u32,
    pub has_index: bool,
}

/// What a [`TableFieldData`] stands for.
pub struct TableFieldDataView {
    pub ty: FieldTyView,
    pub offset: u32,
    pub has_index: bool,
}

impl DeepView for TableFieldData {
    type V = TableFieldDataView;

    open spec fn deep_view(&self) -> TableFieldDataView {
        TableFieldDataView {
            ty: self.ty.deep_view(),
            offset: self.offset,
            has_index: self.has_index,
        }
    }
}

impl Clone for TableFieldData {
    fn clone(&self) -> (copy: Self)
        ensures
            copy.deep_view() == self.deep_view(),
    {
        TableFieldData { ty: self.ty.clone(), offset: self.offset, has_index: self.has_index }
    }
}

/// A table as records are packed for it: the fields with their offsets, the
/// position of the display field, and the size of the fixed region.
#[derive(Debug, PartialEq, Eq, Hash)]
pub struct TableData {
    fields: Vec<Named<TableFieldData>>,
    main_display_field: Option<usize>,
    fixed_byte_count: u32,
}

/// What a [`TableData`] stands for.
pub struct TableDataView {
    pub fields: Seq<NamedView<TableFieldDataView>>,
    pub main_display_field: Option<usize>,
    pub fixed_byte_count: u32,
}

/// The sum of the sizes of the first `count` fields.
pub open spec fn fields_size(fields: Seq<NamedView<TableFieldDefView>>, count: nat) -> nat
    decreases count,
{
    if count == 0 || count > fields.len() {
        0
    } else {
        fields_size(fields, (count - 1) as nat) + fields[count - 1].value.ty.byte_count() as nat
    }
}

pub proof fn lemma_fields_size_grows(fields: Seq<NamedView<TableFieldDefView>>, a: nat, b: nat)
    requires
        a <= b <= fields.len(),
    ensures
        fields_size(fields, a) <= fields_size(fields, b),
    decreases b,
{
    if a < b {
        lemma_fields_size_grows(fields, a, (b - 1) as nat);
    }
}

impl TableDefView {
    /// Whether the fixed region that the fields add up to can be addressed.
    pub open spec fn fits(self) -> bool {
        fields_size(self.fields, self.fields.len()) <= u32::MAX
    }

    /// The names of the fields, in order.
    pub open spec fn names(self) -> Seq<Seq<char>> {
        Seq::new(self.fields.len(), |i: int| self.fields[i].name)
    }

    /// Whether no two fields have the same name.
    pub open spec fn names_distinct(self) -> bool {
        distinct_names(self.names())
    }

    /// Whether every field for which lookups are wanted has a type whose
    /// values are keys of an index: a timestamp or a reference to a
    /// record.
    pub open spec fn indexed_fields_have_keys(self) -> bool {
        forall|i: int|
            0 <= i < self.fields.len() && (#[trigger] self.fields[i]).value.has_index ==> (
            self.fields[i].value.ty is Timestamp || self.fields[i].value.ty is RecordId)
    }

    /// The layout of the table: each field's slot begins where the one
    /// before it ends, the first at zero. A display field that is no field
    /// of the table is dropped.
    pub open spec fn layout(self) -> TableDataView {
        TableDataView {
            fields: Seq::new(
                self.fields.len(),
                |i: int|
                    NamedView {
                        name: self.fields[i].name,
                        value: TableFieldDataView {
                            ty: self.fields[i].value.ty,
                            offset: fields_size(self.fields, i as nat) as u32,
                            has_index: self.fields[i].value.has_index,
                        },
                    },
            ),
            main_display_field: match self.main_display_field {
                Some(idx) => if idx < self.fields.len() {
                    Some(idx as usize)
                } else {
                    None
                },
                None => None,
            },
            fixed_byte_count: fields_size(self.fields, self.fields.len()) as u32,
        }
    }
}

impl TableDataView {
    /// The names of the fields, in order.
    pub open spec fn names(self) -> Seq<Seq<char>> {
        Seq::new(self.fields.len(), |i: int| self.fields[i].name)
    }

    /// The position of the first field called `name`.
    pub open spec fn index_of_field(self, name: Seq<char>) -> Option<int> {
        find_name(self.names(), name)
    }

    /// The first field called `name`.
    pub open spec fn field(self, name: Seq<char>) -> Option<TableFieldDataView> {
        match self.index_of_field(name) {
            Some(i) => Some(self.fields[i].value),
            None => None,
        }
    }

    /// Whether the display field, if there is one, is a field of the table.
    pub open spec fn wf(self) -> bool {
        self.main_display_field matches Some(idx) ==> idx < self.fields.len()
    }

    /// The index that the table keeps over `field`, if it keeps one: a
    /// cascading one over every reference to a record, and a plain one over
    /// every other field for which lookups are wanted.
    pub open spec fn index_for(
        table_name: Seq<char>,
        field: NamedView<TableFieldDataView>,
    ) -> Option<IndexDefView> {
        if field.value.ty is RecordId {
            Some(
                IndexDefView {
                    index_name: index_name(table_name, field.name),
                    table_name,
                    field_name: field.name,
                    on_delete: IndexOnDelete::Cascade,
                },
            )
        } else if field.value.has_index {
            Some(
                IndexDefView {
                    index_name: index_name(table_name, field.name),
                    table_name,
                    field_name: field.name,
                    on_delete: IndexOnDelete::NoAction,
                },
            )
        } else {
            None
        }
    }

    /// The indices over the first `count` fields, in the order of the fields.
    pub open spec fn indices_of_first(self, table_name: Seq<char>, count: nat) -> Seq<IndexDefView>
        decreases count,
    {
        if count == 0 || count > self.fields.len() {
            Seq::empty()
        } else {
            let before = self.indices_of_first(table_name, (count - 1) as nat);
            match Self::index_for(table_name, self.fields[count - 1]) {
                Some(index) => before.push(index),
                None => before,
            }
        }
    }

    /// The indices that the table keeps, in the order of its fields.
    pub open spec fn indices(self, table_name: Seq<char>) -> Seq<IndexDefView> {
        self.indices_of_first(table_name, self.fields.len())
    }
}

/// The name of the index over a field of a table: `#`, the table's name,
/// `:`, the field's name.
pub open spec fn index_name(table_name: Seq<char>, field_name: Seq<char>) -> Seq<char> {
    seq!['#'] + table_name + seq![':'] + field_name
}

/// The name of the index over a field of a table.
pub fn make_index_name(table_name: &str, field_name: &str) -> (name: String)
    ensures
        name@ == index_name(table_name@, field_name@),
{
    let mut name = "#".to_owned();
    name.append(table_name);
    name.append(":");
    name.append(field_name);
    proof {
        reveal_strlit("#");
        reveal_strlit(":");
        assert("#"@ =~= seq!['#']);
        assert(":"@ =~= seq![':']);
        assert(name@ =~= index_name(table_name@, field_name@));
    }
    name
}

impl DeepView for TableData {
    type V = TableDataView;

    closed spec fn deep_view(&self) -> TableDataView {
        TableDataView {
            fields: self.fields.deep_view(),
            main_display_field: self.main_display_field,
            fixed_byte_count: self.fixed_byte_count,
        }
    }
}

impl Clone for TableData {
    fn clone(&self) -> (copy: Self)
        ensures
            copy.deep_view() == self.deep_view(),
    {
        let mut fields: Vec<Named<TableFieldData>> = Vec::new();
        let mut i: usize = 0;
        while i < self.fields.len()
            invariant
                i <= self.fields@.len(),
                fields@.len() == i,
                forall|k: int| 0 <= k < i ==> fields@[k].deep_view() == self.fields@[k].deep_view(),
            decreases self.fields@.len() - i,
        {
            let field = &self.fields[i];
            fields.push(Named { name: field.name.clone(), value: field.value.clone() });
            i += 1;
        }
        assert(fields.deep_view() =~= self.fields.deep_view());
        proof {
            use_type_invariant(self);
        }
        TableData {
            fields,
            main_display_field: self.main_display_field,
            fixed_byte_count: self.fixed_byte_count,
        }
    }
}

impl TableDef {
    /// The number of bytes that the definition is packed into on its own:
    /// its fixed region and what packing appends.
    pub open spec fn packed_len(&self) -> nat {
        16 + self.dyn_len()
    }

    /// The number of bytes that the definition is packed into on its own;
    /// nothing if that is more than a buffer can hold.
    pub fn packed_size(&self) -> (size: Option<u32>)
        ensures
            match size {
                Some(count) => count == self.packed_len(),
                None => self.packed_len() > u32::MAX,
            },
    {
        let ghost items = self.fields@;
        let limit: u64 = 0xffff_ffff;
        let mut total: u64 = match self.main_display_field {
            Some(_) => 20,
            None => 16,
        };
        proof {
            assert(items.take(0) =~= Seq::<Named<TableFieldDef>>::empty());
        }
        let mut i: usize = 0;
        while i < self.fields.len()
            invariant
                i <= items.len(),
                items == self.fields@,
                limit == u32::MAX,
                total == 16 + self.main_display_field.dyn_len() + i * 17 + dyn_len_seq(
                    items.take(i as int),
                ),
                total <= limit,
            decreases items.len() - i,
        {
            let field = &self.fields[i];
            proof {
                assert(items.take(i + 1).drop_last() =~= items.take(i as int));
                assert(items.take(i + 1).last() == items[i as int]);
                assert(items[i as int].dyn_len() == field.name.dyn_len() + field.value.ty.dyn_len());
                lemma_dyn_len_seq_grows(items, (i + 1) as nat);
                assert((i + 1) * 17 <= items.len() * 17) by (nonlinear_arith)
                    requires
                        i + 1 <= items.len(),
                ;
                assert((i + 1) * 17 == i * 17 + 17) by (nonlinear_arith);
            }
            let name = field.name.as_str().as_bytes().len();
            let extra = match &field.value.ty {
                FieldTy::RecordId { table_name } => table_name.as_str().as_bytes().len(),
                _ => 0,
            };
            if name > 0xffff_ffff || extra > 0xffff_ffff {
                return None;
            }
            total = total + 17 + name as u64 + extra as u64 + match &field.value.ty {
                FieldTy::RecordId { .. } => 4,
                _ => 0,
            };
            if total > limit {
                return None;
            }
            i += 1;
        }
        proof {
            assert(items.take(i as int) =~= items);
        }
        Some(total as u32)
    }

    /// The definition packed on its own, at offset zero; nothing if it is
    /// too large for a buffer.
    pub fn to_bytes(&self) -> (bytes: Option<Vec<u8>>)
        ensures
            match bytes {
                Some(packed) => self.packed_len() <= u32::MAX && packed@ == self.packed(
                    0,
                    zeros(16),
                ),
                None => self.packed_len() > u32::MAX,
            },
    {
        match self.packed_size() {
            Some(_) => Some(BytePacker::pack_value(self)),
            None => None,
        }
    }

    /// Whether no two fields have the same name.
    pub fn names_distinct(&self) -> (distinct: bool)
        ensures
            distinct == self.deep_view().names_distinct(),
    {
        let ghost names = self.deep_view().names();
        let count = self.fields.len();
        let mut i: usize = 0;
        while i < count
            invariant
                i <= count,
                count == self.fields@.len(),
                names == self.deep_view().names(),
                forall|a: int, b: int| 0 <= a < i && a < b < count ==> names[a] != names[b],
            decreases count - i,
        {
            let mut j: usize = i + 1;
            while j < count
                invariant
                    i < j <= count,
                    count == self.fields@.len(),
                    names == self.deep_view().names(),
                    forall|b: int| i < b < j ==> names[i as int] != names[b],
                decreases count - j,
            {
                proof {
                    assert(names[i as int] == self.fields@[i as int].name@);
                    assert(names[j as int] == self.fields@[j as int].name@);
                }
                if str_eq(self.fields[i].name.as_str(), self.fields[j].name.as_str()) {
                    return false;
                }
                j += 1;
            }
            i += 1;
        }
        true
    }

    /// Whether every field for which lookups are wanted has a type whose
    /// values are keys of an index.
    pub fn indexed_fields_have_keys(&self) -> (have: bool)
        ensures
            have == self.deep_view().indexed_fields_have_keys(),
    {
        let ghost fields = self.deep_view().fields;
        let mut i: usize = 0;
        while i < self.fields.len()
            invariant
                i <= self.fields@.len(),
                fields == self.deep_view().fields,
                forall|k: int|
                    0 <= k < i && (#[trigger] fields[k]).value.has_index ==> (fields[k].value.ty
                        is Timestamp || fields[k].value.ty is RecordId),
            decreases self.fields@.len() - i,
        {
            proof {
                assert(fields[i as int] == self.fields@[i as int].deep_view());
            }
            let field = &self.fields[i].value;
            if field.has_index {
                match &field.ty {
                    FieldTy::Timestamp => {},
                    FieldTy::RecordId { .. } => {},
                    _ => {
                        return false;
                    },
                }
            }
            i += 1;
        }
        true
    }

    /// Whether the fixed region that the fields add up to can be addressed.
    pub fn fits(&self) -> (fits: bool)
        ensures
            fits == self.deep_view().fits(),
    {
        let mut total: u64 = 0;
        let mut i: usize = 0;
        while i < self.fields.len()
            invariant
                i <= self.fields@.len(),
                total == fields_size(self.deep_view().fields, i as nat),
                total <= u32::MAX,
            decreases self.fields@.len() - i,
        {
            let size = self.fields[i].value.ty.byte_count();
            proof {
                assert(self.deep_view().fields[i as int].value.ty == self.fields@[i as int].value.ty.deep_view());
                lemma_fields_size_grows(
                    self.deep_view().fields,
                    (i + 1) as nat,
                    self.fields@.len(),
                );
            }
            total = total + size as u64;
            if total > u32::MAX as u64 {
                return false;
            }
            i += 1;
        }
        true
    }
}

impl TableData {
    /// The display field, if there is one, is a field of the table.
    #[verifier::type_invariant]
    closed spec fn display_field_exists(&self) -> bool {
        self.main_display_field matches Some(idx) ==> idx < self.fields@.len()
    }

    /// Lays out the fields of `def` one after the other.
    pub fn new(def: TableDef) -> (data: Self)
        requires
            def.deep_view().fits(),
        ensures
            data.deep_view() == def.deep_view().layout(),
            data.deep_view().wf(),
    {
        let ghost spec_fields = def.deep_view().fields;
        let mut fields: Vec<Named<TableFieldData>> = Vec::new();
        let mut offset: u32 = 0;
        let mut i: usize = 0;
        while i < def.fields.len()
            invariant
                i <= def.fields@.len(),
                spec_fields == def.deep_view().fields,
                fields_size(spec_fields, spec_fields.len()) <= u32::MAX,
                fields@.len() == i,
                offset == fields_size(spec_fields, i as nat),
                forall|k: int|
                    0 <= k < i ==> (#[trigger] fields@[k]).deep_view() == def.deep_view().layout().fields[k],
            decreases def.fields@.len() - i,
        {
            let field = &def.fields[i];
            proof {
                assert(spec_fields[i as int] == def.fields@[i as int].deep_view());
                lemma_fields_size_grows(spec_fields, (i + 1) as nat, spec_fields.len());
            }
            let data = TableFieldData {
                ty: field.value.ty.clone(),
                offset,
                has_index: field.value.has_index,
            };
            offset = offset + field.value.ty.byte_count();
            fields.push(Named { name: field.name.clone(), value: data });
            i += 1;
        }
        let main_display_field = match def.main_display_field {
            Some(idx) => if (idx as usize) < fields.len() {
                Some(idx as usize)
            } else {
                None
            },
            None => None,
        };
        assert(fields.deep_view() =~= def.deep_view().layout().fields);
        TableData { fields, main_display_field, fixed_byte_count: offset }
    }

    /// The indices that the table keeps, in the order of its fields: a
    /// cascading one over every reference to a record, and a plain one over
    /// every other field for which lookups are wanted.
    pub fn indices(&self, table_name: &str) -> (indices: Vec<IndexDef>)
        ensures
            indices.deep_view() == self.deep_view().indices(table_name@),
    {
        let ghost view = self.deep_view();
        let mut result: Vec<IndexDef> = Vec::new();
        let mut i: usize = 0;
        assert(result.deep_view() =~= view.indices_of_first(table_name@, 0));
        while i < self.fields.len()
            invariant
                i <= self.fields@.len(),
                view == self.deep_view(),
                result.deep_view() == view.indices_of_first(table_name@, i as nat),
            decreases self.fields@.len() - i,
        {
            let field = &self.fields[i];
            let ghost before = result.deep_view();
            proof {
                assert(view.fields[i as int] == field.deep_view());
            }
            match field.value.ty {
                FieldTy::RecordId { .. } => {
                    let index = IndexDef {
                        index_name: make_index_name(table_name, field.name.as_str()),
                        table_name: table_name.to_owned(),
                        field_name: field.name.clone(),
                        on_delete: IndexOnDelete::Cascade,
                    };
                    result.push(index);
                    assert(result.deep_view() =~= before.push(index.deep_view()));
                },
                _ => {
                    if field.value.has_index {
                        let index = IndexDef {
                            index_name: make_index_name(table_name, field.name.as_str()),
                            table_name: table_name.to_owned(),
                            field_name: field.name.clone(),
                            on_delete: IndexOnDelete::NoAction,
                        };
                        result.push(index);
                        assert(result.deep_view() =~= before.push(index.deep_view()));
                    }
                },
            }
            i += 1;
        }
        result
    }

    /// The field that stands for a record wherever one is shown.
    pub fn main_display_field(&self) -> (field: Option<&Named<TableFieldData>>)
        ensures
            self.deep_view().wf(),
            match self.deep_view().main_display_field {
                Some(idx) => field matches Some(f) && f.deep_view() == self.deep_view().fields[idx as int],
                None => field is None,
            },
    {
        proof {
            use_type_invariant(self);
        }
        match self.main_display_field {
            Some(idx) => Some(&self.fields[idx]),
            None => None,
        }
    }

    /// The position of the display field among the fields.
    pub fn main_display_field_idx(&self) -> (idx: Option<usize>)
        ensures
            idx == self.deep_view().main_display_field,
    {
        self.main_display_field
    }

    /// The fields, in order.
    pub fn fields(&self) -> (fields: &Vec<Named<TableFieldData>>)
        ensures
            fields.deep_view() == self.deep_view().fields,
    {
        &self.fields
    }

    /// The size of a record's fixed region.
    pub fn fixed_byte_count(&self) -> (count: u32)
        ensures
            count == self.deep_view().fixed_byte_count,
    {
        self.fixed_byte_count
    }

    /// Whether the table has a field called `name`.
    pub fn has_field(&self, name: &str) -> (found: bool)
        ensures
            found == self.deep_view().index_of_field(name@).is_some(),
    {
        self.index_of_field(name).is_some()
    }

    /// The position of the first field called `name`.
    pub fn index_of_field(&self, name: &str) -> (idx: Option<usize>)
        ensures
            match idx {
                Some(i) => self.deep_view().index_of_field(name@) == Some(i as int),
                None => self.deep_view().index_of_field(name@) is None,
            },
            idx matches Some(i) ==> i < self.deep_view().fields.len(),
    {
        let ghost names = self.deep_view().names();
        let mut i: usize = 0;
        while i < self.fields.len()
            invariant
                i <= self.fields@.len(),
                names == self.deep_view().names(),
                names.len() == self.fields@.len(),
                forall|j: int| 0 <= j < i ==> names[j] != name@,
            decreases self.fields@.len() - i,
        {
            proof {
                assert(names[i as int] == self.fields@[i as int].name@);
            }
            if str_eq(self.fields[i].name.as_str(), name) {
                proof {
                    lemma_find_skips(names, name@, i as int);
                }
                return Some(i);
            }
            i += 1;
        }
        proof {
            lemma_find_skips(names, name@, i as int);
        }
        None
    }

    /// The first field called `name`.
    pub fn field<'a>(&'a self, name: &str) -> (field: Option<&'a TableFieldData>)
        ensures
            field.deep_view() == self.deep_view().field(name@),
    {
        match self.index_of_field(name) {
            Some(idx) => {
                let field = &self.fields[idx].value;
                proof {
                    assert(self.deep_view().fields[idx as int] == self.fields@[idx as int].deep_view());
                }
                Some(field)
            },
            None => None,
        }
    }
}

} // verus!

verus! {

impl TableFieldData {
    /// Whether two fields are laid out alike.
    pub fn same(&self, other: &TableFieldData) -> (same: bool)
        ensures
            same == (self.deep_view() == other.deep_view()),
    {
        self.ty.same(&other.ty) && self.offset == other.offset && self.has_index
            == other.has_index
    }
}

impl TableData {
    /// Whether two tables are laid out alike, field by field.
    pub fn same(&self, other: &TableData) -> (same: bool)
        ensures
            same == (self.deep_view() == other.deep_view()),
    {
        proof {
            assert(self.deep_view().fields.len() == self.fields@.len());
            assert(other.deep_view().fields.len() == other.fields@.len());
        }
        if self.fields.len() != other.fields.len() || self.fixed_byte_count
            != other.fixed_byte_count {
            return false;
        }
        let same_display = match (self.main_display_field, other.main_display_field) {
            (Some(a), Some(b)) => a == b,
            (None, None) => true,
            _ => false,
        };
        if !same_display {
            return false;
        }
        let mut i: usize = 0;
        while i < self.fields.len()
            invariant
                i <= self.fields@.len(),
                self.fields@.len() == other.fields@.len(),
                forall|k: int|
                    0 <= k < i ==> self.fields@[k].deep_view() == other.fields@[k].deep_view(),
            decreases self.fields@.len() - i,
        {
            let a = &self.fields[i];
            let b = &other.fields[i];
            if !str_eq(a.name.as_str(), b.name.as_str()) || !a.value.same(&b.value) {
                proof {
                    assert(self.deep_view().fields[i as int] == a.deep_view());
                    assert(other.deep_view().fields[i as int] == b.deep_view());
                }
                return false;
            }
            i += 1;
        }
        assert(self.fields.deep_view() =~= other.fields.deep_view());
        true
    }
}

} // verus!

verus! {

/// Every index that a layout calls for is kept over a field of the
/// layout, belongs to the table, is named after table and field, and
/// either cascades or does nothing when a record is deleted.
pub proof fn lemma_indices_of_first(data: TableDataView, table_name: Seq<char>, count: nat)
    requires
        count <= data.fields.len(),
    ensures
        forall|q: int|
            0 <= q < data.indices_of_first(table_name, count).len() ==> {
                let index = #[trigger] data.indices_of_first(table_name, count)[q];
                &&& data.field(index.field_name) is Some
                &&& index.table_name == table_name
                &&& index.index_name == index_name(table_name, index.field_name)
                &&& index.on_delete != IndexOnDelete::SetNone
            },
    decreases count,
{
    if count > 0 {
        lemma_indices_of_first(data, table_name, (count - 1) as nat);
        let before = data.indices_of_first(table_name, (count - 1) as nat);
        let field = data.fields[count - 1];
        match TableDataView::index_for(table_name, field) {
            Some(index) => {
                assert(data.names()[count - 1] == field.name);
                lemma_find_name(data.names(), field.name);
                assert forall|q: int|
                    0 <= q < data.indices_of_first(table_name, count).len() implies {
                    let index = #[trigger] data.indices_of_first(table_name, count)[q];
                    &&& data.field(index.field_name) is Some
                    &&& index.table_name == table_name
                    &&& index.index_name == index_name(table_name, index.field_name)
                    &&& index.on_delete != IndexOnDelete::SetNone
                } by {
                    if q < before.len() {
                        assert(data.indices_of_first(table_name, count)[q] == before[q]);
                    }
                }
            },
            None => {},
        }
    }
}

} // verus!
