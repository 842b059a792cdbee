//! The table of field offsets of a record's fixed region.

use vstd::prelude::*;

use crate::bytepack::pack_pointer::PackPointer;
use crate::names::{find_from, find_name, lemma_find_skips, str_eq};

verus! {

/// A field to lay out: its name and the size of its fixed region.
#[derive(Debug, Clone, PartialEq, Eq)]
pub struct PackerField {
    pub name: String,
    pub size: u32,
}

impl PackerField {
    pub fn new(name: &str, size: u32) -> (field: Self)
        ensures
            field.name@ == name@,
            field.size == size,
    {
        PackerField { name: name.to_owned(), size }
    }
}

/// A field that was laid out: its name and the slot it has in the fixed
/// region, relative to the start of the record.
#[derive(Debug, Clone, PartialEq, Eq)]
pub struct FieldWithPointer {
    pub name: String,
    pub pointer: PackPointer,
}

/// The layout of a record's fixed region: its fields in order, each with its
/// slot. A format is built once for a schema and never changed.
#[derive(Debug, Clone, PartialEq, Eq)]
pub struct PackerFormat {
    fields: Vec<FieldWithPointer>,
    fixed_len_byte_count: u32,
}

/// The sum of the sizes of the first `count` fields.
pub open spec fn size_of_first(fields: Seq<PackerField>, count: nat) -> nat
    decreases count,
{
    if count == 0 || count > fields.len() {
        0
    } else {
        size_of_first(fields, (count - 1) as nat) + fields[count - 1].size as nat
    }
}

/// The names of laid-out fields, in order.
pub open spec fn pointer_names(fields: Seq<FieldWithPointer>) -> Seq<Seq<char>> {
    Seq::new(fields.len(), |i: int| fields[i].name@)
}

pub proof fn lemma_size_of_first_grows(fields: Seq<PackerField>, a: nat, b: nat)
    requires
        a <= b <= fields.len(),
    ensures
        size_of_first(fields, a) <= size_of_first(fields, b),
    decreases b,
{
    if a < b {
        lemma_size_of_first_grows(fields, a, (b - 1) as nat);
    }
}

impl PackerFormat {
    /// The fields with their slots, in order.
    pub closed spec fn spec_fields(&self) -> Seq<FieldWithPointer> {
        self.fields@
    }

    /// The size of the whole fixed region.
    pub closed spec fn spec_fixed_byte_count(&self) -> u32 {
        self.fixed_len_byte_count
    }

    /// Whether this is the layout of `fields`: each field's slot begins where
    /// the one before it ends, the first at zero, whatever the fields hold.
    pub open spec fn lays_out(&self, fields: Seq<PackerField>) -> bool {
        &&& self.spec_fields().len() == fields.len()
        &&& self.spec_fixed_byte_count() == size_of_first(fields, fields.len())
        &&& forall|i: int|
            0 <= i < fields.len() ==> {
                &&& (#[trigger] self.spec_fields()[i]).name@ == fields[i].name@
                &&& self.spec_fields()[i].pointer.offset == size_of_first(fields, i as nat)
                &&& self.spec_fields()[i].pointer.len == fields[i].size
            }
    }

    /// Lays out `fields` one after the other.
    pub fn new(fields: Vec<PackerField>) -> (format: Self)
        requires
            size_of_first(fields@, fields@.len()) <= u32::MAX,
        ensures
            format.lays_out(fields@),
    {
        let mut ptr_fields: Vec<FieldWithPointer> = Vec::new();
        let mut total_offset: u32 = 0;
        let mut i: usize = 0;
        while i < fields.len()
            invariant
                i <= fields@.len(),
                size_of_first(fields@, fields@.len()) <= u32::MAX,
                ptr_fields@.len() == i,
                total_offset == size_of_first(fields@, i as nat),
                forall|k: int|
                    0 <= k < i ==> {
                        &&& (#[trigger] ptr_fields@[k]).name@ == fields@[k].name@
                        &&& ptr_fields@[k].pointer.offset == size_of_first(fields@, k as nat)
                        &&& ptr_fields@[k].pointer.len == fields@[k].size
                    },
            decreases fields@.len() - i,
        {
            let field = &fields[i];
            let offset = total_offset;
            let byte_count = field.size;
            proof {
                lemma_size_of_first_grows(fields@, (i + 1) as nat, fields@.len());
            }
            total_offset = total_offset + byte_count;
            ptr_fields.push(
                FieldWithPointer {
                    name: field.name.clone(),
                    pointer: PackPointer { offset, len: byte_count },
                },
            );
            i += 1;
        }
        PackerFormat { fields: ptr_fields, fixed_len_byte_count: total_offset }
    }

    /// A format of slots that were laid out elsewhere.
    pub fn new_ptrs(fields: Vec<FieldWithPointer>, byte_count: u32) -> (format: Self)
        ensures
            format.spec_fields() == fields@,
            format.spec_fixed_byte_count() == byte_count,
    {
        PackerFormat { fields, fixed_len_byte_count: byte_count }
    }

    /// The size of the whole fixed region.
    pub fn fixed_byte_count(&self) -> (count: u32)
        ensures
            count == self.spec_fixed_byte_count(),
    {
        self.fixed_len_byte_count
    }

    /// The slot of `name`, if the format has a field of that name.
    pub open spec fn spec_field(&self, name: Seq<char>) -> Option<FieldWithPointer> {
        match find_name(pointer_names(self.spec_fields()), name) {
            Some(i) => Some(self.spec_fields()[i]),
            None => None,
        }
    }

    /// The first field of the given name.
    pub fn field<'b>(&'b self, name: &str) -> (field: Option<&'b FieldWithPointer>)
        ensures
            match field {
                Some(f) => self.spec_field(name@) == Some(*f),
                None => self.spec_field(name@) is None,
            },
    {
        let ghost names = pointer_names(self.fields@);
        let mut i: usize = 0;
        while i < self.fields.len()
            invariant
                i <= self.fields@.len(),
                names == pointer_names(self.fields@),
                forall|j: int| 0 <= j < i ==> names[j] != name@,
            decreases self.fields@.len() - i,
        {
            if str_eq(self.fields[i].name.as_str(), name) {
                proof {
                    lemma_find_skips(names, name@, i as int);
                }
                return Some(&self.fields[i]);
            }
            i += 1;
        }
        proof {
            lemma_find_skips(names, name@, i as int);
        }
        None
    }

    /// The fields with their slots, in order.
    pub fn fields<'b>(&'b self) -> (fields: &'b [FieldWithPointer])
        ensures
            fields@ == self.spec_fields(),
    {
        self.fields.as_slice()
    }
}

} // verus!
