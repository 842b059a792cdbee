//! Values that carry a name.

use vstd::prelude::*;

use crate::bytepack::pack::{Pack, RoundTrip, Unpack};
use crate::bytepack::packer::BytePacker;
use crate::bytepack::unpacker::ByteUnpacker;

verus! {

/// A value together with its name.
#[derive(Debug, PartialEq, Eq, Hash)]
pub struct Named<T> {
    pub name: String,
    pub value: T,
}

/// What a [`Named`] stands for.
pub struct NamedView<V> {
    pub name: Seq<char>,
    pub value: V,
}

impl<T: DeepView> DeepView for Named<T> {
    type V = NamedView<T::V>;

    open spec fn deep_view(&self) -> NamedView<T::V> {
        NamedView { name: self.name@, value: self.value.deep_view() }
    }
}

impl<T> Named<T> {
    pub fn new(name: &str, value: T) -> (named: Self)
        ensures
            named.name@ == name@,
            named.value == value,
    {
        Named { name: name.to_owned(), value }
    }
}

impl<T: Clone + DeepView> Clone for Named<T> {
    fn clone(&self) -> (copy: Self)
        ensures
            copy.name@ == self.name@,
    {
        Named { name: self.name.clone(), value: self.value.clone() }
    }
}

/// The names of `items`, in order.
pub open spec fn names_of<T>(items: Seq<Named<T>>) -> Seq<Seq<char>> {
    Seq::new(items.len(), |i: int| items[i].name@)
}

impl<T: Pack> Pack for Named<T> {
    const PACK_BYTES: u32 = 8 + T::PACK_BYTES;

    open spec fn fixed_len() -> nat {
        8 + T::fixed_len()
    }

    proof fn lemma_pack_bytes() {
        T::lemma_pack_bytes();
    }

    open spec fn dyn_len(&self) -> nat {
        (self.name, self.value).dyn_len()
    }

    /// The name first, the value right behind it.
    open spec fn packed(&self, offset: nat, buf: Seq<u8>) -> Seq<u8> {
        (self.name, self.value).packed(offset, buf)
    }

    fn pack(&self, offset: u32, packer: &mut BytePacker) {
        proof {
            self.name.lemma_packed(offset as nat, packer@);
        }
        self.name.pack(offset, packer);
        self.value.pack(offset + 8, packer);
    }

    proof fn lemma_packed(&self, offset: nat, buf: Seq<u8>) {
        (self.name, self.value).lemma_packed(offset, buf);
    }
}

impl<'b, T: Unpack<'b>> Unpack<'b> for Named<T> {
    open spec fn unpacked(offset: nat, buf: Seq<u8>) -> Option<NamedView<T::V>> {
        match String::unpacked(offset, buf) {
            Some(name) => if offset + 8 > u32::MAX {
                None
            } else {
                match T::unpacked(offset + 8, buf) {
                    Some(value) => Some(NamedView { name, value }),
                    None => None,
                }
            },
            None => None,
        }
    }

    fn unpack(offset: u32, unpacker: &ByteUnpacker<'b>) -> (value: Option<Self>) {
        let name = match String::unpack(offset, unpacker) {
            Some(name) => name,
            None => {
                return None;
            },
        };
        if offset > u32::MAX - 8 {
            return None;
        }
        match T::unpack(offset + 8, unpacker) {
            Some(value) => Some(Named { name, value }),
            None => None,
        }
    }
}

impl<'b, T: RoundTrip<'b>> RoundTrip<'b> for Named<T> {
    open spec fn round_trips(&self) -> bool {
        self.value.round_trips()
    }

    proof fn lemma_round_trip(&self, offset: nat, buf: Seq<u8>, later: Seq<u8>) {
        String::lemma_pack_bytes();
        (self.name, self.value).lemma_round_trip(offset, buf, later);
    }
}

} // verus!
