//! What holds of the codec as a whole.

use vstd::prelude::*;

use crate::bytepack::buffer::{lemma_read_agrees, lemma_read_written, write_at, zeros};
use crate::bytepack::generics::lemma_null_wire;
use crate::bytepack::pack::{Pack, RoundTrip, Unpack};
use crate::bytepack::pack_pointer::{lemma_pointer_wire, PackPointer};

verus! {

/// Whatever is packed on its own is read back from the bytes: unpacking
/// at offset zero what `BytePacker::pack_value` gave yields the value.
pub proof fn lemma_pack_value_round_trip<'b, T: RoundTrip<'b>>(value: &T)
    requires
        value.round_trips(),
        T::fixed_len() + value.dyn_len() <= u32::MAX,
    ensures
        T::unpacked(0, value.packed(0, zeros(T::fixed_len()))) == Some(value.deep_view()),
{
    let buf = zeros(T::fixed_len());
    value.lemma_packed(0, buf);
    value.lemma_round_trip(0, buf, value.packed(0, buf));
}

/// Whatever is packed somewhere in a buffer is read back from there.
pub proof fn lemma_pack_round_trip<'b, T: RoundTrip<'b>>(value: &T, offset: nat, buf: Seq<u8>)
    requires
        value.round_trips(),
        offset + T::fixed_len() <= buf.len(),
        buf.len() + value.dyn_len() <= u32::MAX,
    ensures
        T::unpacked(offset, value.packed(offset, buf)) == Some(value.deep_view()),
{
    value.lemma_packed(offset, buf);
    value.lemma_round_trip(offset, buf, value.packed(offset, buf));
}

/// The parts of a pair lie side by side, the first at the offset of the
/// pair and the second right behind the first one's fixed region, whatever
/// the values are: each part is read back from its place.
pub proof fn lemma_pair_offsets<'b, A: RoundTrip<'b>, B: RoundTrip<'b>>(
    pair: &(A, B),
    offset: nat,
    buf: Seq<u8>,
)
    requires
        pair.0.round_trips(),
        pair.1.round_trips(),
        offset + A::fixed_len() + B::fixed_len() <= buf.len(),
        buf.len() + pair.0.dyn_len() + pair.1.dyn_len() <= u32::MAX,
    ensures
        <(A, B)>::fixed_len() == A::fixed_len() + B::fixed_len(),
        pair.packed(offset, buf) == pair.1.packed(
            offset + A::fixed_len(),
            pair.0.packed(offset, buf),
        ),
        A::unpacked(offset, pair.packed(offset, buf)) == Some(pair.0.deep_view()),
        B::unpacked(offset + A::fixed_len(), pair.packed(offset, buf)) == Some(
            pair.1.deep_view(),
        ),
{
    let first = pair.0.packed(offset, buf);
    let both = pair.packed(offset, buf);
    pair.0.lemma_packed(offset, buf);
    pair.1.lemma_packed(offset + A::fixed_len(), first);
    assert forall|i: int| offset <= i < offset + A::fixed_len() implies #[trigger] both[i]
        == first[i] by {}
    assert forall|i: int| buf.len() <= i < first.len() implies #[trigger] both[i] == first[i] by {}
    pair.0.lemma_round_trip(offset, buf, both);
    pair.1.lemma_round_trip(offset + A::fixed_len(), first, both);
}

/// Nothing is packed as the null pointer, offset zero and length zero,
/// and appends no byte.
pub proof fn lemma_none_is_null<T: Pack>(offset: nat, buf: Seq<u8>)
    requires
        offset + 8 <= buf.len(),
    ensures
        None::<T>.dyn_len() == 0,
        None::<T>.packed(offset, buf) == write_at(buf, offset, zeros(8)),
        PackPointer::read(None::<T>.packed(offset, buf), offset) == Some(
            PackPointer { offset: 0, len: 0 },
        ),
{
    let null = PackPointer { offset: 0, len: 0 };
    lemma_null_wire();
    lemma_pointer_wire(null);
    lemma_read_written(buf, offset, zeros(8));
}

/// An optional value decodes to nothing exactly if the null pointer is
/// stored. A pointer with offset zero and any other length, such as one
/// that carries a tag, is never taken for nothing.
pub proof fn lemma_only_null_is_none<'b, T: Unpack<'b>>(offset: nat, buf: Seq<u8>)
    ensures
        Option::<T>::unpacked(offset, buf) == Some(None::<T::V>) <==> PackPointer::read(
            buf,
            offset,
        ) == Some(PackPointer { offset: 0, len: 0 }),
{
}

} // verus!
