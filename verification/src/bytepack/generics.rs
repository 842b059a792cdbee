//! Packing of optional values, sequences and pairs.

use vstd::prelude::*;

use crate::bytepack::buffer::{changes_only_slot, keeps_packed, lemma_read_agrees, lemma_read_written};
use crate::bytepack::buffer::{write_at, zeros};
use crate::bytepack::pack::{Pack, RoundTrip, Unpack};
use crate::bytepack::pack_pointer::{lemma_pointer_wire, PackPointer};
use crate::bytepack::packer::{packed_nested, BytePacker};
use crate::bytepack::unpacker::ByteUnpacker;

verus! {

/// Packing a value behind a pointer grows the buffer by the value's whole
/// size and changes nothing of what was there but the pointer's slot.
pub proof fn lemma_packed_nested<T: Pack>(buf: Seq<u8>, offset: nat, value: &T)
    requires
        offset + 8 <= buf.len(),
    ensures
        packed_nested(buf, offset, value).len() == buf.len() + T::fixed_len() + value.dyn_len(),
        changes_only_slot(buf, packed_nested(buf, offset, value), offset, 8),
{
    let ptr = PackPointer { offset: buf.len() as u32, len: T::fixed_len() as u32 };
    let grown = buf + zeros(T::fixed_len());
    let mid = write_at(grown, offset, ptr.wire());
    lemma_pointer_wire(ptr);
    lemma_read_written(grown, offset, ptr.wire());
    value.lemma_packed(buf.len(), mid);
}

/// A value packed behind a pointer is found again through that pointer.
pub proof fn lemma_nested_round_trip<'b, T: RoundTrip<'b>>(
    buf: Seq<u8>,
    offset: nat,
    value: &T,
    later: Seq<u8>,
)
    requires
        value.round_trips(),
        offset + 8 <= buf.len(),
        buf.len() + T::fixed_len() + value.dyn_len() <= u32::MAX,
        keeps_packed(packed_nested(buf, offset, value), later, offset, 8, buf.len()),
    ensures
        PackPointer::read(later, offset) == Some(
            PackPointer { offset: buf.len() as u32, len: T::fixed_len() as u32 },
        ),
        T::unpacked(buf.len(), later) == Some(value.deep_view()),
{
    let ptr = PackPointer { offset: buf.len() as u32, len: T::fixed_len() as u32 };
    let grown = buf + zeros(T::fixed_len());
    let mid = write_at(grown, offset, ptr.wire());
    let now = packed_nested(buf, offset, value);
    lemma_pointer_wire(ptr);
    lemma_read_written(grown, offset, ptr.wire());
    value.lemma_packed(buf.len(), mid);
    assert forall|i: int| offset <= i < offset + 8 implies later[i] == mid[i] by {
        assert(later[i] == now[i]);
        assert(now[i] == mid[i]);
    }
    lemma_read_agrees(mid, later, offset, 8);
    value.lemma_round_trip(buf.len(), mid, later);
}

impl<T: Pack> Pack for Option<T> {
    const PACK_BYTES: u32 = 8;

    open spec fn fixed_len() -> nat {
        8
    }

    proof fn lemma_pack_bytes() {
    }

    open spec fn dyn_len(&self) -> nat {
        match self {
            Some(value) => T::fixed_len() + value.dyn_len(),
            None => 0,
        }
    }

    /// Nothing is the null pointer; something is packed behind a pointer.
    open spec fn packed(&self, offset: nat, buf: Seq<u8>) -> Seq<u8> {
        match self {
            Some(value) => packed_nested(buf, offset, value),
            None => write_at(buf, offset, zeros(8)),
        }
    }

    fn pack(&self, offset: u32, packer: &mut BytePacker) {
        match self {
            Some(value) => {
                packer.pack_indirect(offset, value);
            },
            None => {
                proof {
                    lemma_null_wire();
                }
                PackPointer::null().pack(offset, packer);
            },
        }
    }

    proof fn lemma_packed(&self, offset: nat, buf: Seq<u8>) {
        match self {
            Some(value) => {
                lemma_packed_nested(buf, offset, value);
            },
            None => {
                lemma_read_written(buf, offset, zeros(8));
            },
        }
    }
}

/// The null pointer is eight zero bytes.
pub proof fn lemma_null_wire()
    ensures
        (PackPointer { offset: 0, len: 0 }).wire() == zeros(8),
{
    reveal_with_fuel(crate::bytepack::endian::be_bytes, 5);
    assert((PackPointer { offset: 0, len: 0 }).wire() =~= zeros(8));
}

impl<'b, T: Unpack<'b>> Unpack<'b> for Option<T> {
    /// The null pointer, and no other, is nothing; whatever else is stored
    /// is a pointer to the value.
    open spec fn unpacked(offset: nat, buf: Seq<u8>) -> Option<Option<T::V>> {
        match PackPointer::read(buf, offset) {
            Some(ptr) => if ptr.is_null() {
                Some(None)
            } else {
                match T::unpacked(ptr.offset as nat, buf) {
                    Some(value) => Some(Some(value)),
                    None => None,
                }
            },
            None => None,
        }
    }

    fn unpack(offset: u32, unpacker: &ByteUnpacker<'b>) -> (value: Option<Self>) {
        match PackPointer::unpack(offset, unpacker) {
            Some(ptr) => {
                if ptr.offset == 0 && ptr.len == 0 {
                    Some(None)
                } else {
                    match T::unpack(ptr.offset, unpacker) {
                        Some(value) => Some(Some(value)),
                        None => None,
                    }
                }
            },
            None => None,
        }
    }
}

impl<'b, T: RoundTrip<'b>> RoundTrip<'b> for Option<T> {
    open spec fn round_trips(&self) -> bool {
        match self {
            Some(value) => value.round_trips(),
            None => true,
        }
    }

    proof fn lemma_round_trip(&self, offset: nat, buf: Seq<u8>, later: Seq<u8>) {
        match self {
            Some(value) => {
                lemma_nested_round_trip(buf, offset, value, later);
            },
            None => {
                lemma_null_wire();
                lemma_pointer_wire(PackPointer { offset: 0, len: 0 });
                lemma_read_written(buf, offset, zeros(8));
                lemma_read_agrees(self.packed(offset, buf), later, offset, 8);
            },
        }
    }
}

} // verus!

verus! {

/// The buffer after each of `items` was packed in turn, item `k` at
/// `base + k * T::fixed_len()`.
pub open spec fn packed_seq<T: Pack>(items: Seq<T>, base: nat, buf: Seq<u8>) -> Seq<u8>
    decreases items.len(),
{
    if items.len() == 0 {
        buf
    } else {
        items.last().packed(
            (base + (items.len() - 1) * T::fixed_len()) as nat,
            packed_seq(items.drop_last(), base, buf),
        )
    }
}

/// The number of bytes that packing each of `items` appends.
pub open spec fn dyn_len_seq<T: Pack>(items: Seq<T>) -> nat
    decreases items.len(),
{
    if items.len() == 0 {
        0
    } else {
        dyn_len_seq(items.drop_last()) + items.last().dyn_len()
    }
}

/// The first `k` of `items` append no more than all of them.
pub proof fn lemma_dyn_len_seq_grows<T: Pack>(items: Seq<T>, k: nat)
    requires
        k <= items.len(),
    ensures
        dyn_len_seq(items.take(k as int)) <= dyn_len_seq(items),
    decreases items.len(),
{
    if k == items.len() {
        assert(items.take(k as int) =~= items);
    } else {
        lemma_dyn_len_seq_grows(items.drop_last(), k);
        assert(items.drop_last().take(k as int) =~= items.take(k as int));
    }
}

/// The buffer that a sequence's items are packed into: `buf` with one zeroed
/// slot for each item appended, and the pointer to those slots at `offset`.
pub open spec fn seq_slots<T: Pack>(items: Seq<T>, offset: nat, buf: Seq<u8>) -> Seq<u8> {
    let size = items.len() * T::fixed_len();
    write_at(
        buf + zeros(size),
        offset,
        (PackPointer { offset: buf.len() as u32, len: size as u32 }).wire(),
    )
}

/// The models of `items`, in order.
pub open spec fn seq_deep_view<T: DeepView>(items: Seq<T>) -> Seq<T::V> {
    Seq::new(items.len(), |i: int| items[i].deep_view())
}

/// The values read from `count` slots `stride` bytes apart, the first at
/// `base`; nothing if any slot lies beyond what a `u32` can address or does
/// not decode.
pub open spec fn unpacked_seq<'b, T: Unpack<'b>>(
    base: nat,
    stride: nat,
    count: nat,
    buf: Seq<u8>,
) -> Option<Seq<T::V>>
    decreases count,
{
    if count == 0 {
        Some(Seq::empty())
    } else {
        match unpacked_seq::<T>(base, stride, (count - 1) as nat, buf) {
            Some(items) => {
                let at = base + (count - 1) * stride;
                if at > u32::MAX {
                    None
                } else {
                    match T::unpacked(at as nat, buf) {
                        Some(value) => Some(items.push(value)),
                        None => None,
                    }
                }
            },
            None => None,
        }
    }
}

/// Once a slot fails to decode, so does every longer run of slots.
pub proof fn lemma_unpacked_seq_fails<'b, T: Unpack<'b>>(
    base: nat,
    stride: nat,
    k: nat,
    count: nat,
    buf: Seq<u8>,
)
    requires
        k <= count,
        unpacked_seq::<T>(base, stride, k, buf) is None,
    ensures
        unpacked_seq::<T>(base, stride, count, buf) is None,
    decreases count,
{
    if k < count {
        lemma_unpacked_seq_fails::<T>(base, stride, k, (count - 1) as nat, buf);
    }
}

/// Packing `items` grows the buffer by what they append, and leaves what the
/// first `k` of them packed as it was, but for the slots of the others.
pub proof fn lemma_packed_seq<T: Pack>(items: Seq<T>, base: nat, buf: Seq<u8>, k: nat)
    requires
        base + items.len() * T::fixed_len() <= buf.len(),
        k <= items.len(),
    ensures
        packed_seq(items, base, buf).len() == buf.len() + dyn_len_seq(items),
        dyn_len_seq(items.take(k as int)) <= dyn_len_seq(items),
        forall|i: int|
            0 <= i < buf.len() + dyn_len_seq(items.take(k as int)) && !(base + k * T::fixed_len()
                <= i < base + items.len() * T::fixed_len()) ==> #[trigger] packed_seq(
                items,
                base,
                buf,
            )[i] == packed_seq(items.take(k as int), base, buf)[i],
    decreases items.len(),
{
    let n = items.len();
    let f = T::fixed_len();
    if k == n {
        assert(items.take(k as int) =~= items);
        if n > 0 {
            let init = items.drop_last();
            assert((n - 1) * f + f == n * f) by (nonlinear_arith);
            lemma_packed_seq(init, base, buf, (n - 1) as nat);
            items.last().lemma_packed((base + (n - 1) * f) as nat, packed_seq(init, base, buf));
        }
    } else {
        let init = items.drop_last();
        let before = packed_seq(init, base, buf);
        let at = (base + (n - 1) * f) as nat;
        assert((n - 1) * f + f == n * f) by (nonlinear_arith);
        assert(k * f <= (n - 1) * f) by (nonlinear_arith)
            requires
                k <= n - 1,
                f >= 0,
        ;
        lemma_packed_seq(init, base, buf, k);
        assert(init.take(k as int) =~= items.take(k as int));
        items.last().lemma_packed(at, before);
        let after = packed_seq(items, base, buf);
        let part = packed_seq(items.take(k as int), base, buf);
        assert forall|i: int|
            0 <= i < buf.len() + dyn_len_seq(items.take(k as int)) && !(base + k * f <= i < base
                + n * f) implies #[trigger] after[i] == part[i] by {
            assert(after[i] == before[i]);
            assert(before[i] == part[i]);
        }
    }
}

impl<T: Pack> Pack for Vec<T> {
    const PACK_BYTES: u32 = 8;

    open spec fn fixed_len() -> nat {
        8
    }

    proof fn lemma_pack_bytes() {
    }

    open spec fn dyn_len(&self) -> nat {
        self@.len() * T::fixed_len() + dyn_len_seq(self@)
    }

    /// One slot for each item is appended, zeroed, and the pointer to the
    /// slots written at `offset`; then each item is packed into its slot.
    open spec fn packed(&self, offset: nat, buf: Seq<u8>) -> Seq<u8> {
        packed_seq(self@, buf.len(), seq_slots(self@, offset, buf))
    }

    fn pack(&self, offset: u32, packer: &mut BytePacker) {
        let n = self.len();
        let ghost items = self@;
        let ghost start = packer@;
        let ghost f = T::fixed_len();
        let needed: u32 = if n == 0 {
            0
        } else {
            proof {
                assert(f <= n * f) by (nonlinear_arith)
                    requires
                        n >= 1,
                        f >= 0,
                ;
                T::lemma_pack_bytes();
            }
            (T::PACK_BYTES as u64 * n as u64) as u32
        };
        assert(needed == n * f) by (nonlinear_arith)
            requires
                n == 0 ==> needed == 0,
                n != 0 ==> needed == f * n,
        ;
        let ptr = packer.reserve_dynamic_bytes(needed);
        ptr.pack(offset, packer);
        let ghost slots = packer@;
        proof {
            lemma_pointer_wire(ptr);
            assert(slots == seq_slots(items, offset as nat, start));
            assert(items.take(0) =~= Seq::<T>::empty());
        }
        let mut i: usize = 0;
        let mut at: u32 = ptr.offset;
        while i < n
            invariant
                i <= n,
                n == items.len(),
                items == self@,
                f == T::fixed_len(),
                at == start.len() + i * f,
                slots.len() == start.len() + n * f,
                start.len() + n * f + dyn_len_seq(items) <= u32::MAX,
                packer@ == packed_seq(items.take(i as int), start.len(), slots),
            decreases n - i,
        {
            let ghost part = items.take(i as int);
            let ghost next = items.take(i + 1);
            proof {
                assert(f <= n * f) by (nonlinear_arith)
                    requires
                        n >= 1,
                        f >= 0,
                ;
                T::lemma_pack_bytes();
                assert(i * f + f == (i + 1) * f) by (nonlinear_arith);
                assert((i + 1) * f <= n * f) by (nonlinear_arith)
                    requires
                        i + 1 <= n,
                        f >= 0,
                ;
                assert(i * f <= n * f) by (nonlinear_arith)
                    requires
                        i <= n,
                        f >= 0,
                ;
                assert(next.drop_last() =~= part);
                assert(next.last() == items[i as int]);
                lemma_packed_seq(part, start.len(), slots, i as nat);
                lemma_packed_seq(items, start.len(), slots, (i + 1) as nat);
            }
            self[i].pack(at, packer);
            at = at + T::PACK_BYTES;
            i += 1;
        }
        assert(items.take(n as int) =~= items);
    }

    proof fn lemma_packed(&self, offset: nat, buf: Seq<u8>) {
        let items = self@;
        let size = items.len() * T::fixed_len();
        let ptr = PackPointer { offset: buf.len() as u32, len: size as u32 };
        let grown = buf + zeros(size);
        let slots = seq_slots(items, offset, buf);
        lemma_pointer_wire(ptr);
        lemma_read_written(grown, offset, ptr.wire());
        lemma_packed_seq(items, buf.len(), slots, 0);
        assert(items.take(0) =~= Seq::<T>::empty());
        let after = self.packed(offset, buf);
        assert forall|i: int| 0 <= i < buf.len() && !(offset <= i < offset + 8) implies #[trigger] after[i]
            == buf[i] by {
            assert(after[i] == slots[i]);
        }
    }
}

impl<'b, T: Pack + Unpack<'b>> Unpack<'b> for Vec<T> {
    /// The pointer's length, divided by the size of an item's fixed region,
    /// is the number of items; each is read from its own slot.
    open spec fn unpacked(offset: nat, buf: Seq<u8>) -> Option<Seq<T::V>> {
        match PackPointer::read(buf, offset) {
            Some(ptr) => if T::PACK_BYTES == 0 {
                None
            } else {
                unpacked_seq::<T>(
                    ptr.offset as nat,
                    T::PACK_BYTES as nat,
                    (ptr.len / T::PACK_BYTES) as nat,
                    buf,
                )
            },
            None => None,
        }
    }

    fn unpack(offset: u32, unpacker: &ByteUnpacker<'b>) -> (value: Option<Self>) {
        let ptr = match PackPointer::unpack(offset, unpacker) {
            Some(ptr) => ptr,
            None => {
                return None;
            },
        };
        if T::PACK_BYTES == 0 {
            return None;
        }
        let count = ptr.len / T::PACK_BYTES;
        let ghost base = ptr.offset as nat;
        let ghost stride = T::PACK_BYTES as nat;
        let mut values: Vec<T> = Vec::new();
        let mut i: u32 = 0;
        let mut at: u64 = ptr.offset as u64;
        assert(values.deep_view() =~= Seq::<T::V>::empty());
        while i < count
            invariant
                i <= count,
                base == ptr.offset,
                stride == T::PACK_BYTES,
                stride != 0,
                count == ptr.len / T::PACK_BYTES,
                PackPointer::read(unpacker@, offset as nat) == Some(ptr),
                at == base + i * stride,
                at <= u32::MAX + stride,
                unpacked_seq::<T>(base, stride, i as nat, unpacker@) == Some(values.deep_view()),
            decreases count - i,
        {
            if at > u32::MAX as u64 {
                proof {
                    lemma_unpacked_seq_fails::<T>(
                        base,
                        stride,
                        (i + 1) as nat,
                        count as nat,
                        unpacker@,
                    );
                }
                return None;
            }
            let ghost before = values.deep_view();
            match T::unpack(at as u32, unpacker) {
                Some(value) => {
                    values.push(value);
                    assert(values.deep_view() =~= before.push(value.deep_view()));
                },
                None => {
                    proof {
                        lemma_unpacked_seq_fails::<T>(
                            base,
                            stride,
                            (i + 1) as nat,
                            count as nat,
                            unpacker@,
                        );
                    }
                    return None;
                },
            }
            proof {
                assert(i * stride + stride == (i + 1) * stride) by (nonlinear_arith);
            }
            at = at + T::PACK_BYTES as u64;
            i += 1;
        }
        Some(values)
    }
}

/// Each of the first `k` items is read back from its slot, in every buffer
/// that still holds what packing all the items left from `base` on.
pub proof fn lemma_seq_round_trip<'b, T: RoundTrip<'b>>(
    items: Seq<T>,
    base: nat,
    buf: Seq<u8>,
    later: Seq<u8>,
    k: nat,
)
    requires
        k <= items.len(),
        forall|i: int| 0 <= i < items.len() ==> (#[trigger] items[i]).round_trips(),
        base + items.len() * T::fixed_len() <= buf.len(),
        buf.len() + dyn_len_seq(items) <= u32::MAX,
        later.len() >= packed_seq(items, base, buf).len(),
        forall|i: int|
            base <= i < packed_seq(items, base, buf).len() ==> #[trigger] later[i] == packed_seq(
                items,
                base,
                buf,
            )[i],
    ensures
        unpacked_seq::<T>(base, T::fixed_len(), k, later) == Some(seq_deep_view(items.take(k as int))),
    decreases k,
{
    let f = T::fixed_len();
    let n = items.len();
    if k == 0 {
        assert(seq_deep_view(items.take(0)) =~= Seq::<T::V>::empty());
    } else {
        let j = (k - 1) as nat;
        lemma_seq_round_trip(items, base, buf, later, j);
        let part = items.take(j as int);
        let next = items.take(k as int);
        let before = packed_seq(part, base, buf);
        let after = packed_seq(next, base, buf);
        let now = packed_seq(items, base, buf);
        let at = (base + j * f) as nat;
        assert(next.drop_last() =~= part);
        assert(next.last() == items[j as int]);
        assert(j * f + f == k * f) by (nonlinear_arith)
            requires
                k == j + 1,
        ;
        assert(k * f <= n * f) by (nonlinear_arith)
            requires
                k <= n,
                f >= 0,
        ;
        lemma_packed_seq(part, base, buf, j);
        lemma_packed_seq(next, base, buf, k);
        lemma_packed_seq(items, base, buf, k);
        lemma_packed_seq(items, base, buf, n);
        assert(items.take(n as int) =~= items);
        assert(after == items[j as int].packed(at, before));
        assert forall|i: int| at <= i < at + f implies #[trigger] later[i] == after[i] by {
            assert(later[i] == now[i]);
            assert(now[i] == after[i]);
        }
        assert forall|i: int| before.len() <= i < after.len() implies #[trigger] later[i]
            == after[i] by {
            assert(later[i] == now[i]);
            assert(now[i] == after[i]);
        }
        items[j as int].lemma_round_trip(at, before, later);
        assert(seq_deep_view(next) =~= seq_deep_view(part).push(items[j as int].deep_view()));
    }
}

impl<'b, T: RoundTrip<'b>> RoundTrip<'b> for Vec<T> {
    open spec fn round_trips(&self) -> bool {
        &&& 0 < T::fixed_len() <= u32::MAX
        &&& forall|i: int| 0 <= i < self@.len() ==> (#[trigger] self@[i]).round_trips()
    }

    proof fn lemma_round_trip(&self, offset: nat, buf: Seq<u8>, later: Seq<u8>) {
        let items = self@;
        let n = items.len();
        let f = T::fixed_len();
        let size = n * f;
        let ptr = PackPointer { offset: buf.len() as u32, len: size as u32 };
        let grown = buf + zeros(size);
        let slots = seq_slots(items, offset, buf);
        let now = self.packed(offset, buf);
        T::lemma_pack_bytes();
        lemma_pointer_wire(ptr);
        lemma_read_written(grown, offset, ptr.wire());
        lemma_packed_seq(items, buf.len(), slots, 0);
        assert(items.take(0) =~= Seq::<T>::empty());
        assert forall|i: int| offset <= i < offset + 8 implies #[trigger] later[i] == slots[i] by {
            assert(later[i] == now[i]);
            assert(now[i] == slots[i]);
        }
        lemma_read_agrees(slots, later, offset, 8);
        assert(PackPointer::read(later, offset) == Some(ptr));
        assert(size / f == n) by (nonlinear_arith)
            requires
                size == n * f,
                f > 0,
        ;
        lemma_seq_round_trip(items, buf.len(), slots, later, n);
        assert(items.take(n as int) =~= items);
        assert(seq_deep_view(items) =~= self.deep_view());
    }
}

} // verus!

verus! {

impl<A: Pack, B: Pack> Pack for (A, B) {
    const PACK_BYTES: u32 = A::PACK_BYTES + B::PACK_BYTES;

    open spec fn fixed_len() -> nat {
        A::fixed_len() + B::fixed_len()
    }

    proof fn lemma_pack_bytes() {
        A::lemma_pack_bytes();
        B::lemma_pack_bytes();
    }

    open spec fn dyn_len(&self) -> nat {
        self.0.dyn_len() + self.1.dyn_len()
    }

    /// The fixed regions stand side by side: the first part at `offset`, the
    /// second right behind it.
    open spec fn packed(&self, offset: nat, buf: Seq<u8>) -> Seq<u8> {
        self.1.packed(offset + A::fixed_len(), self.0.packed(offset, buf))
    }

    fn pack(&self, offset: u32, packer: &mut BytePacker) {
        proof {
            A::lemma_pack_bytes();
            self.0.lemma_packed(offset as nat, packer@);
        }
        self.0.pack(offset, packer);
        self.1.pack(offset + A::PACK_BYTES, packer);
    }

    proof fn lemma_packed(&self, offset: nat, buf: Seq<u8>) {
        let first = self.0.packed(offset, buf);
        let both = self.packed(offset, buf);
        self.0.lemma_packed(offset, buf);
        self.1.lemma_packed(offset + A::fixed_len(), first);
        assert forall|i: int|
            0 <= i < buf.len() && !(offset <= i < offset + Self::fixed_len()) implies #[trigger] both[i]
            == buf[i] by {
            assert(both[i] == first[i]);
        }
    }
}

impl<'b, A: Pack + Unpack<'b>, B: Unpack<'b>> Unpack<'b> for (A, B) {
    /// The first part is read at `offset`, the second right behind the first
    /// one's fixed region.
    open spec fn unpacked(offset: nat, buf: Seq<u8>) -> Option<(A::V, B::V)> {
        match A::unpacked(offset, buf) {
            Some(first) => if offset + A::PACK_BYTES > u32::MAX {
                None
            } else {
                match B::unpacked(offset + A::PACK_BYTES as nat, buf) {
                    Some(second) => Some((first, second)),
                    None => None,
                }
            },
            None => None,
        }
    }

    fn unpack(offset: u32, unpacker: &ByteUnpacker<'b>) -> (value: Option<Self>) {
        let first = match A::unpack(offset, unpacker) {
            Some(first) => first,
            None => {
                return None;
            },
        };
        if offset as u64 + A::PACK_BYTES as u64 > u32::MAX as u64 {
            return None;
        }
        match B::unpack(offset + A::PACK_BYTES, unpacker) {
            Some(second) => Some((first, second)),
            None => None,
        }
    }
}

impl<'b, A: RoundTrip<'b>, B: RoundTrip<'b>> RoundTrip<'b> for (A, B) {
    open spec fn round_trips(&self) -> bool {
        self.0.round_trips() && self.1.round_trips()
    }

    proof fn lemma_round_trip(&self, offset: nat, buf: Seq<u8>, later: Seq<u8>) {
        let first = self.0.packed(offset, buf);
        let both = self.packed(offset, buf);
        A::lemma_pack_bytes();
        self.0.lemma_packed(offset, buf);
        self.1.lemma_packed(offset + A::fixed_len(), first);
        assert forall|i: int| offset <= i < offset + A::fixed_len() implies #[trigger] later[i]
            == first[i] by {
            assert(later[i] == both[i]);
            assert(both[i] == first[i]);
        }
        assert forall|i: int| buf.len() <= i < first.len() implies #[trigger] later[i]
            == first[i] by {
            assert(later[i] == both[i]);
            assert(both[i] == first[i]);
        }
        self.0.lemma_round_trip(offset, buf, later);
        self.1.lemma_round_trip(offset + A::fixed_len(), first, later);
    }
}

} // verus!
