//! Byte buffers as sequences, and the few operations the codec performs on them.

use vstd::prelude::*;

verus! {

/// `n` zero bytes.
pub open spec fn zeros(n: nat) -> Seq<u8> {
    Seq::new(n, |i: int| 0u8)
}

/// `buf` with `data` written over the bytes from `offset` on. Nothing is
/// written beyond the end of `buf`.
pub open spec fn write_at(buf: Seq<u8>, offset: nat, data: Seq<u8>) -> Seq<u8> {
    Seq::new(
        buf.len(),
        |i: int|
            if offset <= i < offset + data.len() {
                data[i - offset]
            } else {
                buf[i]
            },
    )
}

/// The `len` bytes of `buf` from `offset` on.
pub open spec fn read_at(buf: Seq<u8>, offset: nat, len: nat) -> Seq<u8> {
    buf.subrange(offset as int, (offset + len) as int)
}

/// `after` is `buf`, possibly grown at its end, with no byte of `buf` changed
/// but those of the slot `[offset, offset + fixed)`.
pub open spec fn changes_only_slot(buf: Seq<u8>, after: Seq<u8>, offset: nat, fixed: nat) -> bool {
    &&& after.len() >= buf.len()
    &&& forall|i: int|
        0 <= i < buf.len() && !(offset <= i < offset + fixed) ==> #[trigger] after[i] == buf[i]
}

/// `later` still holds what packing a value left in `now`: the slot
/// `[offset, offset + fixed)` and every byte appended beyond `before`, the
/// length of the buffer when packing began.
pub open spec fn keeps_packed(
    now: Seq<u8>,
    later: Seq<u8>,
    offset: nat,
    fixed: nat,
    before: nat,
) -> bool {
    &&& later.len() >= now.len()
    &&& forall|i: int| offset <= i < offset + fixed ==> #[trigger] later[i] == now[i]
    &&& forall|i: int| before <= i < now.len() ==> #[trigger] later[i] == now[i]
}

pub proof fn lemma_read_written(buf: Seq<u8>, offset: nat, data: Seq<u8>)
    requires
        offset + data.len() <= buf.len(),
    ensures
        read_at(write_at(buf, offset, data), offset, data.len()) == data,
        write_at(buf, offset, data).len() == buf.len(),
        changes_only_slot(buf, write_at(buf, offset, data), offset, data.len()),
{
    assert(read_at(write_at(buf, offset, data), offset, data.len()) =~= data);
}

/// Two buffers that agree on a slot read the same bytes from it.
pub proof fn lemma_read_agrees(a: Seq<u8>, b: Seq<u8>, offset: nat, len: nat)
    requires
        offset + len <= a.len(),
        offset + len <= b.len(),
        forall|i: int| offset <= i < offset + len ==> #[trigger] b[i] == a[i],
    ensures
        read_at(a, offset, len) == read_at(b, offset, len),
{
    assert(read_at(a, offset, len) =~= read_at(b, offset, len));
}

} // verus!
