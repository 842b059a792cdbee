//! Big-endian numbers as byte sequences.

use vstd::prelude::*;

verus! {

/// The number that `bytes` spell in base 256, most significant byte first.
pub open spec fn be_value(bytes: Seq<u8>) -> nat
    decreases bytes.len(),
{
    if bytes.len() == 0 {
        0
    } else {
        be_value(bytes.drop_last()) * 256 + bytes.last() as nat
    }
}

/// The `width` lowest base-256 digits of `value`, most significant first.
pub open spec fn be_bytes(value: nat, width: nat) -> Seq<u8>
    decreases width,
{
    if width == 0 {
        Seq::empty()
    } else {
        be_bytes(value / 256, (width - 1) as nat).push((value % 256) as u8)
    }
}

/// The number of values that `width` bytes can spell: 256 to the power `width`.
pub open spec fn be_limit(width: nat) -> nat
    decreases width,
{
    if width == 0 {
        1
    } else {
        256 * be_limit((width - 1) as nat)
    }
}

pub proof fn lemma_be_bytes_len(value: nat, width: nat)
    ensures
        be_bytes(value, width).len() == width,
    decreases width,
{
    if width > 0 {
        lemma_be_bytes_len(value / 256, (width - 1) as nat);
    }
}

pub proof fn lemma_be_value_bound(bytes: Seq<u8>)
    ensures
        be_value(bytes) < be_limit(bytes.len()),
    decreases bytes.len(),
{
    if bytes.len() > 0 {
        lemma_be_value_bound(bytes.drop_last());
    }
}

/// Decoding what was encoded gives the number back, as long as it fits the width.
pub proof fn lemma_be_value_of_bytes(value: nat, width: nat)
    requires
        value < be_limit(width),
    ensures
        be_value(be_bytes(value, width)) == value,
    decreases width,
{
    if width > 0 {
        let rest = be_bytes(value / 256, (width - 1) as nat);
        lemma_be_value_of_bytes(value / 256, (width - 1) as nat);
        assert(be_bytes(value, width).drop_last() =~= rest);
    }
}

/// Encoding what was decoded gives the bytes back.
pub proof fn lemma_be_bytes_of_value(bytes: Seq<u8>)
    ensures
        be_bytes(be_value(bytes), bytes.len()) == bytes,
    decreases bytes.len(),
{
    if bytes.len() > 0 {
        lemma_be_bytes_of_value(bytes.drop_last());
        assert(be_bytes(be_value(bytes), bytes.len()) =~= bytes);
    }
}

pub proof fn lemma_be_limits()
    ensures
        be_limit(1) == 0x100,
        be_limit(2) == 0x1_0000,
        be_limit(4) == 0x1_0000_0000,
        be_limit(8) == 0x1_0000_0000_0000_0000,
        be_limit(16) == 0x1_0000_0000_0000_0000_0000_0000_0000_0000,
{
    reveal_with_fuel(be_limit, 17);
}

/// Appends the `width` lowest base-256 digits of `value` to `out`, most
/// significant first.
pub fn push_be(out: &mut Vec<u8>, value: u128, width: usize)
    ensures
        final(out)@ == old(out)@ + be_bytes(value as nat, width as nat),
    decreases width,
{
    if width > 0 {
        push_be(out, value / 256, width - 1);
        out.push((value % 256) as u8);
        assert(final(out)@ =~= old(out)@ + be_bytes(value as nat, width as nat));
    } else {
        assert(final(out)@ =~= old(out)@ + be_bytes(value as nat, width as nat));
    }
}

/// The big-endian bytes of `value`, `width` of them.
pub fn to_be(value: u128, width: usize) -> (out: Vec<u8>)
    ensures
        out@ == be_bytes(value as nat, width as nat),
{
    let mut out: Vec<u8> = Vec::new();
    push_be(&mut out, value, width);
    assert(out@ =~= be_bytes(value as nat, width as nat));
    out
}

/// The number that at most sixteen bytes spell, most significant byte first.
pub fn from_be(bytes: &[u8]) -> (value: u128)
    requires
        bytes@.len() <= 16,
    ensures
        value == be_value(bytes@),
{
    let mut value: u128 = 0;
    let mut i: usize = 0;
    while i < bytes.len()
        invariant
            i <= bytes@.len() <= 16,
            value == be_value(bytes@.take(i as int)),
        decreases bytes@.len() - i,
    {
        proof {
            let next = bytes@.take(i + 1);
            assert(next.drop_last() =~= bytes@.take(i as int));
            lemma_be_value_bound(bytes@.take(i as int));
            lemma_be_value_bound(next);
            lemma_be_limit_monotone(next.len(), 16);
            lemma_be_limits();
        }
        value = value * 256 + bytes[i] as u128;
        i += 1;
    }
    assert(bytes@.take(i as int) =~= bytes@);
    value
}

pub proof fn lemma_be_limit_monotone(a: nat, b: nat)
    requires
        a <= b,
    ensures
        be_limit(a) <= be_limit(b),
        be_limit(a) >= 1,
    decreases b,
{
    if a < b {
        lemma_be_limit_monotone(a, (b - 1) as nat);
    } else if a > 0 {
        lemma_be_limit_monotone((a - 1) as nat, (a - 1) as nat);
    }
}

} // verus!
