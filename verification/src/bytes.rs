//! Little-endian integers as byte strings.

use vstd::prelude::*;

verus! {

/// 256 raised to `width`: the number of values that `width` bytes can hold.
pub open spec fn radix(width: nat) -> nat
    decreases width,
{
    if width == 0 {
        1
    } else {
        256 * radix((width - 1) as nat)
    }
}

/// The `width` low base-256 digits of `value`, least significant first.
pub open spec fn le_bytes(value: nat, width: nat) -> Seq<u8>
    decreases width,
{
    if width == 0 {
        Seq::empty()
    } else {
        seq![(value % 256) as u8] + le_bytes(value / 256, (width - 1) as nat)
    }
}

/// The number whose base-256 digits, least significant first, are `bytes`.
pub open spec fn le_value(bytes: Seq<u8>) -> nat
    decreases bytes.len(),
{
    if bytes.len() == 0 {
        0
    } else {
        bytes[0] as nat + 256 * le_value(bytes.drop_first())
    }
}

/// A value written in `width` bytes takes `width` bytes.
pub proof fn lemma_le_bytes_len(value: nat, width: nat)
    ensures
        le_bytes(value, width).len() == width,
    decreases width,
{
    if width > 0 {
        lemma_le_bytes_len(value / 256, (width - 1) as nat);
    }
}

/// A byte string always denotes a number below the radix of its length.
pub proof fn lemma_le_value_bound(bytes: Seq<u8>)
    ensures
        le_value(bytes) < radix(bytes.len()),
    decreases bytes.len(),
{
    if bytes.len() > 0 {
        lemma_le_value_bound(bytes.drop_first());
    }
}

/// Reading back the bytes written for a value that fits returns the value.
pub proof fn lemma_le_value_of_bytes(value: nat, width: nat)
    requires
        value < radix(width),
    ensures
        le_value(le_bytes(value, width)) == value,
    decreases width,
{
    if width > 0 {
        let rest = le_bytes(value / 256, (width - 1) as nat);
        let all = le_bytes(value, width);
        lemma_le_value_of_bytes(value / 256, (width - 1) as nat);
        assert(all.drop_first() =~= rest);
    }
}

/// Writing the number that a byte string denotes returns the byte string.
pub proof fn lemma_le_bytes_of_value(bytes: Seq<u8>)
    ensures
        le_bytes(le_value(bytes), bytes.len()) == bytes,
    decreases bytes.len(),
{
    if bytes.len() > 0 {
        let tail = bytes.drop_first();
        let value = le_value(bytes);
        lemma_le_bytes_of_value(tail);
        assert(value % 256 == bytes[0] as nat && value / 256 == le_value(tail));
        assert(le_bytes(value, bytes.len()) =~= bytes);
    }
}

/// Two values that fit in `width` bytes and are written alike are equal.
pub proof fn lemma_le_bytes_injective(a: nat, b: nat, width: nat)
    requires
        a < radix(width),
        b < radix(width),
        le_bytes(a, width) == le_bytes(b, width),
    ensures
        a == b,
{
    lemma_le_value_of_bytes(a, width);
    lemma_le_value_of_bytes(b, width);
}

/// What four and eight bytes can hold.
pub proof fn lemma_radix_values()
    ensures
        radix(4) == 0x1_0000_0000,
        radix(8) == 0x1_0000_0000_0000_0000,
{
    reveal_with_fuel(radix, 9);
}

/// Writes `value` as `N` little-endian bytes, dropping what does not fit.
pub fn to_le<const N: usize>(value: u64) -> (bytes: [u8; N])
    ensures
        bytes@ == le_bytes(value as nat, N as nat),
{
    let mut bytes = [0u8; N];
    let mut rest: u64 = value;
    let mut at: usize = 0;
    while at < N
        invariant
            at <= N,
            bytes@.len() == N,
            bytes@.subrange(0, at as int) + le_bytes(rest as nat, (N - at) as nat) == le_bytes(
                value as nat,
                N as nat,
            ),
        decreases N - at,
    {
        let ghost before = bytes@;
        let ghost tail = le_bytes(rest as nat / 256, (N - at - 1) as nat);
        let digit: u8 = (rest % 256) as u8;
        bytes[at] = digit;
        assert(bytes@.subrange(0, at + 1) =~= before.subrange(0, at as int) + seq![digit]);
        assert((before.subrange(0, at as int) + seq![digit]) + tail =~= before.subrange(
            0,
            at as int,
        ) + (seq![digit] + tail));
        rest = rest / 256;
        at += 1;
    }
    assert(bytes@.subrange(0, N as int) =~= bytes@);
    bytes
}

/// Reads up to eight little-endian bytes as a number.
pub fn from_le<const N: usize>(bytes: &[u8; N]) -> (value: u64)
    requires
        N <= 8,
    ensures
        value == le_value(bytes@),
{
    let mut value: u64 = 0;
    let mut at: usize = N;
    while at > 0
        invariant
            at <= N <= 8,
            bytes@.len() == N,
            value == le_value(bytes@.subrange(at as int, N as int)),
        decreases at,
    {
        let ghost upper = bytes@.subrange(at as int, N as int);
        let ghost widened = bytes@.subrange(at - 1, N as int);
        proof {
            lemma_le_value_bound(upper);
            lemma_le_value_bound(widened);
            lemma_radix_monotonic(widened.len(), 8);
            lemma_radix_values();
            assert(widened.drop_first() =~= upper);
        }
        at -= 1;
        value = value * 256 + bytes[at] as u64;
    }
    assert(bytes@.subrange(0, N as int) =~= bytes@);
    value
}

/// More bytes hold at least as many values.
pub proof fn lemma_radix_monotonic(small: nat, large: nat)
    requires
        small <= large,
    ensures
        radix(small) <= radix(large),
    decreases large,
{
    if small < large {
        lemma_radix_monotonic(small, (large - 1) as nat);
    }
}

/// Compares two byte arrays of one length.
pub fn same_bytes<const N: usize>(a: &[u8; N], b: &[u8; N]) -> (same: bool)
    ensures
        same == (a@ == b@),
{
    let mut at: usize = 0;
    while at < N
        invariant
            at <= N,
            a@.len() == N,
            b@.len() == N,
            forall|i: int| 0 <= i < at ==> a@[i] == b@[i],
        decreases N - at,
    {
        if a[at] != b[at] {
            return false;
        }
        at += 1;
    }
    assert(a@ =~= b@);
    true
}

} // verus!
