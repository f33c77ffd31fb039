//! Unsigned integers in network byte order, read out of byte buffers.

use vstd::prelude::*;

verus! {

/// The unsigned integer that `bytes` spell in network byte order: the first
/// byte is the most significant one.
pub open spec fn be_value(bytes: Seq<u8>) -> nat
    decreases bytes.len(),
{
    if bytes.len() == 0 {
        0
    } else {
        be_value(bytes.drop_last()) * 256 + bytes.last() as nat
    }
}

/// 256 to the power `n`.
pub open spec fn pow256(n: nat) -> nat
    decreases n,
{
    if n == 0 {
        1
    } else {
        256 * pow256((n - 1) as nat)
    }
}

/// The 16-bit big-endian integer held by the two bytes at `at`.
pub open spec fn u16_at(buf: Seq<u8>, at: int) -> u16 {
    (buf[at] as nat * 256 + buf[at + 1] as nat) as u16
}

/// The 32-bit big-endian integer held by the four bytes at `at`.
pub open spec fn u32_at(buf: Seq<u8>, at: int) -> u32 {
    (((buf[at] as nat * 256 + buf[at + 1] as nat) * 256 + buf[at + 2] as nat) * 256 + buf[at
        + 3] as nat) as u32
}

/// Where the low-order bytes of the field `buf[start..end]` begin: a counter
/// keeps at most eight bytes, the last ones.
pub open spec fn low_start(start: int, end: int) -> int {
    if end - start > 8 {
        end - 8
    } else {
        start
    }
}

/// The counter value carried by the field `buf[start..end]`: its bytes read
/// as one big-endian integer. Of a field wider than eight bytes the
/// low-order 64 bits are kept.
pub open spec fn counter_value(buf: Seq<u8>, start: int, end: int) -> u64 {
    be_value(buf.subrange(low_start(start, end), end)) as u64
}

/// A big-endian integer of `n` bytes is below 256 to the `n`.
pub proof fn lemma_be_value_bound(bytes: Seq<u8>)
    ensures
        be_value(bytes) < pow256(bytes.len()),
    decreases bytes.len(),
{
    if bytes.len() > 0 {
        lemma_be_value_bound(bytes.drop_last());
        let high = be_value(bytes.drop_last());
        let below = pow256((bytes.len() - 1) as nat);
        assert(high * 256 + 255 < 256 * below) by (nonlinear_arith)
            requires
                high < below,
        ;
    }
}

/// Up to seven bytes stay below 2^56, and eight bytes span exactly 2^64.
pub proof fn lemma_pow256_small(n: nat)
    requires
        n <= 8,
    ensures
        n <= 7 ==> pow256(n) <= 0x100_0000_0000_0000,
        pow256(n) <= 0x1_0000_0000_0000_0000,
        pow256(8) == 0x1_0000_0000_0000_0000,
{
    reveal_with_fuel(pow256, 10);
}

/// The counter value is the big-endian value of the field's last eight
/// bytes, and of the whole field where it has no more than eight.
pub proof fn lemma_counter_value_exact(buf: Seq<u8>, start: int, end: int)
    requires
        0 <= start <= end <= buf.len(),
    ensures
        counter_value(buf, start, end) as nat == be_value(
            buf.subrange(low_start(start, end), end),
        ),
        end - start <= 8 ==> counter_value(buf, start, end) as nat == be_value(
            buf.subrange(start, end),
        ),
{
    let low = buf.subrange(low_start(start, end), end);
    lemma_be_value_bound(low);
    lemma_pow256_small(low.len());
}

/// The two-byte reading is the big-endian value of those two bytes.
pub proof fn lemma_u16_at_is_be_value(buf: Seq<u8>, at: int)
    requires
        0 <= at,
        at + 2 <= buf.len(),
    ensures
        u16_at(buf, at) as nat == be_value(buf.subrange(at, at + 2)),
{
    let s = buf.subrange(at, at + 2);
    assert(s.drop_last().drop_last() =~= Seq::<u8>::empty());
    assert(s.drop_last().last() == buf[at]);
    assert(s.last() == buf[at + 1]);
    reveal_with_fuel(be_value, 3);
}

/// The four-byte reading is the big-endian value of those four bytes.
pub proof fn lemma_u32_at_is_be_value(buf: Seq<u8>, at: int)
    requires
        0 <= at,
        at + 4 <= buf.len(),
    ensures
        u32_at(buf, at) as nat == be_value(buf.subrange(at, at + 4)),
{
    let s = buf.subrange(at, at + 4);
    let s3 = s.drop_last();
    let s2 = s3.drop_last();
    let s1 = s2.drop_last();
    assert(s1.drop_last() =~= Seq::<u8>::empty());
    assert(s1.last() == buf[at]);
    assert(s2.last() == buf[at + 1]);
    assert(s3.last() == buf[at + 2]);
    assert(s.last() == buf[at + 3]);
    reveal_with_fuel(be_value, 5);
}

/// Reads the two bytes at `at` as a big-endian integer.
pub fn read_u16(buf: &[u8], at: usize) -> (value: u16)
    requires
        at + 2 <= buf@.len(),
    ensures
        value == u16_at(buf@, at as int),
{
    let high: u16 = buf[at] as u16;
    let low: u16 = buf[at + 1] as u16;
    high * 256 + low
}

/// Reads the four bytes at `at` as a big-endian integer.
pub fn read_u32(buf: &[u8], at: usize) -> (value: u32)
    requires
        at + 4 <= buf@.len(),
    ensures
        value == u32_at(buf@, at as int),
{
    let b0: u32 = buf[at] as u32;
    let b1: u32 = buf[at + 1] as u32;
    let b2: u32 = buf[at + 2] as u32;
    let b3: u32 = buf[at + 3] as u32;
    ((b0 * 256 + b1) * 256 + b2) * 256 + b3
}

/// Reads the field `buf[start..end]` as a counter value.
pub fn read_counter(buf: &[u8], start: usize, end: usize) -> (value: u64)
    requires
        start <= end <= buf@.len(),
    ensures
        value == counter_value(buf@, start as int, end as int),
{
    let low: usize = if end - start > 8 {
        end - 8
    } else {
        start
    };
    let mut value: u64 = 0;
    let mut i: usize = low;
    while i < end
        invariant
            low <= i <= end <= buf@.len(),
            end - low <= 8,
            value as nat == be_value(buf@.subrange(low as int, i as int)),
        decreases end - i,
    {
        proof {
            let done = buf@.subrange(low as int, i as int);
            let next = buf@.subrange(low as int, i + 1);
            assert(next.drop_last() =~= done);
            assert(next.last() == buf@[i as int]);
            lemma_be_value_bound(done);
            lemma_pow256_small(done.len());
        }
        value = value * 256 + buf[i] as u64;
        i += 1;
    }
    value
}

} // verus!
