//! Fixed-width unsigned integers as they lie in an object file.

use vstd::prelude::*;

verus! {

/// Order in which the bytes of a multi-byte field are stored.
#[derive(Clone, Copy, Debug, PartialEq, Eq, Structural)]
pub enum ByteOrder {
    /// Least significant byte first.
    Little,
    /// Most significant byte first.
    Big,
}

/// The number that `bytes` spell with the least significant byte first.
pub open spec fn le_value(bytes: Seq<u8>) -> nat
    decreases bytes.len(),
{
    if bytes.len() == 0 {
        0
    } else {
        bytes[0] as nat + 256 * le_value(bytes.drop_first())
    }
}

/// The number that `bytes` spell with the most significant byte first.
pub open spec fn be_value(bytes: Seq<u8>) -> nat
    decreases bytes.len(),
{
    if bytes.len() == 0 {
        0
    } else {
        256 * be_value(bytes.drop_last()) + bytes.last() as nat
    }
}

/// The number that `bytes` spell under the given byte order.
pub open spec fn uint_value(bytes: Seq<u8>, order: ByteOrder) -> nat {
    match order {
        ByteOrder::Little => le_value(bytes),
        ByteOrder::Big => be_value(bytes),
    }
}

/// The unsigned field of `width` bytes that starts at byte `at` of `data`.
pub open spec fn field(data: Seq<u8>, at: int, width: int, order: ByteOrder) -> nat {
    uint_value(data.subrange(at, at + width), order)
}

/// 256 to the power `n`: one more than the largest number `n` bytes can spell.
pub open spec fn radix_pow(n: nat) -> nat
    decreases n,
{
    if n == 0 {
        1
    } else {
        256 * radix_pow((n - 1) as nat)
    }
}

/// A little-endian byte string of length `n` spells a number below `256^n`.
pub proof fn lemma_le_value_bound(bytes: Seq<u8>)
    ensures
        le_value(bytes) < radix_pow(bytes.len()),
    decreases bytes.len(),
{
    if bytes.len() > 0 {
        lemma_le_value_bound(bytes.drop_first());
    }
}

/// A big-endian byte string of length `n` spells a number below `256^n`.
pub proof fn lemma_be_value_bound(bytes: Seq<u8>)
    ensures
        be_value(bytes) < radix_pow(bytes.len()),
    decreases bytes.len(),
{
    if bytes.len() > 0 {
        lemma_be_value_bound(bytes.drop_last());
    }
}

/// A field of `width` bytes is below `256^width`, whatever the byte order.
pub proof fn lemma_field_bound(data: Seq<u8>, at: int, width: int, order: ByteOrder)
    requires
        0 <= at,
        0 <= width,
        at + width <= data.len(),
    ensures
        field(data, at, width, order) < radix_pow(width as nat),
{
    let bytes = data.subrange(at, at + width);
    lemma_le_value_bound(bytes);
    lemma_be_value_bound(bytes);
}

/// The powers of 256 at the widths that object files use.
pub proof fn lemma_radix_pow_values()
    ensures
        radix_pow(0) == 1,
        radix_pow(1) == 0x100,
        radix_pow(2) == 0x1_0000,
        radix_pow(4) == 0x1_0000_0000,
        radix_pow(8) == 0x1_0000_0000_0000_0000,
{
    reveal_with_fuel(radix_pow, 9);
}

proof fn lemma_radix_pow_monotonic(a: nat, b: nat)
    requires
        a <= b,
    ensures
        radix_pow(a) <= radix_pow(b),
    decreases b,
{
    if a < b {
        lemma_radix_pow_monotonic(a, (b - 1) as nat);
    }
}

/// Reads the unsigned field of `width` bytes at offset `at`, which the caller
/// has shown to lie inside `data`.
pub fn read_uint(data: &[u8], at: usize, width: usize, order: ByteOrder) -> (value: u64)
    requires
        width <= 8,
        at + width <= data@.len(),
    ensures
        value == field(data@, at as int, width as int, order),
{
    let ghost bytes = data@.subrange(at as int, at + width);
    let len: usize = data.len();
    let mut acc: u64 = 0;
    let mut done: usize = 0;
    while done < width
        invariant
            done <= width <= 8,
            at + width <= len == data@.len(),
            bytes == data@.subrange(at as int, at + width),
            order == ByteOrder::Big ==> acc == be_value(bytes.subrange(0, done as int)),
            order == ByteOrder::Little ==> acc == le_value(
                bytes.subrange(width - done, width as int),
            ),
            acc < radix_pow(done as nat),
        decreases width - done,
    {
        let pick: usize = match order {
            ByteOrder::Big => done,
            ByteOrder::Little => width - 1 - done,
        };
        let byte: u8 = data[at + pick];
        proof {
            lemma_radix_pow_monotonic(done as nat + 1, 8);
            lemma_radix_pow_values();
            assert(radix_pow(done as nat + 1) == 256 * radix_pow(done as nat));
            assert(byte == bytes[pick as int]);
            match order {
                ByteOrder::Big => {
                    let next = bytes.subrange(0, done + 1);
                    assert(next.drop_last() =~= bytes.subrange(0, done as int));
                    assert(next.last() == byte);
                },
                ByteOrder::Little => {
                    let next = bytes.subrange(width - done - 1, width as int);
                    assert(next.drop_first() =~= bytes.subrange(width - done, width as int));
                    assert(next[0] == byte);
                },
            }
        }
        acc = acc * 256 + byte as u64;
        done = done + 1;
    }
    proof {
        assert(bytes.subrange(0, width as int) =~= bytes);
    }
    acc
}

} // verus!
