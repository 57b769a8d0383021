//! The validity id: the integrity tag that the game client derives from the
//! specification payload and stores beside it.

use crate::cipher::{cipher_entry, cipher_lookup};
use vstd::prelude::*;

verus! {

/// The low accumulator after every byte of `payload`: the sum of the table
/// entries of its bytes, modulo 65536.
pub open spec fn checksum_low(payload: Seq<u8>) -> int
    decreases payload.len(),
{
    if payload.len() == 0 {
        0
    } else {
        (checksum_low(payload.drop_last()) + cipher_entry(payload.last())) % 0x1_0000
    }
}

/// The high accumulator after every byte of `payload`: the sum, modulo 65536,
/// of the values that the low accumulator took after each byte.
pub open spec fn checksum_high(payload: Seq<u8>) -> int
    decreases payload.len(),
{
    if payload.len() == 0 {
        0
    } else {
        (checksum_high(payload.drop_last()) + checksum_low(payload)) % 0x1_0000
    }
}

/// The 32-bit pattern with the high accumulator in its upper half and the low
/// accumulator in its lower half, read as a two's complement number.
pub open spec fn checksum_value(payload: Seq<u8>) -> int {
    let pattern = checksum_high(payload) * 0x1_0000 + checksum_low(payload);
    if pattern >= 0x8000_0000 {
        pattern - 0x1_0000_0000
    } else {
        pattern
    }
}

/// The ASCII digits of `n` in base ten, most significant first, without
/// leading zeros.
pub open spec fn decimal_digits(n: nat) -> Seq<u8>
    decreases n,
{
    if n < 10 {
        seq![(0x30 + n) as u8]
    } else {
        decimal_digits(n / 10).push((0x30 + n % 10) as u8)
    }
}

/// `v` in base ten as ASCII, with a leading `-` when it is negative.
pub open spec fn decimal_text(v: int) -> Seq<u8> {
    if v < 0 {
        seq![0x2Du8] + decimal_digits((-v) as nat)
    } else {
        decimal_digits(v as nat)
    }
}

/// The validity id of a specification payload: the ASCII text `7799`, the
/// checksum in base ten, and one terminating zero byte.
pub open spec fn validity_id_of(payload: Seq<u8>) -> Seq<u8> {
    seq![0x37u8, 0x37u8, 0x39u8, 0x39u8] + decimal_text(checksum_value(payload)) + seq![0u8]
}

/// The largest number of bytes that a validity id takes: four for `7799`, one
/// for a sign, ten digits and the terminating zero.
pub const MAX_VALIDITY_ID_LEN: usize = 16;

/// A number below ten to the power of k has at most k digits, for k up to ten.
pub proof fn lemma_decimal_digits_len(n: nat)
    ensures
        decimal_digits(n).len() >= 1,
        n < 10 ==> decimal_digits(n).len() <= 1,
        n < 100 ==> decimal_digits(n).len() <= 2,
        n < 1_000 ==> decimal_digits(n).len() <= 3,
        n < 10_000 ==> decimal_digits(n).len() <= 4,
        n < 100_000 ==> decimal_digits(n).len() <= 5,
        n < 1_000_000 ==> decimal_digits(n).len() <= 6,
        n < 10_000_000 ==> decimal_digits(n).len() <= 7,
        n < 100_000_000 ==> decimal_digits(n).len() <= 8,
        n < 1_000_000_000 ==> decimal_digits(n).len() <= 9,
        n < 10_000_000_000 ==> decimal_digits(n).len() <= 10,
    decreases n,
{
    if n >= 10 {
        lemma_decimal_digits_len(n / 10);
    }
}

/// Both accumulators stay below 65536, so the checksum is a 32-bit number.
pub proof fn lemma_checksum_range(payload: Seq<u8>)
    ensures
        0 <= checksum_low(payload) < 0x1_0000,
        0 <= checksum_high(payload) < 0x1_0000,
        -0x8000_0000 <= checksum_value(payload) < 0x8000_0000,
    decreases payload.len(),
{
    if payload.len() > 0 {
        lemma_checksum_range(payload.drop_last());
    }
}

/// A validity id is never empty and never longer than sixteen bytes.
pub proof fn lemma_validity_id_len(payload: Seq<u8>)
    ensures
        6 <= validity_id_of(payload).len() <= MAX_VALIDITY_ID_LEN,
{
    lemma_checksum_range(payload);
    let value = checksum_value(payload);
    if value < 0 {
        lemma_decimal_digits_len((-value) as nat);
    } else {
        lemma_decimal_digits_len(value as nat);
    }
}

/// Runs both accumulators over `payload` and returns the signed checksum.
pub fn checksum(payload: &[u8]) -> (value: i32)
    ensures
        value == checksum_value(payload@),
{
    let mut low: u16 = 0;
    let mut high: u16 = 0;
    let mut i: usize = 0;
    while i < payload.len()
        invariant
            i <= payload.len(),
            low == checksum_low(payload@.take(i as int)),
            high == checksum_high(payload@.take(i as int)),
        decreases payload.len() - i,
    {
        proof {
            assert(payload@.take(i + 1).drop_last() =~= payload@.take(i as int));
        }
        low = low.wrapping_add(cipher_lookup(payload[i]));
        high = high.wrapping_add(low);
        i += 1;
    }
    proof {
        assert(payload@.take(i as int) =~= payload@);
    }
    let pattern: u32 = high as u32 * 0x1_0000 + low as u32;
    if pattern >= 0x8000_0000 {
        (pattern as i64 - 0x1_0000_0000) as i32
    } else {
        pattern as i32
    }
}

/// Appends the base-ten digits of `n` to `out`.
fn push_decimal_digits(out: &mut Vec<u8>, n: u32)
    ensures
        final(out)@ == old(out)@ + decimal_digits(n as nat),
    decreases n,
{
    if n >= 10 {
        push_decimal_digits(out, n / 10);
    }
    out.push(0x30 + (n % 10) as u8);
}

/// Computes the validity id of a specification payload.
pub fn validity_id(payload: &[u8]) -> (id: Vec<u8>)
    ensures
        id@ == validity_id_of(payload@),
{
    let value: i32 = checksum(payload);
    let mut id: Vec<u8> = Vec::new();
    id.push(0x37);
    id.push(0x37);
    id.push(0x39);
    id.push(0x39);
    if value < 0 {
        id.push(0x2D);
        push_decimal_digits(&mut id, (-(value as i64)) as u32);
    } else {
        push_decimal_digits(&mut id, value as u32);
    }
    id.push(0);
    id
}

} // verus!
