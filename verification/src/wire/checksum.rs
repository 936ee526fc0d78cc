//! The 8-bit checksum that guards every 16-bit word on the sensor bus.

use vstd::prelude::*;

verus! {

/// Generator polynomial of the sensor checksum, x^8 + x^5 + x^4 + 1.
pub const POLYNOMIAL: u8 = 0x31;

/// Register value before the first byte is processed.
pub const INITIAL: u8 = 0xff;

/// One step of the shift register: shift left, and reduce by `poly` when a
/// bit falls off the top.
pub open spec fn crc8_shift(reg: u8, poly: u8) -> u8 {
    if reg & 0x80 != 0 {
        (reg << 1) ^ poly
    } else {
        reg << 1
    }
}

/// Eight steps of the shift register: the effect of one message byte that
/// has already been folded into `reg`.
pub open spec fn crc8_byte(reg: u8, poly: u8) -> u8 {
    crc8_shift(
        crc8_shift(
            crc8_shift(
                crc8_shift(
                    crc8_shift(crc8_shift(crc8_shift(crc8_shift(reg, poly), poly), poly), poly),
                    poly,
                ),
                poly,
            ),
            poly,
        ),
        poly,
    )
}

/// CRC-8 of `data`, most significant bit first, without reflection and
/// without a final XOR: the register starts at `init`, and each byte is
/// XORed into it and then shifted through eight steps.
pub open spec fn crc8(poly: u8, init: u8, data: Seq<u8>) -> u8
    decreases data.len(),
{
    if data.len() == 0 {
        init
    } else {
        crc8_byte(crc8(poly, init, data.drop_last()) ^ data.last(), poly)
    }
}

/// The checksum of `data` as the sensors compute it.
pub open spec fn checksum_of(data: Seq<u8>) -> u8 {
    crc8(POLYNOMIAL, INITIAL, data)
}

/// Runs `crc_all::Crc::<u8>` (`new`, `update`, `finish`) over `data` with
/// width 8, no reflection and a zero final XOR.
///
/// Trusted: the result is taken to be the plain bitwise CRC-8 of `data`
/// for the given polynomial and initial value. The outside code works
/// through a 256-entry table whose entry `i` is `i` shifted through eight
/// steps, and replaces the register by the entry at `register ^ byte` for
/// each byte, which is what `crc8` states.
#[verifier::external_body]
fn crc8_of(poly: u8, init: u8, data: &[u8]) -> (crc: u8)
    ensures
        crc == crc8(poly, init, data@),
{
    let mut engine = crc_all::Crc::<u8>::new(poly, 8, init, 0x00, false);
    engine.update(data);
    engine.finish()
}

/// Computes the checksum of `bytes`.
///
/// The result depends on the bytes and their order alone.
pub fn checksum(bytes: &[u8]) -> (crc: u8)
    ensures
        crc == checksum_of(bytes@),
{
    crc8_of(POLYNOMIAL, INITIAL, bytes)
}

/// The checksum of a two-byte word, written out.
pub proof fn lemma_checksum_of_word(high: u8, low: u8)
    ensures
        checksum_of(seq![high, low]) == crc8_byte(
            crc8_byte(INITIAL ^ high, POLYNOMIAL) ^ low,
            POLYNOMIAL,
        ),
{
    reveal_with_fuel(crc8, 3);
    assert(seq![high, low].drop_last() =~= seq![high]);
    assert(seq![high].drop_last() =~= Seq::<u8>::empty());
}

/// The checksums of two known words: `0xbeef` has `0x92`, and `0x0064`
/// has `0xfe`.
pub proof fn lemma_checksum_vectors()
    ensures
        checksum_of(seq![0xbe, 0xef]) == 0x92,
        checksum_of(seq![0x00, 0x64]) == 0xfe,
{
    lemma_checksum_of_word(0xbe, 0xef);
    assert(crc8_byte(0xffu8 ^ 0xbeu8, 0x31) == 0x0cu8) by (bit_vector);
    assert(crc8_byte(0x0cu8 ^ 0xefu8, 0x31) == 0x92u8) by (bit_vector);
    lemma_checksum_of_word(0x00, 0x64);
    assert(crc8_byte(0xffu8 ^ 0x00u8, 0x31) == 0xacu8) by (bit_vector);
    assert(crc8_byte(0xacu8 ^ 0x64u8, 0x31) == 0xfeu8) by (bit_vector);
}

/// A message byte changes the register one-to-one: two registers that
/// differ before eight steps differ after them.
pub proof fn lemma_crc8_byte_injective(x: u8, y: u8)
    ensures
        crc8_byte(x, POLYNOMIAL) == crc8_byte(y, POLYNOMIAL) ==> x == y,
{
    assert(crc8_byte(x, 0x31) == crc8_byte(y, 0x31) ==> x == y) by (bit_vector);
}

/// A single wrong byte is always detected: two messages of one length
/// that differ in exactly one byte have different checksums.
pub proof fn lemma_checksum_detects_one_byte(a: Seq<u8>, b: Seq<u8>, at: int)
    requires
        a.len() == b.len(),
        0 <= at < a.len(),
        a[at] != b[at],
        forall|i: int| 0 <= i < a.len() && i != at ==> a[i] == b[i],
    ensures
        checksum_of(a) != checksum_of(b),
    decreases a.len(),
{
    let before_a = crc8(POLYNOMIAL, INITIAL, a.drop_last());
    let before_b = crc8(POLYNOMIAL, INITIAL, b.drop_last());
    let x = a.last();
    let y = b.last();
    if at == a.len() - 1 {
        assert(a.drop_last() =~= b.drop_last());
        assert(before_a ^ x != before_a ^ y) by (bit_vector)
            requires
                x != y,
        ;
    } else {
        lemma_checksum_detects_one_byte(a.drop_last(), b.drop_last(), at);
        assert(before_a ^ x != before_b ^ x) by (bit_vector)
            requires
                before_a != before_b,
        ;
    }
    lemma_crc8_byte_injective(before_a ^ x, before_b ^ y);
}

/// Eight steps of the shift register are linear: they take the XOR of
/// two registers to the XOR of what they take each to.
pub proof fn lemma_crc8_byte_linear(x: u8, y: u8)
    ensures
        crc8_byte(x ^ y, POLYNOMIAL) == crc8_byte(x, POLYNOMIAL) ^ crc8_byte(y, POLYNOMIAL),
{
    let p = POLYNOMIAL;
    let x1 = crc8_shift(x, p);
    let y1 = crc8_shift(y, p);
    let x2 = crc8_shift(x1, p);
    let y2 = crc8_shift(y1, p);
    let x3 = crc8_shift(x2, p);
    let y3 = crc8_shift(y2, p);
    let x4 = crc8_shift(x3, p);
    let y4 = crc8_shift(y3, p);
    let x5 = crc8_shift(x4, p);
    let y5 = crc8_shift(y4, p);
    let x6 = crc8_shift(x5, p);
    let y6 = crc8_shift(y5, p);
    let x7 = crc8_shift(x6, p);
    let y7 = crc8_shift(y6, p);
    lemma_crc8_shift_linear(x, y);
    lemma_crc8_shift_linear(x1, y1);
    lemma_crc8_shift_linear(x2, y2);
    lemma_crc8_shift_linear(x3, y3);
    lemma_crc8_shift_linear(x4, y4);
    lemma_crc8_shift_linear(x5, y5);
    lemma_crc8_shift_linear(x6, y6);
    lemma_crc8_shift_linear(x7, y7);
}

/// One step of the shift register is linear.
pub proof fn lemma_crc8_shift_linear(x: u8, y: u8)
    ensures
        crc8_shift(x ^ y, POLYNOMIAL) == crc8_shift(x, POLYNOMIAL) ^ crc8_shift(y, POLYNOMIAL),
{
    assert(crc8_shift(x ^ y, 0x31) == crc8_shift(x, 0x31) ^ crc8_shift(y, 0x31)) by (bit_vector);
}

/// Eight steps of the shift register leave exactly two registers as they
/// were: `0x00` and `0xef`.
pub proof fn lemma_crc8_byte_fixed(x: u8)
    ensures
        crc8_byte(x, POLYNOMIAL) == x <==> (x == 0x00 || x == 0xef),
{
    assert(crc8_byte(x, 0x31) == x <==> (x == 0x00 || x == 0xef)) by (bit_vector);
}

/// The checksum of a word depends on the order of its bytes: swapping
/// two different bytes changes it, unless the bytes differ by exactly
/// `0xef`.
pub proof fn lemma_checksum_of_swapped_word(high: u8, low: u8)
    ensures
        checksum_of(seq![high, low]) == checksum_of(seq![low, high]) <==> (high == low || high
            ^ low == 0xef),
{
    let p = POLYNOMIAL;
    let start = crc8_byte(INITIAL, p);
    let h = crc8_byte(high, p);
    let l = crc8_byte(low, p);
    let d = crc8_byte(high ^ low, p);
    lemma_checksum_of_word(high, low);
    lemma_checksum_of_word(low, high);
    lemma_crc8_byte_linear(INITIAL, high);
    lemma_crc8_byte_linear(INITIAL, low);
    lemma_crc8_byte_linear(start ^ h, low);
    lemma_crc8_byte_linear(start ^ l, high);
    lemma_crc8_byte_linear(start, h);
    lemma_crc8_byte_linear(start, l);
    lemma_crc8_byte_linear(h, l);
    lemma_crc8_byte_linear(high, low);
    lemma_crc8_byte_fixed(d);
    lemma_crc8_byte_injective(high ^ low, 0);
    lemma_crc8_byte_injective(high ^ low, 0xef);
    lemma_crc8_byte_fixed(0);
    lemma_crc8_byte_fixed(0xef);
    let ss = crc8_byte(start, p);
    let hh = crc8_byte(h, p);
    let ll = crc8_byte(l, p);
    let dd = crc8_byte(d, p);
    // The two checksums are ss ^ hh ^ l and ss ^ ll ^ h; they agree
    // exactly if hh ^ ll == h ^ l, which is dd == d.
    assert(((ss ^ hh) ^ l == (ss ^ ll) ^ h) <==> (hh ^ ll == h ^ l)) by (bit_vector);
    assert(high == low <==> high ^ low == 0) by (bit_vector);
}

} // verus!
