//! Hamming SECDED (13,8) error-correcting code.
//!
//! A data byte is stored in a 13-bit word (inside a `u16`): twelve Hamming
//! bits at 1-indexed positions 1..=12 (parity bits at 1, 2, 4 and 8) and an
//! overall parity bit at position 13.
use vstd::prelude::*;

verus! {

/// The result of decoding a SECDED word.
#[derive(Debug, Clone, Copy, PartialEq, Eq, Structural)]
pub enum DecodeResult {
    /// The word is intact.
    NoError(u8),
    /// A single-bit flip was corrected; carries the byte and the 1-indexed
    /// position (1..=13) of the flipped bit.
    Corrected(u8, usize),
    /// A double-bit flip was detected.
    Uncorrectable,
}

/// Bit `i` (0-indexed) of `w`, as 0 or 1.
pub open spec fn bit(w: u16, i: u16) -> u16 {
    (w >> i) & 1u16
}

/// Bit `i` (0-indexed) of the byte `d`, widened to a word.
pub open spec fn dbit(d: u8, i: u8) -> u16 {
    ((d >> i) & 1u8) as u16
}

/// The twelve Hamming bits of `d`, before the overall parity bit is added.
pub open spec fn hamming_word(d: u8) -> u16 {
    let p1 = dbit(d, 0) ^ dbit(d, 1) ^ dbit(d, 3) ^ dbit(d, 4) ^ dbit(d, 6);
    let p2 = dbit(d, 0) ^ dbit(d, 2) ^ dbit(d, 3) ^ dbit(d, 5) ^ dbit(d, 6);
    let p3 = dbit(d, 1) ^ dbit(d, 2) ^ dbit(d, 3) ^ dbit(d, 7);
    let p4 = dbit(d, 4) ^ dbit(d, 5) ^ dbit(d, 6) ^ dbit(d, 7);
    p1 | (p2 << 1u16) | (dbit(d, 0) << 2u16) | (p3 << 3u16) | (dbit(d, 1) << 4u16)
        | (dbit(d, 2) << 5u16) | (dbit(d, 3) << 6u16) | (p4 << 7u16) | (dbit(d, 4) << 8u16)
        | (dbit(d, 5) << 9u16) | (dbit(d, 6) << 10u16) | (dbit(d, 7) << 11u16)
}

/// Parity (0 or 1) of all sixteen bits of `w`.
pub open spec fn parity16(w: u16) -> u16 {
    bit(w, 0) ^ bit(w, 1) ^ bit(w, 2) ^ bit(w, 3) ^ bit(w, 4) ^ bit(w, 5) ^ bit(w, 6) ^ bit(w, 7)
        ^ bit(w, 8) ^ bit(w, 9) ^ bit(w, 10) ^ bit(w, 11) ^ bit(w, 12) ^ bit(w, 13) ^ bit(w, 14)
        ^ bit(w, 15)
}

/// The SECDED codeword of `d`: the Hamming bits plus the overall parity bit.
pub open spec fn encode_spec(d: u8) -> u16 {
    hamming_word(d) | (parity16(hamming_word(d)) << 12u16)
}

/// The 4-bit Hamming syndrome of `w`: the 1-indexed position of a single
/// flipped bit among positions 1..=12, or 0.
pub open spec fn syndrome(w: u16) -> u16 {
    let s1 = bit(w, 0) ^ bit(w, 2) ^ bit(w, 4) ^ bit(w, 6) ^ bit(w, 8) ^ bit(w, 10);
    let s2 = bit(w, 1) ^ bit(w, 2) ^ bit(w, 5) ^ bit(w, 6) ^ bit(w, 9) ^ bit(w, 10);
    let s3 = bit(w, 3) ^ bit(w, 4) ^ bit(w, 5) ^ bit(w, 6) ^ bit(w, 11);
    let s4 = bit(w, 7) ^ bit(w, 8) ^ bit(w, 9) ^ bit(w, 10) ^ bit(w, 11);
    s1 | (s2 << 1u16) | (s3 << 2u16) | (s4 << 3u16)
}

/// The data byte held at the data positions 3, 5, 6, 7, 9, 10, 11, 12.
pub open spec fn extract_spec(w: u16) -> u8 {
    (bit(w, 2) | (bit(w, 4) << 1u16) | (bit(w, 5) << 2u16) | (bit(w, 6) << 3u16) | (bit(w, 8)
        << 4u16) | (bit(w, 9) << 5u16) | (bit(w, 10) << 6u16) | (bit(w, 11) << 7u16)) as u8
}

/// What decoding `w` yields: an odd overall parity means one flipped bit
/// (located by the syndrome, or the parity bit itself when the syndrome is 0);
/// an even parity with a nonzero syndrome means two flipped bits.
pub open spec fn decode_spec(w: u16) -> DecodeResult {
    let s = syndrome(w);
    if parity16(w) != 0 {
        if s == 0 {
            DecodeResult::Corrected(extract_spec(w), 13)
        } else if s <= 12 {
            DecodeResult::Corrected(extract_spec(w ^ (1u16 << ((s - 1) as u16))), s as usize)
        } else {
            DecodeResult::Uncorrectable
        }
    } else if s == 0 {
        DecodeResult::NoError(extract_spec(w))
    } else {
        DecodeResult::Uncorrectable
    }
}

/// The byte that recovery salvages from `w`: the decoded byte, or 0 when the
/// word is uncorrectable.
pub open spec fn recovered_byte(w: u16) -> u8 {
    match decode_spec(w) {
        DecodeResult::NoError(v) => v,
        DecodeResult::Corrected(v, _) => v,
        DecodeResult::Uncorrectable => 0,
    }
}

/// Parity of all sixteen bits of a word (the low bit of its population count).
fn parity_of(w: u16) -> (p: u16)
    ensures
        p == parity16(w),
{
    let x = w ^ (w >> 8u16);
    let x = x ^ (x >> 4u16);
    let x = x ^ (x >> 2u16);
    let x = x ^ (x >> 1u16);
    let p = x & 1u16;
    assert(p == parity16(w)) by (bit_vector)
        requires
            p == ((((w ^ (w >> 8u16)) ^ ((w ^ (w >> 8u16)) >> 4u16)) ^ (((w ^ (w >> 8u16)) ^ ((w
                ^ (w >> 8u16)) >> 4u16)) >> 2u16)) ^ ((((w ^ (w >> 8u16)) ^ ((w ^ (w >> 8u16))
                >> 4u16)) ^ (((w ^ (w >> 8u16)) ^ ((w ^ (w >> 8u16)) >> 4u16)) >> 2u16))
                >> 1u16)) & 1u16,
    ;
    p
}

/// Encodes a byte into its 13-bit SECDED word.
pub fn encode(data: u8) -> (word: u16)
    ensures
        word == encode_spec(data),
        word < 0x2000,
{
    let d0 = (data & 1u8) as u16;
    let d1 = ((data >> 1u8) & 1u8) as u16;
    let d2 = ((data >> 2u8) & 1u8) as u16;
    let d3 = ((data >> 3u8) & 1u8) as u16;
    let d4 = ((data >> 4u8) & 1u8) as u16;
    let d5 = ((data >> 5u8) & 1u8) as u16;
    let d6 = ((data >> 6u8) & 1u8) as u16;
    let d7 = ((data >> 7u8) & 1u8) as u16;
    assert(d0 == dbit(data, 0)) by (bit_vector)
        requires
            d0 == (data & 1u8) as u16,
    ;
    let p1 = d0 ^ d1 ^ d3 ^ d4 ^ d6;
    let p2 = d0 ^ d2 ^ d3 ^ d5 ^ d6;
    let p3 = d1 ^ d2 ^ d3 ^ d7;
    let p4 = d4 ^ d5 ^ d6 ^ d7;
    let word = p1 | (p2 << 1u16) | (d0 << 2u16) | (p3 << 3u16) | (d1 << 4u16) | (d2 << 5u16) | (d3
        << 6u16) | (p4 << 7u16) | (d4 << 8u16) | (d5 << 9u16) | (d6 << 10u16) | (d7 << 11u16);
    assert(word == hamming_word(data));
    let p5 = parity_of(word);
    let full = word | (p5 << 12u16);
    proof {
        lemma_codeword_fits(data);
    }
    full
}

proof fn lemma_codeword_fits(d: u8)
    ensures
        encode_spec(d) < 0x2000,
{
    assert(encode_spec(d) < 0x2000) by (bit_vector);
}

/// The data byte held at the data positions of `word`.
fn extract_data(word: u16) -> (d: u8)
    ensures
        d == extract_spec(word),
{
    let d0 = (word >> 2u16) & 1u16;
    let d1 = (word >> 4u16) & 1u16;
    let d2 = (word >> 5u16) & 1u16;
    let d3 = (word >> 6u16) & 1u16;
    let d4 = (word >> 8u16) & 1u16;
    let d5 = (word >> 9u16) & 1u16;
    let d6 = (word >> 10u16) & 1u16;
    let d7 = (word >> 11u16) & 1u16;
    (d0 | (d1 << 1u16) | (d2 << 2u16) | (d3 << 3u16) | (d4 << 4u16) | (d5 << 5u16) | (d6 << 6u16)
        | (d7 << 7u16)) as u8
}

/// Decodes a SECDED word, correcting a single flipped bit and detecting two.
pub fn decode(word: u16) -> (r: DecodeResult)
    ensures
        r == decode_spec(word),
{
    let b1 = word & 1u16;
    let b2 = (word >> 1u16) & 1u16;
    let b3 = (word >> 2u16) & 1u16;
    let b4 = (word >> 3u16) & 1u16;
    let b5 = (word >> 4u16) & 1u16;
    let b6 = (word >> 5u16) & 1u16;
    let b7 = (word >> 6u16) & 1u16;
    let b8 = (word >> 7u16) & 1u16;
    let b9 = (word >> 8u16) & 1u16;
    let b10 = (word >> 9u16) & 1u16;
    let b11 = (word >> 10u16) & 1u16;
    let b12 = (word >> 11u16) & 1u16;
    assert(b1 == bit(word, 0)) by (bit_vector)
        requires
            b1 == word & 1u16,
    ;
    let s1 = b1 ^ b3 ^ b5 ^ b7 ^ b9 ^ b11;
    let s2 = b2 ^ b3 ^ b6 ^ b7 ^ b10 ^ b11;
    let s3 = b4 ^ b5 ^ b6 ^ b7 ^ b12;
    let s4 = b8 ^ b9 ^ b10 ^ b11 ^ b12;
    let syn = s1 | (s2 << 1u16) | (s3 << 2u16) | (s4 << 3u16);
    assert(syn == syndrome(word));
    let total_parity_violation = parity_of(word) != 0;
    if total_parity_violation {
        if syn == 0 {
            DecodeResult::Corrected(extract_data(word), 13)
        } else if syn <= 12 {
            let corrected_word = word ^ (1u16 << (syn - 1));
            DecodeResult::Corrected(extract_data(corrected_word), syn as usize)
        } else {
            DecodeResult::Uncorrectable
        }
    } else {
        if syn == 0 {
            DecodeResult::NoError(extract_data(word))
        } else {
            DecodeResult::Uncorrectable
        }
    }
}

proof fn lemma_codeword_bits(d: u8)
    ensures
        parity16(encode_spec(d)) == 0,
        syndrome(encode_spec(d)) == 0,
        extract_spec(encode_spec(d)) == d,
{
    assert(parity16(encode_spec(d)) == 0 && syndrome(encode_spec(d)) == 0 && extract_spec(
        encode_spec(d),
    ) == d) by (bit_vector);
}

/// A codeword decodes to the byte it encodes, with no error reported.
pub proof fn lemma_decode_encode(d: u8)
    ensures
        decode_spec(encode_spec(d)) == DecodeResult::NoError(d),
{
    lemma_codeword_bits(d);
}

proof fn lemma_single_flip_bits(d: u8, i: u16)
    requires
        i < 13,
    ensures
        parity16(encode_spec(d) ^ (1u16 << i)) == 1,
        i == 12 ==> syndrome(encode_spec(d) ^ (1u16 << i)) == 0 && extract_spec(encode_spec(d) ^ (
        1u16 << i)) == d,
        i < 12 ==> syndrome(encode_spec(d) ^ (1u16 << i)) == i + 1 && extract_spec(
            (encode_spec(d) ^ (1u16 << i)) ^ (1u16 << i),
        ) == d,
{
    assert(parity16(encode_spec(d) ^ (1u16 << i)) == 1 && (i == 12 ==> syndrome(
        encode_spec(d) ^ (1u16 << i),
    ) == 0 && extract_spec(encode_spec(d) ^ (1u16 << i)) == d) && (i < 12 ==> syndrome(
        encode_spec(d) ^ (1u16 << i),
    ) == i + 1 && extract_spec((encode_spec(d) ^ (1u16 << i)) ^ (1u16 << i)) == d)) by (bit_vector)
        requires
            i < 13,
    ;
}

/// Flipping any one of the thirteen bits of a codeword is corrected: the
/// original byte comes back together with the 1-indexed position of the flip.
pub proof fn lemma_single_flip_corrected(d: u8, i: u16)
    requires
        i < 13,
    ensures
        decode_spec(encode_spec(d) ^ (1u16 << i)) == DecodeResult::Corrected(d, (i + 1) as usize),
{
    lemma_single_flip_bits(d, i);
}

/// Flipping any two distinct bits of a codeword is detected as uncorrectable.
pub proof fn lemma_double_flip_detected(d: u8, i: u16, j: u16)
    requires
        i < j < 13,
    ensures
        decode_spec(encode_spec(d) ^ (1u16 << i) ^ (1u16 << j)) == DecodeResult::Uncorrectable,
{
    assert(parity16(encode_spec(d) ^ (1u16 << i) ^ (1u16 << j)) == 0 && syndrome(
        encode_spec(d) ^ (1u16 << i) ^ (1u16 << j),
    ) != 0) by (bit_vector)
        requires
            i < j < 13,
    ;
}

} // verus!
