//! Bit-level primitives of the wire format: the byte bit-reversal that the
//! format applies to header, count and cooldown bytes, and the packing of a
//! cooldown value into its four wire bytes.

use vstd::prelude::*;

verus! {

/// The bit-reversal of a byte: bit `i` of the input becomes bit `7 - i`.
pub open spec fn rev8(b: u8) -> u8 {
    ((b & 0x01) << 7) | ((b & 0x02) << 5) | ((b & 0x04) << 3) | ((b & 0x08) << 1)
        | ((b & 0x10) >> 1) | ((b & 0x20) >> 3) | ((b & 0x40) >> 5) | ((b & 0x80) >> 7)
}

/// Reverses the order of the bits of a byte.
pub fn swap_bits(b: u8) -> (r: u8)
    ensures
        r == rev8(b),
{
    ((b & 0x01) << 7) | ((b & 0x02) << 5) | ((b & 0x04) << 3) | ((b & 0x08) << 1)
        | ((b & 0x10) >> 1) | ((b & 0x20) >> 3) | ((b & 0x40) >> 5) | ((b & 0x80) >> 7)
}

/// Reversing the bits of a byte twice gives the byte back.
pub proof fn lemma_rev8_involution(b: u8)
    ensures
        rev8(rev8(b)) == b,
{
    let r = rev8(b);
    assert(r == ((b & 0x01) << 7) | ((b & 0x02) << 5) | ((b & 0x04) << 3) | ((b & 0x08) << 1)
        | ((b & 0x10) >> 1) | ((b & 0x20) >> 3) | ((b & 0x40) >> 5) | ((b & 0x80) >> 7));
    assert(((r & 0x01) << 7) | ((r & 0x02) << 5) | ((r & 0x04) << 3) | ((r & 0x08) << 1)
        | ((r & 0x10) >> 1) | ((r & 0x20) >> 3) | ((r & 0x40) >> 5) | ((r & 0x80) >> 7) == b)
        by (bit_vector)
        requires
            r == ((b & 0x01) << 7) | ((b & 0x02) << 5) | ((b & 0x04) << 3) | ((b & 0x08) << 1)
                | ((b & 0x10) >> 1) | ((b & 0x20) >> 3) | ((b & 0x40) >> 5) | ((b & 0x80) >> 7),
    ;
}

/// The four wire bytes of a cooldown value: the little-endian bytes of the
/// `u32`, each bit-reversed.
pub open spec fn cooldown_bytes(c: u32) -> Seq<u8> {
    seq![
        rev8((c & 0xFF) as u8),
        rev8(((c >> 8) & 0xFF) as u8),
        rev8(((c >> 16) & 0xFF) as u8),
        rev8(((c >> 24) & 0xFF) as u8),
    ]
}

/// The cooldown value recovered from its four wire bytes.
pub open spec fn cooldown_value(b0: u8, b1: u8, b2: u8, b3: u8) -> u32 {
    (rev8(b0) as u32) | ((rev8(b1) as u32) << 8) | ((rev8(b2) as u32) << 16) | ((
    rev8(b3) as u32) << 24)
}

/// Packing a cooldown and unpacking the four bytes are mutually inverse.
pub proof fn lemma_cooldown_value_bytes(c: u32)
    ensures
        cooldown_value(
            cooldown_bytes(c)[0],
            cooldown_bytes(c)[1],
            cooldown_bytes(c)[2],
            cooldown_bytes(c)[3],
        ) == c,
{
    lemma_rev8_involution((c & 0xFF) as u8);
    lemma_rev8_involution(((c >> 8) & 0xFF) as u8);
    lemma_rev8_involution(((c >> 16) & 0xFF) as u8);
    lemma_rev8_involution(((c >> 24) & 0xFF) as u8);
    assert((((c & 0xFF) as u8) as u32) | (((((c >> 8) & 0xFF) as u8) as u32) << 8) | (((((c >> 16)
        & 0xFF) as u8) as u32) << 16) | (((((c >> 24) & 0xFF) as u8) as u32) << 24) == c)
        by (bit_vector);
}

pub proof fn lemma_cooldown_bytes_value(b0: u8, b1: u8, b2: u8, b3: u8)
    ensures
        cooldown_bytes(cooldown_value(b0, b1, b2, b3)) == seq![b0, b1, b2, b3],
{
    let v = cooldown_value(b0, b1, b2, b3);
    let x0 = rev8(b0);
    let x1 = rev8(b1);
    let x2 = rev8(b2);
    let x3 = rev8(b3);
    assert((v & 0xFF) as u8 == x0 && ((v >> 8) & 0xFF) as u8 == x1 && ((v >> 16) & 0xFF) as u8 == x2
        && ((v >> 24) & 0xFF) as u8 == x3) by (bit_vector)
        requires
            v == (x0 as u32) | ((x1 as u32) << 8) | ((x2 as u32) << 16) | ((x3 as u32) << 24),
    ;
    lemma_rev8_involution(b0);
    lemma_rev8_involution(b1);
    lemma_rev8_involution(b2);
    lemma_rev8_involution(b3);
    assert(cooldown_bytes(v) =~= seq![b0, b1, b2, b3]);
}

/// Reads a cooldown value from its four wire bytes.
pub fn read_cooldown(b0: u8, b1: u8, b2: u8, b3: u8) -> (r: u32)
    ensures
        r == cooldown_value(b0, b1, b2, b3),
{
    (swap_bits(b0) as u32) | ((swap_bits(b1) as u32) << 8) | ((swap_bits(b2) as u32) << 16) | ((
    swap_bits(b3) as u32) << 24)
}

/// Appends the four wire bytes of a cooldown value to a buffer.
pub fn write_cooldown(buf: &mut Vec<u8>, c: u32)
    ensures
        final(buf)@ == old(buf)@ + cooldown_bytes(c),
{
    buf.push(swap_bits((c & 0xFF) as u8));
    buf.push(swap_bits(((c >> 8) & 0xFF) as u8));
    buf.push(swap_bits(((c >> 16) & 0xFF) as u8));
    buf.push(swap_bits(((c >> 24) & 0xFF) as u8));
    assert(buf@ =~= old(buf)@ + cooldown_bytes(c));
}

} // verus!
