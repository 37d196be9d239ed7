//! Big-endian integers and bit reversal, as the wire format uses them.
use vstd::prelude::*;

verus! {

/// The 16-bit number whose big-endian bytes are `hi`, `lo`.
pub open spec fn be16_value(hi: u8, lo: u8) -> int {
    hi * 0x100 + lo
}

/// The 32-bit number whose big-endian bytes are `b0`, `b1`, `b2`, `b3`.
pub open spec fn be32_value(b0: u8, b1: u8, b2: u8, b3: u8) -> int {
    b0 * 0x100_0000 + b1 * 0x1_0000 + b2 * 0x100 + b3
}

/// The big-endian bytes of a 16-bit number.
pub open spec fn be16_bytes(v: u16) -> Seq<u8> {
    seq![(v / 0x100) as u8, (v % 0x100) as u8]
}

/// The big-endian bytes of a 32-bit number.
pub open spec fn be32_bytes(v: u32) -> Seq<u8> {
    seq![
        (v / 0x100_0000) as u8,
        ((v / 0x1_0000) % 0x100) as u8,
        ((v / 0x100) % 0x100) as u8,
        (v % 0x100) as u8,
    ]
}

/// Reads a big-endian 16-bit number.
pub fn be16(hi: u8, lo: u8) -> (v: u16)
    ensures
        v == be16_value(hi, lo),
        v == hi * 0x100 + lo,
{
    hi as u16 * 0x100 + lo as u16
}

/// Reads a big-endian 32-bit number.
pub fn be32(b0: u8, b1: u8, b2: u8, b3: u8) -> (v: u32)
    ensures
        v == be32_value(b0, b1, b2, b3),
        v == ((b0 * 0x100 + b1) * 0x100 + b2) * 0x100 + b3,
{
    b0 as u32 * 0x100_0000 + b1 as u32 * 0x1_0000 + b2 as u32 * 0x100 + b3 as u32
}

/// Appends a 16-bit number in big-endian order.
pub fn push_be16(out: &mut Vec<u8>, v: u16)
    ensures
        final(out)@ == old(out)@ + be16_bytes(v),
{
    out.push((v / 0x100) as u8);
    out.push((v % 0x100) as u8);
    assert(out@ =~= old(out)@ + be16_bytes(v));
}

/// Appends a 32-bit number in big-endian order.
pub fn push_be32(out: &mut Vec<u8>, v: u32)
    ensures
        final(out)@ == old(out)@ + be32_bytes(v),
{
    out.push((v / 0x100_0000) as u8);
    out.push(((v / 0x1_0000) % 0x100) as u8);
    out.push(((v / 0x100) % 0x100) as u8);
    out.push((v % 0x100) as u8);
    assert(out@ =~= old(out)@ + be32_bytes(v));
}

/// Appends a run of bytes.
pub fn push_bytes(out: &mut Vec<u8>, bytes: &[u8])
    ensures
        final(out)@ == old(out)@ + bytes@,
{
    out.extend_from_slice(bytes);
    assert(out@ =~= old(out)@ + bytes@);
}

/// Reading back the bytes of a 16-bit number gives the number, and no other
/// two bytes give it. The first byte counts for 256 times as much as the
/// second.
pub proof fn law_be16_round_trip(v: u16, hi: u8, lo: u8)
    ensures
        be16_bytes(v).len() == 2,
        be16_bytes(v)[0] * 0x100 + be16_bytes(v)[1] == v,
        be16_value(hi, lo) == hi * 0x100 + lo,
        be16_value(be16_bytes(v)[0], be16_bytes(v)[1]) == v,
        be16_value(hi, lo) == v ==> be16_bytes(v) == seq![hi, lo],
{
}

/// Reading back the bytes of a 32-bit number gives the number, and no other
/// four bytes give it. Each byte counts for 256 times as much as the next.
pub proof fn law_be32_round_trip(v: u32, b0: u8, b1: u8, b2: u8, b3: u8)
    ensures
        be32_bytes(v).len() == 4,
        ((be32_bytes(v)[0] * 0x100 + be32_bytes(v)[1]) * 0x100 + be32_bytes(v)[2]) * 0x100
            + be32_bytes(v)[3] == v,
        be32_value(b0, b1, b2, b3) == ((b0 * 0x100 + b1) * 0x100 + b2) * 0x100 + b3,
        be32_value(be32_bytes(v)[0], be32_bytes(v)[1], be32_bytes(v)[2], be32_bytes(v)[3]) == v,
        be32_value(b0, b1, b2, b3) == v ==> be32_bytes(v) == seq![b0, b1, b2, b3],
{
    let high: u32 = v / 0x1_0000;
    let low: u32 = v % 0x1_0000;
    assert(v / 0x100_0000 == high / 0x100);
    assert((v / 0x100) % 0x100 == low / 0x100);
    assert(v % 0x100 == low % 0x100);
    if be32_value(b0, b1, b2, b3) == v {
        assert(high == be16_value(b0, b1) && low == be16_value(b2, b3));
        assert(be32_bytes(v) =~= seq![b0, b1, b2, b3]);
    }
}

/// Bit `i` of a byte, counted from the least significant one.
pub open spec fn bit(b: u8, i: int) -> bool {
    (b >> (i as u8)) & 1 == 1
}

/// The byte with its eight bits in the opposite order.
pub open spec fn reversed(b: u8) -> u8 {
    ((b & 0x01) << 7) | ((b & 0x02) << 5) | ((b & 0x04) << 3) | ((b & 0x08) << 1)
        | ((b & 0x10) >> 1) | ((b & 0x20) >> 3) | ((b & 0x40) >> 5) | ((b & 0x80) >> 7)
}

/// Reverses the order of the bits of a byte.
pub fn reverse_bits(b: u8) -> (r: u8)
    ensures
        r == reversed(b),
{
    let nibbles: u8 = (b << 4) | (b >> 4);
    let pairs: u8 = ((nibbles & 0x33) << 2) | ((nibbles >> 2) & 0x33);
    let bits: u8 = ((pairs & 0x55) << 1) | ((pairs >> 1) & 0x55);
    assert(bits == reversed(b)) by (bit_vector)
        requires
            nibbles == (b << 4) | (b >> 4),
            pairs == ((nibbles & 0x33) << 2) | ((nibbles >> 2) & 0x33),
            bits == ((pairs & 0x55) << 1) | ((pairs >> 1) & 0x55),
    ;
    bits
}

/// Bit `i` of the reversed byte is bit `7 - i` of the byte, and reversing
/// twice changes nothing.
pub proof fn law_reversed(b: u8, i: int)
    requires
        0 <= i < 8,
    ensures
        bit(reversed(b), i) == bit(b, 7 - i),
        (reversed(b) >> (i as u8)) & 1 == (b >> ((7 - i) as u8)) & 1,
        reversed(reversed(b)) == b,
{
    let k: u8 = i as u8;
    let m: u8 = (7 - i) as u8;
    assert((reversed(b) >> k) & 1 == (b >> m) & 1) by (bit_vector)
        requires
            k < 8,
            m == 7 - k,
    ;
    assert(reversed(reversed(b)) == b) by (bit_vector);
}

} // verus!
