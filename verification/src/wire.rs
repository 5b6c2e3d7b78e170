//! Big-endian integers on the wire.

use vstd::prelude::*;

verus! {

/// The two bytes that stand for `value` in network byte order: the
/// high-order byte first.
pub open spec fn be16(value: u16) -> Seq<u8> {
    seq![(value / 256) as u8, (value % 256) as u8]
}

/// The number that two bytes in network byte order stand for.
pub open spec fn be16_value(hi: u8, lo: u8) -> int {
    hi * 256 + lo
}

/// Appends `value` to `out` as two bytes, the high-order byte first.
pub fn append_u16(out: &mut Vec<u8>, value: u16)
    ensures
        final(out)@ == old(out)@ + be16(value),
{
    let hi: u8 = ((value >> 8) & 0xff) as u8;
    let lo: u8 = (value & 0xff) as u8;
    assert(((value >> 8) & 0xff) == value / 256) by (bit_vector);
    assert((value & 0xff) == value % 256) by (bit_vector);
    out.push(hi);
    out.push(lo);
}

/// Reading the two bytes of `be16(value)` back as a big-endian number gives
/// `value`: the encoding loses nothing.
pub proof fn lemma_be16_round_trip(value: u16)
    ensures
        be16(value).len() == 2,
        be16_value(be16(value)[0], be16(value)[1]) == value,
{
}

/// Two numbers with the same two bytes are the same number.
pub proof fn lemma_be16_injective(a: u16, b: u16)
    requires
        be16(a) == be16(b),
    ensures
        a == b,
{
    lemma_be16_round_trip(a);
    lemma_be16_round_trip(b);
}

} // verus!
