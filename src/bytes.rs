use vstd::prelude::*;

verus! {

/// The unsigned number whose little-endian bytes are `s`.
pub open spec fn le_value(s: Seq<u8>) -> nat
    decreases s.len(),
{
    if s.len() == 0 {
        0
    } else {
        s[0] as nat + 256 * le_value(s.drop_first())
    }
}

/// `k` zero bytes.
pub open spec fn zero_bytes(k: nat) -> Seq<u8> {
    Seq::new(k, |i: int| 0u8)
}

proof fn lemma_le_zeros(k: nat)
    ensures
        le_value(zero_bytes(k)) == 0,
    decreases k,
{
    if k > 0 {
        assert(zero_bytes(k).drop_first() =~= zero_bytes((k - 1) as nat));
        lemma_le_zeros((k - 1) as nat);
    }
}

/// Zeros above the most significant byte leave the number unchanged.
pub proof fn lemma_le_zero_pad(s: Seq<u8>, k: nat)
    ensures
        le_value(s + zero_bytes(k)) == le_value(s),
    decreases s.len(),
{
    if s.len() == 0 {
        assert(s + zero_bytes(k) =~= zero_bytes(k));
        lemma_le_zeros(k);
    } else {
        assert((s + zero_bytes(k)).drop_first() =~= s.drop_first() + zero_bytes(k));
        lemma_le_zero_pad(s.drop_first(), k);
    }
}

/// Relies on byteorder's `LittleEndian::read_u64`: the first eight bytes as
/// a little-endian number; it panics on fewer than eight.
#[verifier::external_body]
pub(crate) fn read_u64_le(buf: &[u8]) -> (r: u64)
    requires
        buf@.len() >= 8,
    ensures
        r as nat == le_value(buf@.subrange(0, 8)),
{
    <byteorder::LittleEndian as byteorder::ByteOrder>::read_u64(buf)
}

/// Relies on byteorder's `LittleEndian::read_u32`: the first four bytes as
/// a little-endian number; it panics on fewer than four.
#[verifier::external_body]
pub(crate) fn read_u32_le(buf: &[u8]) -> (r: u32)
    requires
        buf@.len() >= 4,
    ensures
        r as nat == le_value(buf@.subrange(0, 4)),
{
    <byteorder::LittleEndian as byteorder::ByteOrder>::read_u32(buf)
}

/// Relies on byteorder's `LittleEndian::read_u16`: the first two bytes as
/// a little-endian number; it panics on fewer than two.
#[verifier::external_body]
pub(crate) fn read_u16_le(buf: &[u8]) -> (r: u16)
    requires
        buf@.len() >= 2,
    ensures
        r as nat == le_value(buf@.subrange(0, 2)),
{
    <byteorder::LittleEndian as byteorder::ByteOrder>::read_u16(buf)
}

} // verus!
