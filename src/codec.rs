use vstd::prelude::*;
use vstd::bytes::{
    lemma_auto_spec_u128_to_from_le_bytes, spec_u128_from_le_bytes, spec_u128_to_le_bytes,
    u128_from_le_bytes, u128_to_le_bytes,
};
use vstd::slice::slice_subrange;

verus! {

/// The 16 little-endian bytes of `x`.
pub open spec fn le16(x: u128) -> Seq<u8> {
    spec_u128_to_le_bytes(x)
}

/// The little-endian `u128` held in `s[pos..pos + 16]`.
pub open spec fn u128_at(s: Seq<u8>, pos: int) -> u128 {
    spec_u128_from_le_bytes(s.subrange(pos, pos + 16))
}

/// `s` with `src` written over it from `pos` on.
pub open spec fn written(s: Seq<u8>, pos: int, src: Seq<u8>) -> Seq<u8> {
    s.subrange(0, pos) + src + s.subrange(pos + src.len(), s.len() as int)
}

/// Sixteen little-endian bytes always read back as the value they were made from.
pub proof fn lemma_le16(x: u128)
    ensures
        le16(x).len() == 16,
        spec_u128_from_le_bytes(le16(x)) == x,
{
    lemma_auto_spec_u128_to_from_le_bytes();
    assert(spec_u128_to_le_bytes(x).len() == 16);
}

/// A signed value survives the trip through its two's-complement bits.
pub proof fn lemma_i128_bits(x: i128)
    ensures
        (x as u128) as i128 == x,
{
    assert((x as u128) as i128 == x) by (bit_vector);
}

/// Appends the 16 little-endian bytes of `x` to `out`.
pub fn push_u128(out: &mut Vec<u8>, x: u128)
    ensures
        final(out)@ == old(out)@ + le16(x),
{
    let mut bytes = u128_to_le_bytes(x);
    out.append(&mut bytes);
}

/// Reads the little-endian `u128` at `pos`.
pub fn read_u128(s: &[u8], pos: usize) -> (r: u128)
    requires
        pos + 16 <= s@.len(),
    ensures
        r == u128_at(s@, pos as int),
{
    let len: usize = s.len();
    assert(pos + 16 <= len);
    let part = slice_subrange(s, pos, pos + 16);
    u128_from_le_bytes(part)
}

/// Writes `src` over `data` from `pos` on.
pub fn write_bytes(data: &mut Vec<u8>, pos: usize, src: &[u8])
    requires
        pos + src@.len() <= old(data)@.len(),
    ensures
        final(data)@ == written(old(data)@, pos as int, src@),
{
    let ghost start = data@;
    let n: usize = data.len();
    let mut j: usize = 0;
    while j < src.len()
        invariant
            pos + src@.len() <= start.len(),
            n == start.len(),
            0 <= j <= src@.len(),
            data@.len() == start.len(),
            forall|k: int| 0 <= k < pos ==> data@[k] == start[k],
            forall|k: int| pos <= k < pos + j ==> data@[k] == src@[k - pos],
            forall|k: int| pos + j <= k < start.len() ==> data@[k] == start[k],
        decreases src@.len() - j,
    {
        data.set(pos + j, src[j]);
        j = j + 1;
    }
    assert(data@ =~= written(start, pos as int, src@));
}

} // verus!
