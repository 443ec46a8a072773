//! Little-endian `u64` fields inside byte buffers.
use vstd::bytes::{spec_u64_from_le_bytes, spec_u64_to_le_bytes, lemma_auto_spec_u64_to_from_le_bytes};
use vstd::prelude::*;

verus! {

/// The eight little-endian bytes of `x`.
pub open spec fn le(x: u64) -> Seq<u8> {
    spec_u64_to_le_bytes(x)
}

/// The value of eight little-endian bytes.
pub open spec fn le_value(s: Seq<u8>) -> u64 {
    spec_u64_from_le_bytes(s)
}

/// Encoding a `u64` gives eight bytes, decoding undoes it, and two values
/// with the same encoding are equal.
pub proof fn lemma_le(x: u64, y: u64)
    ensures
        le(x).len() == 8,
        le_value(le(x)) == x,
        le(x) == le(y) ==> x == y,
{
    lemma_auto_spec_u64_to_from_le_bytes();
}

/// Any eight bytes are the encoding of their value.
pub proof fn lemma_le_value(s: Seq<u8>)
    requires
        s.len() == 8,
    ensures
        le(le_value(s)) == s,
{
    lemma_auto_spec_u64_to_from_le_bytes();
}

/// Reads the `u64` stored at `pos`.
pub fn read_u64(b: &[u8], pos: usize) -> (r: u64)
    requires
        pos + 8 <= b@.len(),
    ensures
        r == le_value(b@.subrange(pos as int, pos + 8)),
        le(r) == b@.subrange(pos as int, pos + 8),
{
    let n = b.len();
    assert(pos + 8 <= n);
    let s = vstd::slice::slice_subrange(b, pos, pos + 8);
    let r = vstd::bytes::u64_from_le_bytes(s);
    proof {
        lemma_le_value(s@);
    }
    r
}

/// Appends the encoding of `x`.
pub fn push_u64(v: &mut Vec<u8>, x: u64)
    ensures
        final(v)@ == old(v)@ + le(x),
{
    let mut bytes = vstd::bytes::u64_to_le_bytes(x);
    v.append(&mut bytes);
}

} // verus!
