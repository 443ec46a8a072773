//! The nonce sequence of one upload or download: the i-th chunk of a file is
//! sealed and opened with the i-th nonce.
use crate::le::{le, lemma_le};
use vstd::prelude::*;

verus! {

/// The nonce for counter value `c`: four zero bytes, then `c` little-endian.
pub open spec fn nonce_bytes(c: u64) -> Seq<u8> {
    seq![0u8, 0u8, 0u8, 0u8] + le(c)
}

/// A counter that hands out nonces in order, starting at 0.
pub struct NonceCounter(u64);

impl View for NonceCounter {
    type V = u64;

    closed spec fn view(&self) -> u64 {
        self.0
    }
}

impl NonceCounter {
    /// A counter at 0.
    pub fn new() -> (r: Self)
        ensures
            r@ == 0,
    {
        NonceCounter(0)
    }

    /// How many nonces have been handed out.
    pub fn count(&self) -> (r: u64)
        ensures
            r == self@,
    {
        self.0
    }

    /// The nonce for the current count; the count then moves on by one.
    pub fn get_nonce(&mut self) -> (r: [u8; 12])
        requires
            old(self)@ < u64::MAX,
        ensures
            r@ == nonce_bytes(old(self)@),
            final(self)@ == old(self)@ + 1,
    {
        let b = vstd::bytes::u64_to_le_bytes(self.0);
        proof {
            lemma_le(self.0, 0);
        }
        let r = [0u8, 0, 0, 0, b[0], b[1], b[2], b[3], b[4], b[5], b[6], b[7]];
        assert(r@ =~= nonce_bytes(self.0));
        self.0 = self.0 + 1;
        r
    }
}

/// Nonces depend on the count alone, and two counts share no nonce: the
/// i-th chunk of every upload under one key is sealed with the same nonce,
/// and no two chunks of one file are.
pub proof fn lemma_nonce_sequence(i: u64, j: u64)
    ensures
        nonce_bytes(i).len() == 12,
        nonce_bytes(i) == nonce_bytes(j) <==> i == j,
{
    lemma_le(i, j);
    lemma_le(j, i);
    if nonce_bytes(i) == nonce_bytes(j) {
        assert(le(i) =~= nonce_bytes(i).subrange(4, 12));
        assert(le(j) =~= nonce_bytes(j).subrange(4, 12));
    }
}

} // verus!
