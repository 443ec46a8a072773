//! The kind of a node: a directory or a file.
use crate::le::{le, le_value, lemma_le};
use vstd::prelude::*;

verus! {

/// Whether a node is a directory or a file.
#[derive(Clone, Copy, Debug, PartialEq, Eq, Structural)]
pub enum NodeKind {
    Directory,
    File,
}

/// The number that stands for a kind in a node's header.
pub open spec fn kind_code(k: NodeKind) -> u64 {
    match k {
        NodeKind::Directory => 0,
        NodeKind::File => 1,
    }
}

/// The kind that a header number stands for, if any.
pub open spec fn kind_of_code(c: u64) -> Option<NodeKind> {
    if c == 0 {
        Some(NodeKind::Directory)
    } else if c == 1 {
        Some(NodeKind::File)
    } else {
        None
    }
}

impl NodeKind {
    /// The kind's number as eight little-endian bytes.
    pub fn to_le_bytes(self) -> (r: [u8; 8])
        ensures
            r@ == le(kind_code(self)),
    {
        proof {
            vstd::bytes::spec_u64_to_le_bytes_to_open(0);
            vstd::bytes::spec_u64_to_le_bytes_to_open(1);
            assert((0u64 & 0xff) as u8 == 0 && ((0u64 >> 8) & 0xff) as u8 == 0 && ((0u64 >> 16)
                & 0xff) as u8 == 0 && ((0u64 >> 24) & 0xff) as u8 == 0 && ((0u64 >> 32) & 0xff) as u8
                == 0 && ((0u64 >> 40) & 0xff) as u8 == 0 && ((0u64 >> 48) & 0xff) as u8 == 0 && ((
            0u64 >> 56) & 0xff) as u8 == 0) by (bit_vector);
            assert((1u64 & 0xff) as u8 == 1 && ((1u64 >> 8) & 0xff) as u8 == 0 && ((1u64 >> 16)
                & 0xff) as u8 == 0 && ((1u64 >> 24) & 0xff) as u8 == 0 && ((1u64 >> 32) & 0xff) as u8
                == 0 && ((1u64 >> 40) & 0xff) as u8 == 0 && ((1u64 >> 48) & 0xff) as u8 == 0 && ((
            1u64 >> 56) & 0xff) as u8 == 0) by (bit_vector);
        }
        let r = match self {
            NodeKind::Directory => [0u8, 0, 0, 0, 0, 0, 0, 0],
            NodeKind::File => [1u8, 0, 0, 0, 0, 0, 0, 0],
        };
        assert(r@ =~= le(kind_code(self)));
        r
    }

    /// The kind whose number `bytes` encodes.
    pub fn from_le_bytes(bytes: [u8; 8]) -> (r: Self)
        requires
            kind_of_code(le_value(bytes@)) is Some,
        ensures
            kind_of_code(le_value(bytes@)) == Some(r),
    {
        let c = vstd::bytes::u64_from_le_bytes(bytes.as_slice());
        if c == 0 {
            NodeKind::Directory
        } else {
            NodeKind::File
        }
    }
}

/// Every kind's number decodes back to that kind.
pub proof fn lemma_kind_code(k: NodeKind)
    ensures
        kind_of_code(kind_code(k)) == Some(k),
        kind_of_code(le_value(le(kind_code(k)))) == Some(k),
{
    lemma_le(kind_code(k), 0);
}

} // verus!
