//! The shared data types: a block's fixed-size hash and the pairing of a
//! chain height with the hash the node reported for it.

use vstd::prelude::*;

verus! {

/// Length in bytes of a block's binary identifier.
pub const HASH_LEN: usize = 32;

/// A fixed-size binary identifier for a block.
#[derive(Clone, Copy, Debug)]
pub struct BlockHash {
    pub bytes: [u8; 32],
}

impl View for BlockHash {
    type V = Seq<u8>;

    open spec fn view(&self) -> Seq<u8> {
        self.bytes@
    }
}

impl BlockHash {
    /// Byte-for-byte equality of two block identifiers.
    pub fn eq_hash(&self, other: &BlockHash) -> (r: bool)
        ensures
            r == (self@ == other@),
    {
        let mut i: usize = 0;
        while i < HASH_LEN
            invariant
                0 <= i <= HASH_LEN,
                forall|j: int| 0 <= j < i ==> self.bytes@[j] == other.bytes@[j],
            decreases HASH_LEN - i,
        {
            if self.bytes[i] != other.bytes[i] {
                return false;
            }
            i += 1;
        }
        proof {
            assert(self@ =~= other@);
        }
        true
    }
}

/// One chain position: a height and the hash the node reported for it.
#[derive(Clone, Copy, Debug)]
pub struct BlockRecord {
    pub height: u64,
    pub hash: BlockHash,
}

/// Connection descriptor for the node's query interface; immutable for
/// the process lifetime. Consumed by the transport layer around the
/// library, never by the core itself.
#[derive(Clone, Debug)]
pub struct NodeEndpoint {
    pub url: String,
    pub user: Option<String>,
    pub password: Option<String>,
}

} // verus!
