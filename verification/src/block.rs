use vstd::prelude::*;

verus! {

/// A confirmed block header as the chain window tracks it: its height, its
/// own hash and the hash of its parent (absent only for the genesis block).
#[derive(Debug, Clone)]
pub struct Block {
    pub height: u32,
    pub hash: String,
    pub prevhash: Option<String>,
}

/// Why a candidate block was refused by the window.
#[derive(Debug, Clone, Copy, PartialEq, Eq, Structural)]
pub enum BlockError {
    HeightMismatch,
    HashMismatch,
}

/// A block header as the node reports it over RPC.
#[derive(Debug, Clone)]
pub struct ResponseBlockHeader {
    pub hash: String,
    pub height: u32,
    pub previousblockhash: Option<String>,
    pub nextblockhash: Option<String>,
}

/// `next` extends `prev`: the heights are consecutive and `next` names
/// `prev` as its parent.
pub open spec fn links_to(prev: Block, next: Block) -> bool {
    &&& next.height == prev.height + 1
    &&& next.prevhash is Some
    &&& next.prevhash->0@ == prev.hash@
}

impl From<ResponseBlockHeader> for Block {
    fn from(header: ResponseBlockHeader) -> (r: Block) {
        Block {
            height: header.height,
            hash: header.hash,
            prevhash: header.previousblockhash,
        }
    }
}

impl vstd::std_specs::convert::FromSpecImpl<ResponseBlockHeader> for Block {
    open spec fn obeys_from_spec() -> bool {
        true
    }

    open spec fn from_spec(header: ResponseBlockHeader) -> Block {
        Block {
            height: header.height,
            hash: header.hash,
            prevhash: header.previousblockhash,
        }
    }
}

} // verus!
