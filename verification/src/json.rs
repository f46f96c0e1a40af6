use vstd::prelude::*;

use crate::node::ResponseBlock;

verus! {

/// The wire shape of one transaction: hash and virtual size.
#[derive(Debug, Clone, PartialEq)]
pub struct Transaction {
    pub hash: String,
    pub size: u32,
}

/// The wire shape of a block served to read clients: height, hash, size
/// and the ordered transaction list.
#[derive(Debug, Clone, PartialEq)]
pub struct Block {
    pub height: u32,
    pub hash: String,
    pub size: u32,
    pub transactions: Vec<Transaction>,
}

impl Block {
    /// Convert a node block response into the wire shape, keeping the
    /// transaction order.
    pub fn from_response(block: ResponseBlock) -> (r: Block)
        ensures
            r.height == block.height,
            r.hash@ == block.hash@,
            r.size == block.size,
            r.transactions@.len() == block.transactions@.len(),
            forall|i: int|
                0 <= i < block.transactions@.len() ==> {
                    &&& (#[trigger] r.transactions@[i]).hash@ == block.transactions@[i].hash@
                    &&& r.transactions@[i].size == block.transactions@[i].size
                },
    {
        let mut transactions: Vec<Transaction> = Vec::new();
        let mut idx: usize = 0;
        while idx < block.transactions.len()
            invariant
                idx <= block.transactions@.len(),
                transactions@.len() == idx,
                forall|i: int|
                    0 <= i < idx ==> {
                        &&& (#[trigger] transactions@[i]).hash@ == block.transactions@[i].hash@
                        &&& transactions@[i].size == block.transactions@[i].size
                    },
            decreases block.transactions@.len() - idx,
        {
            let tx = &block.transactions[idx];
            transactions.push(Transaction { hash: tx.hash.clone(), size: tx.size });
            idx = idx + 1;
        }
        Block { height: block.height, hash: block.hash, size: block.size, transactions }
    }
}

} // verus!
