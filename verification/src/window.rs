use vstd::prelude::*;

use crate::block::{links_to, Block, BlockError};

verus! {

/// Every adjacent pair of the sequence chains correctly: heights ascend by
/// one and each block names its predecessor's hash as its parent.
pub open spec fn chain_linked(s: Seq<Block>) -> bool {
    forall|i: int| 0 <= i && i + 1 < s.len() ==> links_to(#[trigger] s[i], s[i + 1])
}

/// An ordered window of confirmed blocks, lowest height first, that only
/// accepts pushes which keep the chain contiguous.
#[derive(Debug)]
pub struct AppState {
    blocks: Vec<Block>,
}

impl View for AppState {
    type V = Seq<Block>;

    closed spec fn view(&self) -> Seq<Block> {
        self.blocks@
    }
}

impl Default for AppState {
    fn default() -> (r: AppState)
        ensures
            r@ == Seq::<Block>::empty(),
    {
        AppState { blocks: Vec::new() }
    }
}

impl AppState {
    /// Drop every block from the window.
    pub fn reset(&mut self)
        ensures
            final(self)@ == Seq::<Block>::empty(),
    {
        self.blocks.clear();
    }

    /// How many blocks the window holds.
    pub fn blocks_len(&self) -> (n: usize)
        ensures
            n == self@.len(),
    {
        self.blocks.len()
    }

    /// The lowest block of the window, if any.
    pub fn blocks_first(&self) -> (r: Option<&Block>)
        ensures
            (match r {
                Some(b) => self@.len() > 0 && *b == self@[0],
                None => self@.len() == 0,
            }),
    {
        if self.blocks.len() == 0 {
            None
        } else {
            Some(&self.blocks[0])
        }
    }

    /// The highest block of the window, if any.
    pub fn blocks_last(&self) -> (r: Option<&Block>)
        ensures
            (match r {
                Some(b) => self@.len() > 0 && *b == self@[self@.len() - 1],
                None => self@.len() == 0,
            }),
    {
        if self.blocks.len() == 0 {
            None
        } else {
            Some(&self.blocks[self.blocks.len() - 1])
        }
    }

    /// Prepend `block` below the current first block. The push succeeds
    /// exactly when the window is empty or `block` is the parent the first
    /// block names; a contiguous window stays contiguous.
    pub fn blocks_push_front(&mut self, block: Block) -> (r: Result<&Block, BlockError>)
        ensures
            (match r {
                Ok(b) => {
                    &&& old(self)@.len() == 0 || links_to(block, old(self)@[0])
                    &&& final(self)@ == seq![block] + old(self)@
                    &&& *b == block
                },
                Err(BlockError::HeightMismatch) => {
                    &&& final(self)@ == old(self)@
                    &&& old(self)@.len() > 0
                    &&& block.height + 1 != old(self)@[0].height
                },
                Err(BlockError::HashMismatch) => {
                    &&& final(self)@ == old(self)@
                    &&& old(self)@.len() > 0
                    &&& block.height + 1 == old(self)@[0].height
                    &&& !(old(self)@[0].prevhash matches Some(p) && p@ == block.hash@)
                },
            }),
            chain_linked(old(self)@) && r is Ok ==> chain_linked(final(self)@),
    {
        if self.blocks.len() > 0 {
            let first = &self.blocks[0];
            if block.height >= u32::MAX || block.height + 1 != first.height {
                return Err(BlockError::HeightMismatch);
            }
            match &first.prevhash {
                None => {
                    return Err(BlockError::HashMismatch);
                },
                Some(p) => {
                    if !(block.hash == *p) {
                        return Err(BlockError::HashMismatch);
                    }
                },
            }
        }
        self.blocks.insert(0, block);
        proof {
            if chain_linked(old(self)@) {
                let s = self.blocks@;
                assert forall|i: int| 0 <= i && i + 1 < s.len() implies links_to(
                    #[trigger] s[i],
                    s[i + 1],
                ) by {
                    if i > 0 {
                        assert(links_to(old(self)@[i - 1], old(self)@[i]));
                    }
                }
            }
        }
        Ok(&self.blocks[0])
    }

    /// Append `block` above the current last block. The push succeeds
    /// exactly when the window is empty or `block` extends the last block;
    /// a contiguous window stays contiguous.
    pub fn blocks_push_back(&mut self, block: Block) -> (r: Result<&Block, BlockError>)
        ensures
            (match r {
                Ok(b) => {
                    &&& old(self)@.len() == 0 || links_to(old(self)@[old(self)@.len() - 1], block)
                    &&& final(self)@ == old(self)@.push(block)
                    &&& *b == block
                },
                Err(BlockError::HeightMismatch) => {
                    &&& final(self)@ == old(self)@
                    &&& old(self)@.len() > 0
                    &&& block.height != old(self)@[old(self)@.len() - 1].height + 1
                },
                Err(BlockError::HashMismatch) => {
                    &&& final(self)@ == old(self)@
                    &&& old(self)@.len() > 0
                    &&& block.height == old(self)@[old(self)@.len() - 1].height + 1
                    &&& !(block.prevhash matches Some(p) && p@ == old(self)@[old(self)@.len()
                        - 1].hash@)
                },
            }),
            chain_linked(old(self)@) && r is Ok ==> chain_linked(final(self)@),
    {
        if self.blocks.len() > 0 {
            let last = &self.blocks[self.blocks.len() - 1];
            if block.height == 0 || block.height - 1 != last.height {
                return Err(BlockError::HeightMismatch);
            }
            match &block.prevhash {
                None => {
                    return Err(BlockError::HashMismatch);
                },
                Some(p) => {
                    if !(*p == last.hash) {
                        return Err(BlockError::HashMismatch);
                    }
                },
            }
        }
        self.blocks.push(block);
        proof {
            if chain_linked(old(self)@) {
                let s = self.blocks@;
                assert forall|i: int| 0 <= i && i + 1 < s.len() implies links_to(
                    #[trigger] s[i],
                    s[i + 1],
                ) by {
                    if i + 1 < s.len() - 1 {
                        assert(links_to(old(self)@[i], old(self)@[i + 1]));
                    }
                }
            }
        }
        let n = self.blocks.len();
        Ok(&self.blocks[n - 1])
    }

    /// Remove the lowest block, if any.
    pub fn blocks_pop_first(&mut self)
        ensures
            old(self)@.len() == 0 ==> final(self)@ == old(self)@,
            old(self)@.len() > 0 ==> final(self)@ == old(self)@.drop_first(),
            chain_linked(old(self)@) ==> chain_linked(final(self)@),
    {
        if self.blocks.len() > 0 {
            self.blocks.remove(0);
        }
        proof {
            let s = self.blocks@;
            if chain_linked(old(self)@) {
                assert forall|i: int| 0 <= i && i + 1 < s.len() implies links_to(
                    #[trigger] s[i],
                    s[i + 1],
                ) by {
                    assert(links_to(old(self)@[i + 1], old(self)@[i + 2]));
                }
            }
        }
    }

    /// Remove the highest block, if any.
    pub fn blocks_pop_last(&mut self)
        ensures
            old(self)@.len() == 0 ==> final(self)@ == old(self)@,
            old(self)@.len() > 0 ==> final(self)@ == old(self)@.drop_last(),
            chain_linked(old(self)@) ==> chain_linked(final(self)@),
    {
        if self.blocks.len() > 0 {
            self.blocks.pop();
        }
        proof {
            let s = self.blocks@;
            if chain_linked(old(self)@) {
                assert forall|i: int| 0 <= i && i + 1 < s.len() implies links_to(
                    #[trigger] s[i],
                    s[i + 1],
                ) by {
                    assert(links_to(old(self)@[i], old(self)@[i + 1]));
                }
            }
        }
    }
}

} // verus!
