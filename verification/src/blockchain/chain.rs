//! The append-only chain of blocks.

use crate::blockchain::block::{well_hashed, Block};
use vstd::prelude::*;
use vstd::string::StringExecFns;

verus! {

/// Every block sits at its own index and names the hash of its
/// predecessor; the genesis block carries the sentinel previous hash `"0"`.
pub open spec fn linked(blocks: Seq<Block>) -> bool {
    forall|i: int|
        0 <= i < blocks.len() ==> (#[trigger] blocks[i]).index as int == i && (i > 0
            ==> blocks[i].prev_hash@ == blocks[i - 1].hash@)
}

/// An append-only ordered sequence of blocks, starting from a genesis
/// block. Appending performs no validation: it is the caller's business to
/// extend the chain with a block built over [`Blockchain::last_hash`]; the
/// linkage law [`lemma_linked_push`] says that such an append keeps the
/// chain linked.
pub struct Blockchain {
    pub blocks: Vec<Block>,
}

impl Blockchain {
    /// A chain holding exactly the genesis block: index 0, no
    /// transactions, previous hash `"0"`.
    pub fn new() -> (c: Blockchain)
        ensures
            c.blocks@.len() == 1,
            c.blocks@[0].index == 0,
            c.blocks@[0].transactions@.len() == 0,
            c.blocks@[0].prev_hash@ == "0"@,
            well_hashed(c.blocks@[0]),
            linked(c.blocks@),
    {
        let genesis_block = Block::new(0, Vec::new(), String::from_str("0"));
        let mut blocks: Vec<Block> = Vec::new();
        blocks.push(genesis_block);
        Blockchain { blocks }
    }

    /// Appends a block, unconditionally.
    pub fn add_block(&mut self, block: Block)
        ensures
            final(self).blocks@ == old(self).blocks@.push(block),
    {
        self.blocks.push(block);
    }

    /// The hash of the tip block, or an empty string for an empty chain
    /// (which cannot occur on a chain built by [`Blockchain::new`]).
    pub fn last_hash(&self) -> (r: String)
        ensures
            self.blocks@.len() > 0 ==> r@ == self.blocks@.last().hash@,
            self.blocks@.len() == 0 ==> r@ == Seq::<char>::empty(),
    {
        if self.blocks.len() == 0 {
            String::new()
        } else {
            self.blocks[self.blocks.len() - 1].hash.clone()
        }
    }
}

/// Chain linkage: appending a block whose index is the chain's length and
/// whose previous hash is the tip's hash keeps the chain linked — so a
/// chain grown only by such appends has `blocks[i].prev_hash ==
/// blocks[i - 1].hash` and `blocks[i].index == i` throughout.
pub proof fn lemma_linked_push(blocks: Seq<Block>, b: Block)
    requires
        linked(blocks),
        b.index as int == blocks.len(),
        blocks.len() > 0 ==> b.prev_hash@ == blocks.last().hash@,
    ensures
        linked(blocks.push(b)),
{
    let t = blocks.push(b);
    assert forall|i: int| 0 <= i < t.len() implies (#[trigger] t[i]).index as int == i && (i > 0
        ==> t[i].prev_hash@ == t[i - 1].hash@) by {
        if i < blocks.len() {
            assert(t[i] == blocks[i]);
            if i > 0 {
                assert(t[i - 1] == blocks[i - 1]);
            }
        } else {
            assert(t[i] == b);
            if i > 0 {
                assert(t[i - 1] == blocks[i - 1]);
                assert(blocks[i - 1] == blocks.last());
            }
        }
    }
}

} // verus!
