//! The block producer: pending transactions, the chain they go into, and
//! one production step under delegate consensus.

use crate::blockchain::block::{well_hashed, Block};
use crate::blockchain::chain::{lemma_linked_push, linked, Blockchain};
use crate::blockchain::transaction::Transaction;
use crate::consensus::dpos_simple::DPoS;
use vstd::prelude::*;

verus! {

/// A producer owning a chain and a pool of pending transactions.
pub struct Miner {
    pub blockchain: Blockchain,
    pub pending_transactions: Vec<Transaction>,
}

impl Miner {
    /// The chain is never empty and stays linked.
    pub open spec fn wf(self) -> bool {
        self.blockchain.blocks@.len() >= 1 && linked(self.blockchain.blocks@)
    }

    /// A producer over a fresh genesis chain with an empty pending pool.
    pub fn new() -> (m: Miner)
        ensures
            m.wf(),
            m.blockchain.blocks@.len() == 1,
            m.blockchain.blocks@[0].index == 0,
            m.blockchain.blocks@[0].transactions@.len() == 0,
            m.blockchain.blocks@[0].prev_hash@ == "0"@,
            well_hashed(m.blockchain.blocks@[0]),
            m.pending_transactions@.len() == 0,
    {
        Miner { blockchain: Blockchain::new(), pending_transactions: Vec::new() }
    }

    /// Adds a transaction to the pending pool.
    pub fn add_transaction(&mut self, transaction: Transaction)
        ensures
            final(self).pending_transactions@ == old(self).pending_transactions@.push(transaction),
            final(self).blockchain == old(self).blockchain,
    {
        self.pending_transactions.push(transaction);
    }

    /// One production step: asks the consensus strategy for a delegate; if
    /// one is selected, bundles the whole pending pool into a block built
    /// on the chain tip, appends it and clears the pool. When no delegate
    /// can be selected (empty registry), nothing changes: the block is not
    /// produced and the pool stays pending.
    pub fn produce_block(&mut self, dpos: &mut DPoS)
        requires
            old(self).wf(),
            old(self).blockchain.blocks@.len() <= u32::MAX,
        ensures
            final(self).wf(),
            *final(dpos) == *old(dpos),
            old(dpos).delegates@.len() == 0 ==> *final(self) == *old(self),
            old(dpos).delegates@.len() > 0 ==> {
                let blocks = old(self).blockchain.blocks@;
                let b = final(self).blockchain.blocks@.last();
                &&& final(self).pending_transactions@.len() == 0
                &&& final(self).blockchain.blocks@.len() == blocks.len() + 1
                &&& final(self).blockchain.blocks@.take(blocks.len() as int) == blocks
                &&& b.index as int == blocks.len()
                &&& b.prev_hash@ == blocks.last().hash@
                &&& b.transactions@ == old(self).pending_transactions@
                &&& b.nonce == 0
                &&& well_hashed(b)
            },
    {
        let selected = dpos.select_delegate();
        if selected.is_none() {
            return ;
        }
        let index = self.blockchain.blocks.len() as u32;
        let prev_hash = self.blockchain.last_hash();
        let mut transactions: Vec<Transaction> = Vec::new();
        for i in 0..self.pending_transactions.len()
            invariant
                transactions@ == self.pending_transactions@.take(i as int),
        {
            transactions.push(self.pending_transactions[i].clone());
            proof {
                assert(transactions@ =~= self.pending_transactions@.take(i + 1));
            }
        }
        proof {
            assert(self.pending_transactions@.take(self.pending_transactions@.len() as int)
                =~= self.pending_transactions@);
        }
        let new_block = Block::new(index, transactions, prev_hash);
        proof {
            lemma_linked_push(self.blockchain.blocks@, new_block);
        }
        self.blockchain.add_block(new_block);
        self.pending_transactions.clear();
        proof {
            assert(self.blockchain.blocks@.take(old(self).blockchain.blocks@.len() as int)
                =~= old(self).blockchain.blocks@);
        }
    }
}

} // verus!
