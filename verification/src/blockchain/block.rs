//! Self-hashing blocks and the proof-of-work nonce search.

use crate::clock::now_rfc3339;
use crate::digest::{hex_rep, sha256_hex, sha256_of};
use crate::text::{dec_rep, u64_to_string};
use crate::wallet::balance::{bal, spec_apply, spec_apply_seq, Ledger, TransactionError};
use crate::blockchain::transaction::{encode_transactions, txs_encoding, Transaction};
use vstd::prelude::*;
use vstd::string::{StrSliceExecFns, StringExecFns};

verus! {

/// An immutable batch of transactions plus chain-linkage metadata. The
/// `hash` field always holds the digest of the other fields; the
/// proof-of-work search mutates `nonce` (recomputing `hash`) until the
/// digest meets a difficulty target.
#[derive(Debug)]
pub struct Block {
    pub index: u32,
    pub timestamp: String,
    pub prev_hash: String,
    pub nonce: u64,
    pub hash: String,
    pub transactions: Vec<Transaction>,
}

/// The text record a block's hash is computed over: every field except the
/// hash itself, in a fixed order.
pub open spec fn block_record(b: Block) -> Seq<char> {
    dec_rep(b.index as nat) + b.timestamp@ + txs_encoding(b.transactions@) + b.prev_hash@
        + dec_rep(b.nonce as nat)
}

/// The hex digest a block's `hash` field must hold.
pub open spec fn spec_hash(b: Block) -> Seq<char> {
    hex_rep(sha256_of(block_record(b)))
}

/// The block's hash is the digest of its own content: 64 hex digits.
pub open spec fn well_hashed(b: Block) -> bool {
    b.hash@ == spec_hash(b) && b.hash@.len() == 64
}

/// The digest the block would carry with its nonce replaced by `n`.
pub open spec fn hash_with_nonce(b: Block, n: u64) -> Seq<char> {
    spec_hash(Block { nonce: n, ..b })
}

/// The first `d` characters of `s` are all `'0'`.
pub open spec fn leading_zeros(s: Seq<char>, d: int) -> bool {
    forall|i: int| 0 <= i < d ==> s[i] == '0'
}

/// Checks whether the first `d` characters of `h` are all `'0'`.
fn has_leading_zeros(h: &str, d: usize) -> (r: bool)
    requires
        d <= h@.len(),
    ensures
        r == leading_zeros(h@, d as int),
{
    for i in 0..d
        invariant
            d <= h@.len(),
            forall|j: int| 0 <= j < i ==> h@[j] == '0',
    {
        if h.get_char(i) != '0' {
            return false;
        }
    }
    true
}

impl Clone for Block {
    fn clone(&self) -> (res: Self)
        ensures
            res.index == self.index,
            res.timestamp == self.timestamp,
            res.prev_hash == self.prev_hash,
            res.nonce == self.nonce,
            res.hash == self.hash,
            res.transactions@ == self.transactions@,
    {
        let mut transactions: Vec<Transaction> = Vec::new();
        for i in 0..self.transactions.len()
            invariant
                transactions@ == self.transactions@.take(i as int),
        {
            transactions.push(self.transactions[i].clone());
            proof {
                assert(transactions@ =~= self.transactions@.take(i + 1));
            }
        }
        proof {
            assert(self.transactions@.take(self.transactions@.len() as int)
                =~= self.transactions@);
        }
        let res = Block {
            index: self.index,
            timestamp: self.timestamp.clone(),
            prev_hash: self.prev_hash.clone(),
            nonce: self.nonce,
            hash: self.hash.clone(),
            transactions,
        };
        res
    }
}

impl Block {
    /// Builds a block over the given batch, stamping the current time,
    /// starting the nonce at 0 and computing the hash of the content.
    pub fn new(index: u32, transactions: Vec<Transaction>, prev_hash: String) -> (b: Block)
        ensures
            b.index == index,
            b.transactions == transactions,
            b.prev_hash == prev_hash,
            b.nonce == 0,
            b.timestamp@.len() > 0,
            well_hashed(b),
    {
        let timestamp = now_rfc3339();
        let mut block = Block {
            index,
            timestamp,
            prev_hash,
            nonce: 0,
            hash: String::new(),
            transactions,
        };
        block.hash = block.calculate_hash();
        block
    }

    /// Computes the digest of the block's content: a deterministic function
    /// of (index, timestamp, canonically encoded transactions, previous
    /// hash, nonce), rendered as 64 lowercase hex digits.
    pub fn calculate_hash(&self) -> (r: String)
        ensures
            r@ == spec_hash(*self),
            r@.len() == 64,
    {
        let mut record = u64_to_string(self.index as u64);
        record.append(self.timestamp.as_str());
        let tx_data = encode_transactions(&self.transactions);
        record.append(tx_data.as_str());
        record.append(self.prev_hash.as_str());
        let nonce_str = u64_to_string(self.nonce);
        record.append(nonce_str.as_str());
        proof {
            assert(record@ =~= block_record(*self));
        }
        sha256_hex(record.as_str())
    }

    /// The proof-of-work search: increments the nonce and recomputes the
    /// hash until the hash's first `difficulty` hex digits are all `'0'`,
    /// so the result holds the first satisfying nonce at or after the
    /// starting one. The search gives up once the nonce space is
    /// exhausted, so it always terminates; with difficulty 0 it returns at
    /// once with the block untouched.
    pub fn mine(&mut self, difficulty: usize)
        requires
            difficulty <= 64,
            well_hashed(*old(self)),
        ensures
            well_hashed(*final(self)),
            final(self).index == old(self).index,
            final(self).timestamp == old(self).timestamp,
            final(self).prev_hash == old(self).prev_hash,
            final(self).transactions == old(self).transactions,
            final(self).nonce >= old(self).nonce,
            final(self).nonce < u64::MAX ==> leading_zeros(final(self).hash@, difficulty as int),
            leading_zeros(old(self).hash@, difficulty as int) ==> *final(self) == *old(self),
            final(self).nonce > old(self).nonce ==> !leading_zeros(
                old(self).hash@,
                difficulty as int,
            ),
            forall|n: u64|
                old(self).nonce < n < final(self).nonce ==> !leading_zeros(
                    #[trigger] hash_with_nonce(*final(self), n),
                    difficulty as int,
                ),
    {
        let mut done = has_leading_zeros(self.hash.as_str(), difficulty);
        while !done && self.nonce < u64::MAX
            invariant
                difficulty <= 64,
                well_hashed(*self),
                done == leading_zeros(self.hash@, difficulty as int),
                self.index == old(self).index,
                self.timestamp == old(self).timestamp,
                self.prev_hash == old(self).prev_hash,
                self.transactions == old(self).transactions,
                self.nonce >= old(self).nonce,
                leading_zeros(old(self).hash@, difficulty as int) ==> *self == *old(self),
                self.nonce > old(self).nonce ==> !leading_zeros(old(self).hash@, difficulty as int),
                forall|n: u64|
                    old(self).nonce < n < self.nonce ==> !leading_zeros(
                        #[trigger] hash_with_nonce(*self, n),
                        difficulty as int,
                    ),
            decreases u64::MAX - self.nonce,
        {
            let ghost prev = *self;
            self.nonce = self.nonce + 1;
            self.hash = self.calculate_hash();
            done = has_leading_zeros(self.hash.as_str(), difficulty);
            proof {
                assert forall|n: u64| old(self).nonce < n < self.nonce implies !leading_zeros(
                    #[trigger] hash_with_nonce(*self, n),
                    difficulty as int,
                ) by {
                    assert(block_record(Block { nonce: n, ..*self }) =~= block_record(
                        Block { nonce: n, ..prev },
                    ));
                    assert(hash_with_nonce(*self, n) == hash_with_nonce(prev, n));
                    if n == prev.nonce {
                        assert(Block { nonce: n, ..prev } == prev);
                        assert(hash_with_nonce(prev, n) == prev.hash@);
                    }
                }
            }
        }
    }

    /// The proof-of-work production path: builds a block over the given
    /// batch and runs the nonce search on it, so the returned block's hash
    /// meets the difficulty target (unless the whole nonce space was
    /// searched in vain).
    pub fn new_mined(
        index: u32,
        transactions: Vec<Transaction>,
        prev_hash: String,
        difficulty: usize,
    ) -> (b: Block)
        requires
            difficulty <= 64,
        ensures
            b.index == index,
            b.transactions == transactions,
            b.prev_hash == prev_hash,
            b.timestamp@.len() > 0,
            well_hashed(b),
            b.nonce < u64::MAX ==> leading_zeros(b.hash@, difficulty as int),
            forall|n: u64|
                n < b.nonce ==> !leading_zeros(
                    #[trigger] hash_with_nonce(b, n),
                    difficulty as int,
                ),
    {
        let mut b = Block::new(index, transactions, prev_hash);
        let ghost b0 = b;
        b.mine(difficulty);
        proof {
            assert forall|n: u64| n < b.nonce implies !leading_zeros(
                #[trigger] hash_with_nonce(b, n),
                difficulty as int,
            ) by {
                if n == 0 {
                    assert(block_record(Block { nonce: n, ..b }) == block_record(b0));
                    assert(hash_with_nonce(b, n) == b0.hash@);
                }
            }
        }
        b
    }

    /// Applies every transaction of a block to the ledger in order,
    /// stopping at the first failure. Transactions already applied within
    /// the same call stay applied: fail fast, no rollback. The sum of all
    /// balances never changes.
    pub fn apply_block(ledger: &mut Ledger, block: &Block) -> (r: Result<(), TransactionError>)
        requires
            old(ledger).wf(),
        ensures
            final(ledger).wf(),
            final(ledger).total() == old(ledger).total(),
            final(ledger)@ == spec_apply_seq(old(ledger)@, block.transactions@).0,
            r == Ok::<(), TransactionError>(()) <==> spec_apply_seq(
                old(ledger)@,
                block.transactions@,
            ).1,
            r is Err ==> r == Err::<(), TransactionError>(TransactionError::InsufficientFunds),
    {
        let n = block.transactions.len();
        proof {
            assert(block.transactions@.skip(0) =~= block.transactions@);
        }
        for i in 0..n
            invariant
                n == block.transactions.len(),
                ledger.wf(),
                ledger.total() == old(ledger).total(),
                spec_apply_seq(old(ledger)@, block.transactions@) == spec_apply_seq(
                    ledger@,
                    block.transactions@.skip(i as int),
                ),
        {
            proof {
                let rest = block.transactions@.skip(i as int);
                assert(rest[0] == block.transactions@[i as int]);
                assert(rest.drop_first() =~= block.transactions@.skip(i + 1));
            }
            let r = ledger.apply_transaction(&block.transactions[i]);
            if r.is_err() {
                return Err(TransactionError::InsufficientFunds);
            }
        }
        proof {
            assert(block.transactions@.skip(n as int) =~= Seq::<Transaction>::empty());
        }
        Ok(())
    }
}

} // verus!
