//! Value-transfer records and their canonical text encoding.
//!
//! The encoding is the one hashed into blocks, so it must be deterministic:
//! stable field order and stable number formatting. It is specified exactly,
//! character for character, by [`txs_encoding`].

use crate::clock::now_rfc3339;
use crate::text::dec_rep;
use crate::text::u64_to_string;
use vstd::prelude::*;
use vstd::string::StringExecFns;

verus! {

/// An immutable record of a value transfer. Amounts are non-negative
/// integral units; the timestamp is stamped at construction.
#[derive(Debug)]
pub struct Transaction {
    pub sender: String,
    pub recipient: String,
    pub amount: u64,
    pub timestamp: String,
}

impl Clone for Transaction {
    fn clone(&self) -> (res: Self)
        ensures
            res == *self,
    {
        Transaction {
            sender: self.sender.clone(),
            recipient: self.recipient.clone(),
            amount: self.amount,
            timestamp: self.timestamp.clone(),
        }
    }
}

impl Transaction {
    /// Builds a transfer record, stamping the current time. No validation
    /// happens here; balances are checked only when a ledger applies the
    /// transaction.
    pub fn new(sender: String, recipient: String, amount: u64) -> (t: Transaction)
        ensures
            t.sender == sender,
            t.recipient == recipient,
            t.amount == amount,
            t.timestamp@.len() > 0,
    {
        let timestamp = now_rfc3339();
        Transaction { sender, recipient, amount, timestamp }
    }
}

/// The canonical text form of one transaction.
pub open spec fn tx_repr(t: Transaction) -> Seq<char> {
    "{"@ + t.sender@ + ","@ + t.recipient@ + ","@ + dec_rep(t.amount as nat) + ","@ + t.timestamp@
        + "}"@
}

/// The concatenation of the canonical forms of a batch, in order.
pub open spec fn batch_repr(txs: Seq<Transaction>) -> Seq<char>
    decreases txs.len(),
{
    if txs.len() == 0 {
        Seq::empty()
    } else {
        batch_repr(txs.drop_last()) + tx_repr(txs.last())
    }
}

/// The canonical text encoding of an ordered transaction batch.
pub open spec fn txs_encoding(txs: Seq<Transaction>) -> Seq<char> {
    "["@ + batch_repr(txs) + "]"@
}

/// Renders a batch of transactions in its canonical text encoding.
pub fn encode_transactions(txs: &Vec<Transaction>) -> (r: String)
    ensures
        r@ == txs_encoding(txs@),
{
    let mut s = String::from_str("[");
    for i in 0..txs.len()
        invariant
            s@ == "["@ + batch_repr(txs@.take(i as int)),
    {
        s.append("{");
        s.append(txs[i].sender.as_str());
        s.append(",");
        s.append(txs[i].recipient.as_str());
        s.append(",");
        let amt = u64_to_string(txs[i].amount);
        s.append(amt.as_str());
        s.append(",");
        s.append(txs[i].timestamp.as_str());
        s.append("}");
        proof {
            assert(txs@.take(i + 1).drop_last() =~= txs@.take(i as int));
            assert(txs@.take(i + 1).last() == txs@[i as int]);
            assert(s@ =~= "["@ + batch_repr(txs@.take(i + 1)));
        }
    }
    s.append("]");
    proof {
        assert(txs@.take(txs@.len() as int) =~= txs@);
        assert(s@ =~= txs_encoding(txs@));
    }
    s
}

} // verus!
