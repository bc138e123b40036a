//! The ledger: a mapping from account identifier to balance.
//!
//! The ledger is modelled as a map from account names to balances; missing
//! accounts read as balance 0. Its well-formedness invariant keeps account
//! keys unique and bounds the sum of all balances by `u64::MAX`; since
//! applying a transaction conserves that sum, no transfer can overflow a
//! balance.

use crate::blockchain::transaction::Transaction;
use crate::text::str_eq;
use vstd::prelude::*;

verus! {

/// Failure of applying a single transaction.
#[derive(Debug, PartialEq)]
pub enum TransactionError {
    /// The sender's balance is smaller than the transferred amount.
    InsufficientFunds,
}

/// An account book: each entry is an account name with its balance.
pub struct Ledger {
    pub balances: Vec<(String, u64)>,
}

/// No two entries name the same account.
pub open spec fn keys_unique(s: Seq<(String, u64)>) -> bool {
    forall|i: int, j: int| 0 <= i < j < s.len() ==> s[i].0@ != s[j].0@
}

/// The balance map an entry list denotes.
pub open spec fn map_of(s: Seq<(String, u64)>) -> Map<Seq<char>, u64>
    decreases s.len(),
{
    if s.len() == 0 {
        Map::empty()
    } else {
        map_of(s.drop_last()).insert(s.last().0@, s.last().1)
    }
}

/// The sum of all balances in an entry list.
pub open spec fn total_of(s: Seq<(String, u64)>) -> int
    decreases s.len(),
{
    if s.len() == 0 {
        0int
    } else {
        total_of(s.drop_last()) + s.last().1
    }
}

/// The balance of `k` in `m`; unknown accounts read as 0.
pub open spec fn bal(m: Map<Seq<char>, u64>, k: Seq<char>) -> u64 {
    if m.contains_key(k) {
        m[k]
    } else {
        0u64
    }
}

/// The balance map after transferring `amt` from `s` to `r`: the sender is
/// debited, then the recipient is credited.
pub open spec fn spec_apply(
    m: Map<Seq<char>, u64>,
    s: Seq<char>,
    r: Seq<char>,
    amt: u64,
) -> Map<Seq<char>, u64> {
    let debited = m.insert(s, (bal(m, s) - amt) as u64);
    debited.insert(r, (bal(debited, r) + amt) as u64)
}

/// The state after applying a batch in order, stopping at the first
/// insufficient balance, and whether the whole batch went through.
pub open spec fn spec_apply_seq(m: Map<Seq<char>, u64>, txs: Seq<Transaction>) -> (
    Map<Seq<char>, u64>,
    bool,
)
    decreases txs.len(),
{
    if txs.len() == 0 {
        (m, true)
    } else if bal(m, txs[0].sender@) < txs[0].amount {
        (m, false)
    } else {
        spec_apply_seq(spec_apply(m, txs[0].sender@, txs[0].recipient@, txs[0].amount),
            txs.drop_first())
    }
}

proof fn lemma_total_nonneg(s: Seq<(String, u64)>)
    ensures
        total_of(s) >= 0,
    decreases s.len(),
{
    if s.len() > 0 {
        lemma_total_nonneg(s.drop_last());
    }
}

proof fn lemma_absent_key(s: Seq<(String, u64)>, k: Seq<char>)
    requires
        forall|i: int| 0 <= i < s.len() ==> s[i].0@ != k,
    ensures
        !map_of(s).contains_key(k),
    decreases s.len(),
{
    if s.len() > 0 {
        lemma_absent_key(s.drop_last(), k);
    }
}

proof fn lemma_entry_value(s: Seq<(String, u64)>, i: int)
    requires
        keys_unique(s),
        0 <= i < s.len(),
    ensures
        map_of(s).contains_key(s[i].0@),
        map_of(s)[s[i].0@] == s[i].1,
    decreases s.len(),
{
    if i < s.len() - 1 {
        lemma_entry_value(s.drop_last(), i);
        assert(s[s.len() - 1].0@ != s[i].0@);
    }
}

proof fn lemma_bal_le_total(s: Seq<(String, u64)>, k: Seq<char>)
    requires
        keys_unique(s),
    ensures
        bal(map_of(s), k) <= total_of(s),
    decreases s.len(),
{
    lemma_total_nonneg(s);
    if s.len() > 0 {
        lemma_bal_le_total(s.drop_last(), k);
        lemma_total_nonneg(s.drop_last());
    }
}

proof fn lemma_two_bal_le_total(s: Seq<(String, u64)>, k1: Seq<char>, k2: Seq<char>)
    requires
        keys_unique(s),
        k1 != k2,
    ensures
        bal(map_of(s), k1) + bal(map_of(s), k2) <= total_of(s),
    decreases s.len(),
{
    if s.len() > 0 {
        lemma_two_bal_le_total(s.drop_last(), k1, k2);
        if s.last().0@ == k1 {
            lemma_bal_le_total(s.drop_last(), k2);
        } else if s.last().0@ == k2 {
            lemma_bal_le_total(s.drop_last(), k1);
        }
    }
}

proof fn lemma_update_effect(s: Seq<(String, u64)>, i: int, e: (String, u64))
    requires
        keys_unique(s),
        0 <= i < s.len(),
        e.0@ == s[i].0@,
    ensures
        map_of(s.update(i, e)) =~= map_of(s).insert(e.0@, e.1),
        total_of(s.update(i, e)) == total_of(s) - s[i].1 + e.1,
        keys_unique(s.update(i, e)),
    decreases s.len(),
{
    let t = s.update(i, e);
    if i == s.len() - 1 {
        assert(t.drop_last() =~= s.drop_last());
    } else {
        assert(t.drop_last() =~= s.drop_last().update(i, e));
        lemma_update_effect(s.drop_last(), i, e);
        assert(s.last().0@ != s[i].0@);
    }
}

proof fn lemma_push_effect(s: Seq<(String, u64)>, e: (String, u64))
    requires
        keys_unique(s),
        forall|i: int| 0 <= i < s.len() ==> s[i].0@ != e.0@,
    ensures
        map_of(s.push(e)) == map_of(s).insert(e.0@, e.1),
        total_of(s.push(e)) == total_of(s) + e.1,
        keys_unique(s.push(e)),
{
    assert(s.push(e).drop_last() =~= s);
    assert(s.push(e).last() == e);
}

impl View for Ledger {
    type V = Map<Seq<char>, u64>;

    open spec fn view(&self) -> Map<Seq<char>, u64> {
        map_of(self.balances@)
    }
}

impl Ledger {
    /// Account keys are unique and the sum of all balances fits in a `u64`.
    pub open spec fn wf(self) -> bool {
        keys_unique(self.balances@) && total_of(self.balances@) <= u64::MAX
    }

    /// The sum of all balances.
    pub open spec fn total(self) -> int {
        total_of(self.balances@)
    }

    /// An empty ledger: every account reads as balance 0.
    pub fn new() -> (l: Ledger)
        ensures
            l@ == Map::<Seq<char>, u64>::empty(),
            l.wf(),
            l.total() == 0,
    {
        Ledger { balances: Vec::new() }
    }

    /// Reads an account's balance; unknown accounts read as 0. Never fails.
    pub fn get_balance(&self, address: &str) -> (r: u64)
        requires
            self.wf(),
        ensures
            r == bal(self@, address@),
    {
        let n = self.balances.len();
        for i in 0..n
            invariant
                n == self.balances.len(),
                self.wf(),
                forall|j: int| 0 <= j < i ==> self.balances@[j].0@ != address@,
        {
            if str_eq(self.balances[i].0.as_str(), address) {
                proof {
                    lemma_entry_value(self.balances@, i as int);
                }
                return self.balances[i].1;
            }
        }
        proof {
            lemma_absent_key(self.balances@, address@);
        }
        0
    }

    /// Overwrites an account's balance unconditionally; used for genesis
    /// funding and initialization, not for transfers. The caller keeps the
    /// sum of all balances within `u64::MAX`.
    pub fn set_balance(&mut self, address: String, amount: u64)
        requires
            old(self).wf(),
            old(self).total() - bal(old(self)@, address@) + amount <= u64::MAX,
        ensures
            final(self)@ == old(self)@.insert(address@, amount),
            final(self).wf(),
            final(self).total() == old(self).total() - bal(old(self)@, address@) + amount,
    {
        let n = self.balances.len();
        let mut i: usize = 0;
        while i < n
            invariant
                *self == *old(self),
                n == self.balances.len(),
                old(self).wf(),
                old(self).total() - bal(old(self)@, address@) + amount <= u64::MAX,
                forall|j: int| 0 <= j < i ==> self.balances@[j].0@ != address@,
            decreases n - i,
        {
            if str_eq(self.balances[i].0.as_str(), address.as_str()) {
                proof {
                    lemma_entry_value(self.balances@, i as int);
                    lemma_update_effect(self.balances@, i as int, (address, amount));
                }
                self.balances[i] = (address, amount);
                return ;
            }
            i += 1;
        }
        proof {
            lemma_absent_key(self.balances@, address@);
            lemma_push_effect(self.balances@, (address, amount));
        }
        self.balances.push((address, amount));
    }

    /// Applies one transfer: fails with `InsufficientFunds` (leaving the
    /// ledger untouched) when the sender's balance is smaller than the
    /// amount; otherwise debits the sender and credits the recipient by
    /// exactly the amount. The sum of all balances never changes.
    pub fn apply_transaction(&mut self, tx: &Transaction) -> (r: Result<(), TransactionError>)
        requires
            old(self).wf(),
        ensures
            final(self).wf(),
            final(self).total() == old(self).total(),
            bal(old(self)@, tx.sender@) < tx.amount ==> r == Err::<(), TransactionError>(
                TransactionError::InsufficientFunds,
            ) && *final(self) == *old(self),
            bal(old(self)@, tx.sender@) >= tx.amount ==> r == Ok::<(), TransactionError>(())
                && final(self)@ == spec_apply(old(self)@, tx.sender@, tx.recipient@, tx.amount),
            bal(old(self)@, tx.sender@) >= tx.amount && tx.sender@ != tx.recipient@ ==> bal(
                final(self)@,
                tx.sender@,
            ) == bal(old(self)@, tx.sender@) - tx.amount && bal(final(self)@, tx.recipient@) == bal(
                old(self)@,
                tx.recipient@,
            ) + tx.amount,
            bal(old(self)@, tx.sender@) >= tx.amount && tx.sender@ == tx.recipient@ ==> bal(
                final(self)@,
                tx.sender@,
            ) == bal(old(self)@, tx.sender@),
            forall|k: Seq<char>|
                k != tx.sender@ && k != tx.recipient@ ==> bal(final(self)@, k) == bal(
                    old(self)@,
                    k,
                ),
    {
        let sender_balance = self.get_balance(tx.sender.as_str());
        if sender_balance < tx.amount {
            return Err(TransactionError::InsufficientFunds);
        }
        proof {
            lemma_bal_le_total(self.balances@, tx.sender@);
            if tx.sender@ != tx.recipient@ {
                lemma_two_bal_le_total(self.balances@, tx.sender@, tx.recipient@);
            }
        }
        self.set_balance(tx.sender.clone(), sender_balance - tx.amount);
        let recipient_balance = self.get_balance(tx.recipient.as_str());
        self.set_balance(tx.recipient.clone(), recipient_balance + tx.amount);
        Ok(())
    }
}

} // verus!
