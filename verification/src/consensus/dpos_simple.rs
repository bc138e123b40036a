//! Delegated proof of stake, simple variant: selection always returns the
//! first delegate holding the maximum vote count, without any rotation.

use crate::consensus::dpos::{first_with_id, has_delegate, Delegate};
use crate::errors::AppError;
use vstd::prelude::*;

verus! {

/// The position of the first delegate holding the maximum vote count.
pub open spec fn argmax(dels: Seq<Delegate>) -> int
    decreases dels.len(),
{
    if dels.len() <= 1 {
        0int
    } else {
        let r = argmax(dels.drop_last());
        if dels.last().votes > dels[r].votes {
            dels.len() - 1
        } else {
            r
        }
    }
}

/// What `argmax` points at: a maximal vote count, and strictly above every
/// earlier delegate's count.
pub proof fn lemma_argmax(dels: Seq<Delegate>)
    requires
        dels.len() > 0,
    ensures
        0 <= argmax(dels) < dels.len(),
        forall|i: int| 0 <= i < dels.len() ==> (#[trigger] dels[i].votes) <= dels[argmax(
            dels,
        )].votes,
        forall|i: int| 0 <= i < argmax(dels) ==> (#[trigger] dels[i].votes) < dels[argmax(
            dels,
        )].votes,
    decreases dels.len(),
{
    if dels.len() > 1 {
        lemma_argmax(dels.drop_last());
        assert forall|i: int| 0 <= i < dels.len() - 1 implies dels.drop_last()[i] == dels[i] by {}
    }
}

/// The delegate registry of the simple strategy.
pub struct DPoS {
    pub delegates: Vec<Delegate>,
}

impl DPoS {
    /// A registry over the given delegates.
    pub fn new(delegates: Vec<Delegate>) -> (d: DPoS)
        ensures
            d.delegates == delegates,
    {
        DPoS { delegates }
    }

    /// Adds `votes` to the first delegate carrying `delegate_id`, leaving
    /// every other delegate untouched; fails with `DelegateNotFound` when
    /// no delegate carries the id.
    pub fn vote(&mut self, delegate_id: u64, votes: u64) -> (r: Result<(), AppError>)
        requires
            has_delegate(old(self).delegates@, delegate_id) ==> old(self).delegates@[first_with_id(
                old(self).delegates@,
                delegate_id,
            )].votes + votes <= u64::MAX,
        ensures
            !has_delegate(old(self).delegates@, delegate_id) ==> r == Err::<(), AppError>(
                AppError::DelegateNotFound(delegate_id),
            ) && *final(self) == *old(self),
            has_delegate(old(self).delegates@, delegate_id) ==> {
                let fi = first_with_id(old(self).delegates@, delegate_id);
                &&& r == Ok::<(), AppError>(())
                &&& final(self).delegates@.len() == old(self).delegates@.len()
                &&& final(self).delegates@[fi].id == delegate_id
                &&& final(self).delegates@[fi].name == old(self).delegates@[fi].name
                &&& final(self).delegates@[fi].votes == old(self).delegates@[fi].votes + votes
                &&& forall|j: int|
                    0 <= j < old(self).delegates@.len() && j != fi ==> final(self).delegates@[j]
                        == old(self).delegates@[j]
            },
    {
        let n = self.delegates.len();
        for i in 0..n
            invariant
                n == self.delegates.len(),
                *self == *old(self),
                forall|j: int| 0 <= j < i ==> self.delegates@[j].id != delegate_id,
                has_delegate(old(self).delegates@, delegate_id) ==> old(
                    self,
                ).delegates@[first_with_id(old(self).delegates@, delegate_id)].votes + votes
                    <= u64::MAX,
        {
            if self.delegates[i].id == delegate_id {
                proof {
                    crate::consensus::dpos::lemma_first_with_id(
                        self.delegates@,
                        delegate_id,
                        i as int,
                    );
                }
                let name = self.delegates[i].name.clone();
                let old_votes = self.delegates[i].votes;
                self.delegates[i] = Delegate {
                    id: delegate_id,
                    name,
                    votes: old_votes + votes,
                };
                return Ok(());
            }
        }
        Err(AppError::DelegateNotFound(delegate_id))
    }

    /// Returns the first delegate holding the maximum vote count, or
    /// nothing when the registry is empty. Never mutates the registry.
    pub fn select_delegate(&mut self) -> (r: Option<&Delegate>)
        ensures
            *final(self) == *old(self),
            old(self).delegates@.len() == 0 ==> r is None,
            old(self).delegates@.len() > 0 ==> r is Some,
            r matches Some(d) ==> *d == old(self).delegates@[argmax(old(self).delegates@)],
    {
        let n = self.delegates.len();
        if n == 0 {
            return None;
        }
        let mut best: usize = 0;
        for i in 1..n
            invariant
                n == self.delegates.len(),
                *self == *old(self),
                1 <= i <= n,
                0 <= best < i,
                best as int == argmax(self.delegates@.take(i as int)),
        {
            proof {
                assert(self.delegates@.take(i + 1).drop_last() =~= self.delegates@.take(i as int));
                assert(self.delegates@.take(i + 1).last() == self.delegates@[i as int]);
            }
            if self.delegates[i].votes > self.delegates[best].votes {
                best = i;
            }
        }
        proof {
            assert(self.delegates@.take(n as int) =~= self.delegates@);
        }
        Some(&self.delegates[best])
    }
}

} // verus!
