//! Delegated proof of stake, rotating variant.
//!
//! Delegates accumulate vote weight; selection ranks them by votes
//! (descending, ties broken by original position) and rotates through the
//! top ten (or all of them, if fewer) with an advancing round counter, so
//! consecutive selections cycle through the top-ranked delegates.

use crate::errors::AppError;
use vstd::arithmetic::div_mod::lemma_mod_multiples_vanish;
use vstd::prelude::*;

verus! {

/// A named, voted-for entity eligible to produce blocks.
#[derive(Debug)]
pub struct Delegate {
    pub id: u64,
    pub name: String,
    pub votes: u64,
}

impl Clone for Delegate {
    fn clone(&self) -> (res: Self)
        ensures
            res == *self,
    {
        Delegate { id: self.id, name: self.name.clone(), votes: self.votes }
    }
}

impl Delegate {
    /// A fresh delegate with no votes yet.
    pub fn new(id: u64, name: &str) -> (d: Delegate)
        ensures
            d.id == id,
            d.name@ == name@,
            d.votes == 0,
    {
        Delegate { id, name: name.to_owned(), votes: 0 }
    }
}

/// Some delegate carries this id.
pub open spec fn has_delegate(dels: Seq<Delegate>, id: u64) -> bool {
    exists|i: int| 0 <= i < dels.len() && dels[i].id == id
}

/// The position of the first delegate carrying this id.
pub open spec fn first_with_id(dels: Seq<Delegate>, id: u64) -> int
    decreases dels.len(),
{
    if dels.len() == 0 {
        0int
    } else if dels[0].id == id {
        0int
    } else {
        1 + first_with_id(dels.drop_first(), id)
    }
}

pub proof fn lemma_first_with_id(dels: Seq<Delegate>, id: u64, i: int)
    requires
        0 <= i < dels.len(),
        dels[i].id == id,
        forall|j: int| 0 <= j < i ==> dels[j].id != id,
    ensures
        has_delegate(dels, id),
        first_with_id(dels, id) == i,
    decreases i,
{
    if i > 0 {
        assert forall|j: int| 0 <= j < i - 1 implies dels.drop_first()[j].id != id by {
            assert(dels.drop_first()[j] == dels[j + 1]);
        }
        assert(dels.drop_first()[i - 1] == dels[i]);
        lemma_first_with_id(dels.drop_first(), id, i - 1);
    }
}

/// `a` is ranked ahead of `b`: strictly more votes, or the same votes and
/// the earlier original position.
pub open spec fn precedes(dels: Seq<Delegate>, a: int, b: int) -> bool {
    dels[a].votes > dels[b].votes || (dels[a].votes == dels[b].votes && a < b)
}

/// Inserts position `i` into an already ranked list of positions, behind
/// every entry ranked ahead of it.
pub open spec fn insert_ranked(r: Seq<usize>, i: usize, dels: Seq<Delegate>) -> Seq<usize>
    decreases r.len(),
{
    if r.len() == 0 {
        seq![i]
    } else if precedes(dels, r[0] as int, i as int) {
        seq![r[0]] + insert_ranked(r.drop_first(), i, dels)
    } else {
        seq![i] + r
    }
}

/// The ranking of the first `n` positions.
pub open spec fn ranking_upto(dels: Seq<Delegate>, n: int) -> Seq<usize>
    decreases n,
{
    if n <= 0 {
        Seq::empty()
    } else {
        insert_ranked(ranking_upto(dels, n - 1), (n - 1) as usize, dels)
    }
}

/// All delegate positions, ranked by votes descending; ties keep the
/// original order.
pub open spec fn ranking(dels: Seq<Delegate>) -> Seq<usize> {
    ranking_upto(dels, dels.len() as int)
}

/// How many of the top-ranked delegates the rotation cycles through.
pub open spec fn top_count(dels: Seq<Delegate>) -> int {
    if dels.len() > 10 {
        10int
    } else {
        dels.len() as int
    }
}

/// The position of the delegate selected at round counter `c`.
pub open spec fn selected_index(dels: Seq<Delegate>, c: int) -> usize {
    ranking(dels)[c % top_count(dels)]
}

proof fn lemma_insert_ranked_split(r: Seq<usize>, i: usize, dels: Seq<Delegate>, j: int)
    requires
        0 <= j <= r.len(),
        forall|k: int| 0 <= k < j ==> precedes(dels, r[k] as int, i as int),
        j < r.len() ==> !precedes(dels, r[j] as int, i as int),
    ensures
        insert_ranked(r, i, dels) == r.take(j) + seq![i] + r.skip(j),
    decreases j,
{
    if j == 0 {
        if r.len() == 0 {
            assert(insert_ranked(r, i, dels) =~= r.take(0) + seq![i] + r.skip(0));
        } else {
            assert(insert_ranked(r, i, dels) =~= r.take(0) + seq![i] + r.skip(0));
        }
    } else {
        assert(precedes(dels, r[0] as int, i as int));
        assert forall|k: int| 0 <= k < j - 1 implies precedes(
            dels,
            r.drop_first()[k] as int,
            i as int,
        ) by {
            assert(r.drop_first()[k] == r[k + 1]);
        }
        if j - 1 < r.drop_first().len() {
            assert(r.drop_first()[j - 1] == r[j]);
        }
        lemma_insert_ranked_split(r.drop_first(), i, dels, j - 1);
        assert(insert_ranked(r, i, dels) =~= r.take(j) + seq![i] + r.skip(j));
    }
}

proof fn lemma_insert_ranked_props(r: Seq<usize>, i: usize, dels: Seq<Delegate>)
    requires
        i < dels.len(),
        forall|k: int| 0 <= k < r.len() ==> (#[trigger] r[k]) < i,
        forall|a: int, b: int| 0 <= a < b < r.len() ==> precedes(dels, r[a] as int, r[b] as int),
    ensures
        insert_ranked(r, i, dels).len() == r.len() + 1,
        insert_ranked(r, i, dels).contains(i),
        forall|x: usize| r.contains(x) ==> #[trigger] insert_ranked(r, i, dels).contains(x),
        forall|k: int|
            0 <= k < r.len() + 1 ==> ((#[trigger] insert_ranked(r, i, dels)[k]) == i || r.contains(
                insert_ranked(r, i, dels)[k],
            )),
        forall|a: int, b: int|
            0 <= a < b < r.len() + 1 ==> precedes(
                dels,
                insert_ranked(r, i, dels)[a] as int,
                insert_ranked(r, i, dels)[b] as int,
            ),
    decreases r.len(),
{
    let res = insert_ranked(r, i, dels);
    if r.len() == 0 {
        assert(res[0] == i);
    } else if precedes(dels, r[0] as int, i as int) {
        let rest = r.drop_first();
        assert forall|k: int| 0 <= k < rest.len() implies (#[trigger] rest[k]) < i by {
            assert(rest[k] == r[k + 1]);
        }
        assert forall|a: int, b: int| 0 <= a < b < rest.len() implies precedes(
            dels,
            rest[a] as int,
            rest[b] as int,
        ) by {
            assert(rest[a] == r[a + 1]);
            assert(rest[b] == r[b + 1]);
        }
        lemma_insert_ranked_props(rest, i, dels);
        let rr = insert_ranked(rest, i, dels);
        assert(res =~= seq![r[0]] + rr);
        assert(res.contains(i)) by {
            let w = choose|w: int| 0 <= w < rr.len() && rr[w] == i;
            assert(res[w + 1] == i);
        }
        assert forall|x: usize| r.contains(x) implies #[trigger] res.contains(x) by {
            let w = choose|w: int| 0 <= w < r.len() && r[w] == x;
            if w == 0 {
                assert(res[0] == x);
            } else {
                assert(rest[w - 1] == x);
                assert(rest.contains(x));
                assert(rr.contains(x));
                let v = choose|v: int| 0 <= v < rr.len() && rr[v] == x;
                assert(res[v + 1] == x);
            }
        }
        assert forall|k: int| 0 <= k < res.len() implies ((#[trigger] res[k]) == i || r.contains(
            res[k],
        )) by {
            if k == 0 {
                assert(r[0] == res[0]);
            } else {
                assert(res[k] == rr[k - 1]);
                if res[k] != i {
                    assert(rest.contains(rr[k - 1]));
                    let v = choose|v: int| 0 <= v < rest.len() && rest[v] == rr[k - 1];
                    assert(r[v + 1] == rr[k - 1]);
                }
            }
        }
        assert forall|a: int, b: int| 0 <= a < b < res.len() implies precedes(
            dels,
            res[a] as int,
            res[b] as int,
        ) by {
            if a == 0 {
                let x = res[b];
                assert(x == rr[b - 1]);
                if x == i {
                    assert(precedes(dels, r[0] as int, i as int));
                } else {
                    assert(rest.contains(x));
                    let v = choose|v: int| 0 <= v < rest.len() && rest[v] == x;
                    assert(r[v + 1] == x);
                    assert(precedes(dels, r[0] as int, r[v + 1] as int));
                }
            } else {
                assert(res[a] == rr[a - 1]);
                assert(res[b] == rr[b - 1]);
            }
        }
    } else {
        assert(res =~= seq![i] + r);
        assert(dels[r[0] as int].votes < dels[i as int].votes);
        assert(res[0] == i);
        assert forall|x: usize| r.contains(x) implies #[trigger] res.contains(x) by {
            let w = choose|w: int| 0 <= w < r.len() && r[w] == x;
            assert(res[w + 1] == x);
        }
        assert forall|a: int, b: int| 0 <= a < b < res.len() implies precedes(
            dels,
            res[a] as int,
            res[b] as int,
        ) by {
            if a == 0 {
                let x = res[b];
                assert(x == r[b - 1]);
                if b - 1 > 0 {
                    assert(precedes(dels, r[0] as int, r[b - 1] as int));
                }
                assert(dels[x as int].votes <= dels[r[0] as int].votes);
            } else {
                assert(res[a] == r[a - 1]);
                assert(res[b] == r[b - 1]);
            }
        }
    }
}

proof fn lemma_ranking_upto_props(dels: Seq<Delegate>, n: int)
    requires
        0 <= n <= dels.len(),
        dels.len() <= usize::MAX,
    ensures
        ranking_upto(dels, n).len() == n,
        forall|k: int| 0 <= k < n ==> (#[trigger] ranking_upto(dels, n)[k]) < n,
        forall|a: int, b: int|
            0 <= a < b < n ==> precedes(
                dels,
                ranking_upto(dels, n)[a] as int,
                ranking_upto(dels, n)[b] as int,
            ),
        forall|p: usize| p < n ==> #[trigger] ranking_upto(dels, n).contains(p),
    decreases n,
{
    if n > 0 {
        lemma_ranking_upto_props(dels, n - 1);
        let prev = ranking_upto(dels, n - 1);
        let res = ranking_upto(dels, n);
        lemma_insert_ranked_props(prev, (n - 1) as usize, dels);
        assert forall|k: int| 0 <= k < n implies (#[trigger] res[k]) < n by {
            if res[k] != (n - 1) as usize {
                assert(prev.contains(res[k]));
                let v = choose|v: int| 0 <= v < prev.len() && prev[v] == res[k];
                assert(prev[v] < n - 1);
            }
        }
        assert forall|p: usize| p < n implies #[trigger] res.contains(p) by {
            if p < n - 1 {
                assert(prev.contains(p));
            }
        }
    }
}

/// The ranking is a strict ordering of all delegate positions: it lists
/// every position exactly once, votes descending, ties keeping the
/// original order.
pub proof fn lemma_ranking_ensures(dels: Seq<Delegate>)
    requires
        dels.len() <= usize::MAX,
    ensures
        ranking(dels).len() == dels.len(),
        forall|k: int| 0 <= k < dels.len() ==> (#[trigger] ranking(dels)[k]) < dels.len(),
        forall|a: int, b: int|
            0 <= a < b < dels.len() ==> precedes(
                dels,
                ranking(dels)[a] as int,
                ranking(dels)[b] as int,
            ),
        forall|p: usize| p < dels.len() ==> #[trigger] ranking(dels).contains(p),
{
    lemma_ranking_upto_props(dels, dels.len() as int);
}

/// The rotation is periodic: with the delegate list fixed, round counters
/// that differ by a multiple of the top-set size select the same delegate,
/// so `k` consecutive selections over a top set of size `m` cycle through
/// it with period `m`.
pub proof fn lemma_selection_periodic(dels: Seq<Delegate>, c: int, k: nat)
    requires
        dels.len() > 0,
        c >= 0,
    ensures
        selected_index(dels, c + k * top_count(dels)) == selected_index(dels, c),
{
    let m = top_count(dels);
    lemma_mod_multiples_vanish(k as int, c, m);
    assert(m * (k as int) + c == c + k * m) by (nonlinear_arith);
}

/// The delegate registry of the rotating strategy, with its advancing
/// round counter.
pub struct DPoS {
    pub delegates: Vec<Delegate>,
    /// The round counter driving the rotation; advanced only by
    /// [`DPoS::select_delegate`].
    pub current_delegate_index: usize,
}

impl DPoS {
    /// A registry over the given delegates, starting at round 0.
    pub fn new(delegates: Vec<Delegate>) -> (d: DPoS)
        ensures
            d.delegates == delegates,
            d.current_delegate_index == 0,
    {
        DPoS { delegates, current_delegate_index: 0 }
    }

    /// Adds `votes` to the first delegate carrying `delegate_id`, leaving
    /// every other delegate untouched; fails with `DelegateNotFound` when
    /// no delegate carries the id.
    pub fn vote(&mut self, delegate_id: u64, votes: u64) -> (r: Result<(), AppError>)
        requires
            has_delegate(old(self).delegates@, delegate_id) ==> old(self).delegates@[first_with_id(
                old(self).delegates@,
                delegate_id,
            )].votes + votes <= u64::MAX,
        ensures
            final(self).current_delegate_index == old(self).current_delegate_index,
            !has_delegate(old(self).delegates@, delegate_id) ==> r == Err::<(), AppError>(
                AppError::DelegateNotFound(delegate_id),
            ) && *final(self) == *old(self),
            has_delegate(old(self).delegates@, delegate_id) ==> {
                let fi = first_with_id(old(self).delegates@, delegate_id);
                &&& r == Ok::<(), AppError>(())
                &&& final(self).delegates@.len() == old(self).delegates@.len()
                &&& final(self).delegates@[fi].id == delegate_id
                &&& final(self).delegates@[fi].name == old(self).delegates@[fi].name
                &&& final(self).delegates@[fi].votes == old(self).delegates@[fi].votes + votes
                &&& forall|j: int|
                    0 <= j < old(self).delegates@.len() && j != fi ==> final(self).delegates@[j]
                        == old(self).delegates@[j]
            },
    {
        let n = self.delegates.len();
        for i in 0..n
            invariant
                n == self.delegates.len(),
                *self == *old(self),
                forall|j: int| 0 <= j < i ==> self.delegates@[j].id != delegate_id,
                has_delegate(old(self).delegates@, delegate_id) ==> old(
                    self,
                ).delegates@[first_with_id(old(self).delegates@, delegate_id)].votes + votes
                    <= u64::MAX,
        {
            if self.delegates[i].id == delegate_id {
                proof {
                    lemma_first_with_id(self.delegates@, delegate_id, i as int);
                }
                let name = self.delegates[i].name.clone();
                let old_votes = self.delegates[i].votes;
                self.delegates[i] = Delegate {
                    id: delegate_id,
                    name,
                    votes: old_votes + votes,
                };
                return Ok(());
            }
        }
        Err(AppError::DelegateNotFound(delegate_id))
    }

    /// Ranks the delegates by votes (descending, ties keeping the original
    /// order), takes the top ten (or all, if fewer) and returns the one the
    /// round counter points at, advancing the counter by one — so
    /// consecutive calls rotate through the top-ranked delegates. Fails
    /// with `NoDelegates` on an empty registry, leaving the counter alone.
    pub fn select_delegate(&mut self) -> (r: Result<&Delegate, AppError>)
        ensures
            final(self).delegates == old(self).delegates,
            old(self).delegates@.len() == 0 ==> r == Err::<&Delegate, AppError>(
                AppError::NoDelegates,
            ) && *final(self) == *old(self),
            old(self).delegates@.len() > 0 ==> {
                &&& final(self).current_delegate_index == (if old(
                    self,
                ).current_delegate_index == usize::MAX {
                    0usize
                } else {
                    (old(self).current_delegate_index + 1) as usize
                })
                &&& r is Ok
                &&& (r matches Ok(d) ==> *d == old(self).delegates@[selected_index(
                    old(self).delegates@,
                    old(self).current_delegate_index as int,
                ) as int])
            },
    {
        let n = self.delegates.len();
        if n == 0 {
            return Err(AppError::NoDelegates);
        }
        let mut order: Vec<usize> = Vec::new();
        for i in 0..n
            invariant
                n == self.delegates.len(),
                *self == *old(self),
                order@ == ranking_upto(self.delegates@, i as int),
                order@.len() == i,
                forall|k: int| 0 <= k < order@.len() ==> order@[k] < i,
        {
            let vi = self.delegates[i].votes;
            let mut j: usize = 0;
            while j < order.len() && self.delegates[order[j]].votes >= vi
                invariant
                    n == self.delegates.len(),
                    *self == *old(self),
                    i < n,
                    vi == self.delegates@[i as int].votes,
                    order@ == ranking_upto(self.delegates@, i as int),
                    order@.len() == i,
                    forall|k: int| 0 <= k < order@.len() ==> order@[k] < i,
                    0 <= j <= order@.len(),
                    forall|k: int|
                        0 <= k < j ==> precedes(self.delegates@, order@[k] as int, i as int),
                decreases order@.len() - j,
            {
                j += 1;
            }
            proof {
                lemma_insert_ranked_split(order@, i, self.delegates@, j as int);
            }
            order.insert(j, i);
            proof {
                assert(order@ =~= insert_ranked(
                    ranking_upto(self.delegates@, i as int),
                    i,
                    self.delegates@,
                ));
                assert(order@ == ranking_upto(self.delegates@, i + 1));
            }
        }
        let m: usize = if n > 10 {
            10
        } else {
            n
        };
        proof {
            assert(order@ == ranking(self.delegates@));
            assert(m as int == top_count(self.delegates@));
        }
        let idx: usize = self.current_delegate_index % m;
        let sel: usize = order[idx];
        self.current_delegate_index = if self.current_delegate_index == usize::MAX {
            0
        } else {
            self.current_delegate_index + 1
        };
        Ok(&self.delegates[sel])
    }
}

} // verus!
