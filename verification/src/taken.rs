//! The checkout ledger: the single active checkout, availability
//! computation, random selection of the next checkout, and the round
//! countdown.

use vstd::prelude::*;

use crate::interface::{Item, ModelError, TakenItem};
use crate::rng::rand_below;
use crate::store::{spec_item_exists, spec_valid_item, Store};

verus! {

/// How many checkout rows, done or not, reference this item: each one
/// permanently consumed one unit of the item's quantity.
pub open spec fn spec_count_takens(ts: Seq<TakenItem>, item_id: i32) -> nat
    decreases ts.len(),
{
    if ts.len() == 0 {
        0
    } else {
        spec_count_takens(ts.drop_last(), item_id) + if ts.last().item_id == item_id {
            1nat
        } else {
            0nat
        }
    }
}

/// An item can still be checked out: it has unlimited supply, or fewer
/// checkouts than its quantity have ever been created for it.
pub open spec fn spec_available(it: Item, ts: Seq<TakenItem>) -> bool {
    it.infinite || spec_count_takens(ts, it.id) < it.quantity
}

/// Some catalog item can still be checked out.
pub open spec fn spec_any_available(items: Seq<Item>, ts: Seq<TakenItem>) -> bool {
    exists|k: int| 0 <= k < items.len() && spec_available(#[trigger] items[k], ts)
}

/// A checkout is active (not done).
pub open spec fn spec_has_current(ts: Seq<TakenItem>) -> bool {
    exists|i: int| 0 <= i < ts.len() && !(#[trigger] ts[i]).done
}

/// The position of the active checkout, where one exists. With the
/// singleton invariant it is unique.
pub open spec fn spec_current_index(ts: Seq<TakenItem>) -> int {
    choose|i: int| 0 <= i < ts.len() && !(#[trigger] ts[i]).done
}

/// The active checkout, if any.
pub open spec fn spec_current(ts: Seq<TakenItem>) -> Option<TakenItem> {
    if spec_has_current(ts) {
        Some(ts[spec_current_index(ts)])
    } else {
        None
    }
}

/// The active checkout after one round is consumed: the countdown drops
/// by one and the row becomes done exactly when the countdown is spent.
pub open spec fn spec_decremented(c: TakenItem, now: i64) -> TakenItem {
    TakenItem {
        rounds_left: (c.rounds_left - 1) as i16,
        done: c.rounds_left - 1 <= 0,
        updated_at: now,
        ..c
    }
}

/// The active checkout after being forced done: the countdown is left
/// as it stands.
pub open spec fn spec_marked_done(c: TakenItem, now: i64) -> TakenItem {
    TakenItem { done: true, updated_at: now, ..c }
}

impl Store {
    /// Returns the single active checkout, or `None` while none is active.
    pub fn get_current(&self) -> (r: Option<TakenItem>)
        requires
            self.wf(),
        ensures
            r == spec_current(self.takens@),
    {
        let n = self.takens.len();
        let mut i: usize = 0;
        while i < n
            invariant
                self.wf(),
                i <= n,
                n == self.takens@.len(),
                forall|k: int| 0 <= k < i ==> (#[trigger] self.takens@[k]).done,
            decreases n - i,
        {
            if !self.takens[i].done {
                proof {
                    let w = spec_current_index(self.takens@);
                    assert(spec_has_current(self.takens@));
                    assert(!self.takens@[w].done);
                }
                return Some(self.takens[i]);
            }
            i = i + 1;
        }
        None
    }

    /// How many checkout rows reference the item carrying `item_id`.
    fn count_takens_for(&self, item_id: i32) -> (c: usize)
        ensures
            c == spec_count_takens(self.takens@, item_id),
    {
        let n = self.takens.len();
        let mut c: usize = 0;
        let mut i: usize = 0;
        while i < n
            invariant
                i <= n,
                c <= i,
                n == self.takens@.len(),
                c == spec_count_takens(self.takens@.take(i as int), item_id),
            decreases n - i,
        {
            proof {
                let pre = self.takens@.take(i as int + 1);
                assert(pre.drop_last() == self.takens@.take(i as int));
                assert(pre.last() == self.takens@[i as int]);
            }
            if self.takens[i].item_id == item_id {
                c = c + 1;
            }
            i = i + 1;
        }
        proof {
            assert(self.takens@.take(n as int) == self.takens@);
        }
        c
    }

    /// Consumes one round of the active checkout: the countdown drops by
    /// one and the checkout becomes done exactly when it reaches zero.
    /// With no active checkout this is a no-op returning `None`.
    pub fn decrement_rounds(&mut self, now: i64) -> (r: Option<TakenItem>)
        requires
            old(self).wf(),
        ensures
            final(self).wf(),
            !spec_has_current(old(self).takens@) ==> r is None && *final(self) == *old(self),
            spec_has_current(old(self).takens@) ==> {
                let i = spec_current_index(old(self).takens@);
                let u = spec_decremented(old(self).takens@[i], now);
                &&& r == Some(u)
                &&& final(self).takens@ == old(self).takens@.update(i, u)
                &&& final(self).items@ == old(self).items@
                &&& final(self).next_item_id == old(self).next_item_id
                &&& final(self).next_taken_id == old(self).next_taken_id
            },
    {
        let n = self.takens.len();
        let mut i: usize = 0;
        while i < n
            invariant
                old(self) == self,
                self.wf(),
                i <= n,
                n == self.takens@.len(),
                forall|k: int| 0 <= k < i ==> (#[trigger] self.takens@[k]).done,
            decreases n - i,
        {
            if !self.takens[i].done {
                let c = self.takens[i];
                proof {
                    let w = spec_current_index(self.takens@);
                    assert(spec_has_current(self.takens@));
                    assert(!self.takens@[w].done);
                    assert(w == i as int);
                }
                let new_rounds = c.rounds_left - 1;
                let u = TakenItem {
                    rounds_left: new_rounds,
                    done: new_rounds <= 0,
                    updated_at: now,
                    ..c
                };
                self.takens.set(i, u);
                proof {
                    let pre = old(self).takens@;
                    let post = self.takens@;
                    assert(forall|k: int| 0 <= k < post.len() && k != i as int ==> post[k] == pre[k]);
                    assert forall|k: int| 0 <= k < post.len() implies spec_item_exists(
                        self.items@,
                        (#[trigger] post[k]).item_id,
                    ) by {
                        assert(post[k].item_id == pre[k].item_id);
                    }
                }
                return Some(u);
            }
            i = i + 1;
        }
        None
    }

    /// Forces the active checkout done, leaving its countdown as it
    /// stands. With no active checkout this is a no-op.
    pub fn mark_done(&mut self, now: i64)
        requires
            old(self).wf(),
        ensures
            final(self).wf(),
            !spec_has_current(old(self).takens@) ==> *final(self) == *old(self),
            spec_has_current(old(self).takens@) ==> {
                let i = spec_current_index(old(self).takens@);
                let u = spec_marked_done(old(self).takens@[i], now);
                &&& final(self).takens@ == old(self).takens@.update(i, u)
                &&& final(self).items@ == old(self).items@
                &&& final(self).next_item_id == old(self).next_item_id
                &&& final(self).next_taken_id == old(self).next_taken_id
            },
    {
        let n = self.takens.len();
        let mut i: usize = 0;
        while i < n
            invariant
                old(self) == self,
                self.wf(),
                i <= n,
                n == self.takens@.len(),
                forall|k: int| 0 <= k < i ==> (#[trigger] self.takens@[k]).done,
            decreases n - i,
        {
            if !self.takens[i].done {
                let c = self.takens[i];
                proof {
                    let w = spec_current_index(self.takens@);
                    assert(spec_has_current(self.takens@));
                    assert(!self.takens@[w].done);
                    assert(w == i as int);
                }
                let u = TakenItem { done: true, updated_at: now, ..c };
                self.takens.set(i, u);
                proof {
                    let pre = old(self).takens@;
                    let post = self.takens@;
                    assert(forall|k: int| 0 <= k < post.len() && k != i as int ==> post[k] == pre[k]);
                    assert forall|k: int| 0 <= k < post.len() implies spec_item_exists(
                        self.items@,
                        (#[trigger] post[k]).item_id,
                    ) by {
                        assert(post[k].item_id == pre[k].item_id);
                    }
                }
                return ;
            }
            i = i + 1;
        }
    }

    /// Returns the active checkout unchanged if one exists (repeated calls
    /// are idempotent while a checkout is active). Otherwise selects,
    /// uniformly at random, one item that is still available, draws a
    /// round total from one to six, and records a fresh active checkout of
    /// that item stamped with `now`. Fails with `NoItemsAvailable`,
    /// changing nothing, when no item has any remaining supply.
    pub fn get_random(&mut self, now: i64) -> (r: Result<TakenItem, ModelError>)
        requires
            old(self).wf(),
            old(self).next_taken_id < i32::MAX,
        ensures
            final(self).wf(),
            spec_has_current(old(self).takens@) ==> {
                &&& r == Ok::<TakenItem, ModelError>(
                    old(self).takens@[spec_current_index(old(self).takens@)],
                )
                &&& *final(self) == *old(self)
            },
            !spec_has_current(old(self).takens@) && !spec_any_available(
                old(self).items@,
                old(self).takens@,
            ) ==> {
                &&& r == Err::<TakenItem, ModelError>(ModelError::NoItemsAvailable)
                &&& *final(self) == *old(self)
            },
            !spec_has_current(old(self).takens@) && spec_any_available(
                old(self).items@,
                old(self).takens@,
            ) ==> {
                let t = r->Ok_0;
                &&& r is Ok
                &&& t.id == old(self).next_taken_id
                &&& !t.done
                &&& 1 <= t.rounds_total <= 6
                &&& t.rounds_left == t.rounds_total
                &&& t.created_at == now
                &&& t.updated_at == now
                &&& exists|k: int|
                    0 <= k < old(self).items@.len() && (#[trigger] old(self).items@[k]).id
                        == t.item_id && spec_available(old(self).items@[k], old(self).takens@)
                &&& final(self).takens@ == old(self).takens@.push(t)
                &&& spec_current(final(self).takens@) == Some(t)
                &&& final(self).items@ == old(self).items@
                &&& final(self).next_item_id == old(self).next_item_id
                &&& final(self).next_taken_id == old(self).next_taken_id + 1
            },
    {
        if let Some(c) = self.get_current() {
            return Ok(c);
        }
        let n = self.items.len();
        let mut avail: Vec<usize> = Vec::new();
        let mut i: usize = 0;
        while i < n
            invariant
                old(self) == self,
                self.wf(),
                i <= n,
                n == self.items@.len(),
                forall|k: int| 0 <= k < avail@.len() ==> (#[trigger] avail@[k]) < i,
                forall|k: int|
                    0 <= k < avail@.len() ==> spec_available(
                        self.items@[#[trigger] avail@[k] as int],
                        self.takens@,
                    ),
                forall|j: int|
                    0 <= j < i && spec_available(#[trigger] self.items@[j], self.takens@)
                        ==> exists|k: int| 0 <= k < avail@.len() && #[trigger] avail@[k] == j,
            decreases n - i,
        {
            let available = if self.items[i].infinite {
                true
            } else {
                let cnt = self.count_takens_for(self.items[i].id);
                cnt < (self.items[i].quantity as usize)
            };
            proof {
                assert(spec_valid_item(self.items@[i as int]));
                assert(available == spec_available(self.items@[i as int], self.takens@));
            }
            let ghost prev = avail@;
            if available {
                avail.push(i);
            }
            i = i + 1;
            proof {
                assert forall|j: int|
                    0 <= j < i && spec_available(
                        #[trigger] self.items@[j],
                        self.takens@,
                    ) implies exists|k: int|
                    0 <= k < avail@.len() && #[trigger] avail@[k] == j by {
                    if j == i - 1 {
                        assert(avail@ == prev.push((i - 1) as usize));
                        assert(avail@[avail@.len() - 1] == j);
                    } else {
                        let k = choose|k: int| 0 <= k < prev.len() && #[trigger] prev[k] == j;
                        assert(avail@[k] == j);
                    }
                }
            }
        }
        if avail.len() == 0 {
            return Err(ModelError::NoItemsAvailable);
        }
        let off64 = rand_below(avail.len() as u64);
        let off = off64 as usize;
        let chosen = avail[off];
        let item_id = self.items[chosen].id;
        let rounds = (rand_below(6) + 1) as i16;
        let t = TakenItem {
            created_at: now,
            updated_at: now,
            id: self.next_taken_id,
            item_id,
            rounds_left: rounds,
            done: false,
            rounds_total: rounds,
        };
        self.takens.push(t);
        self.next_taken_id = self.next_taken_id + 1;
        proof {
            let pre = old(self).takens@;
            let post = self.takens@;
            assert(forall|k: int| 0 <= k < pre.len() ==> post[k] == pre[k]);
            assert(post[post.len() - 1] == t);
            assert(!spec_has_current(pre));
            assert(forall|k: int| 0 <= k < pre.len() ==> (#[trigger] pre[k]).done);
            assert(spec_current_index(post) == post.len() - 1);
            assert forall|k: int| 0 <= k < post.len() implies spec_item_exists(
                self.items@,
                (#[trigger] post[k]).item_id,
            ) by {
                if k < post.len() - 1 {
                    assert(spec_item_exists(self.items@, pre[k].item_id));
                } else {
                    assert(self.items@[chosen as int].id == t.item_id);
                }
            }
        }
        Ok(t)
    }
}

} // verus!
