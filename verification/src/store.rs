//! The durable state: the catalog of items and the ledger of checkouts,
//! with the well-formedness invariant every operation preserves, and the
//! item create/read/update/delete operations.

use vstd::prelude::*;

use crate::interface::{
    copy_item, spec_new_item, spec_updated_item, spec_valid_request, spec_validation_error,
    validate_request, CreateUpdateItem, Item, ModelError, TakenItem,
};

verus! {

/// An item row is internally consistent: it satisfies the validation
/// rules enforced on every write.
pub open spec fn spec_valid_item(it: Item) -> bool {
    it.name@.len() >= 1 && it.quantity >= 1
}

/// A checkout row is internally consistent: its round total was drawn
/// from one to six, its countdown sits between zero and the total, and
/// an active (not done) checkout always has at least one round left.
pub open spec fn spec_valid_taken(t: TakenItem) -> bool {
    &&& 1 <= t.rounds_total <= 6
    &&& 0 <= t.rounds_left <= t.rounds_total
    &&& !t.done ==> t.rounds_left >= 1
}

/// At most one checkout row is active (not done) at any time: the
/// singleton "current checkout" invariant.
pub open spec fn spec_at_most_one_active(ts: Seq<TakenItem>) -> bool {
    forall|i: int, j: int|
        0 <= i < ts.len() && 0 <= j < ts.len() && !ts[i].done && !ts[j].done ==> i == j
}

/// Some item in the catalog carries this id.
pub open spec fn spec_item_exists(items: Seq<Item>, id: i32) -> bool {
    exists|k: int| 0 <= k < items.len() && items[k].id == id
}

/// The item rows carry strictly increasing ids below the next free id,
/// and every row passes validation.
pub open spec fn spec_wf_items(items: Seq<Item>, next_id: i32) -> bool {
    &&& forall|i: int| 0 <= i < items.len() ==> 1 <= (#[trigger] items[i]).id < next_id
    &&& forall|i: int, j: int| 0 <= i < j < items.len() ==> items[i].id < items[j].id
    &&& forall|i: int| 0 <= i < items.len() ==> spec_valid_item(#[trigger] items[i])
}

/// The checkout rows carry strictly increasing ids below the next free
/// id, are internally consistent, reference existing items, and contain
/// at most one active row.
pub open spec fn spec_wf_takens(ts: Seq<TakenItem>, next_id: i32, items: Seq<Item>) -> bool {
    &&& forall|i: int| 0 <= i < ts.len() ==> 1 <= (#[trigger] ts[i]).id < next_id
    &&& forall|i: int, j: int| 0 <= i < j < ts.len() ==> ts[i].id < ts[j].id
    &&& forall|i: int| 0 <= i < ts.len() ==> spec_valid_taken(#[trigger] ts[i])
    &&& forall|i: int| 0 <= i < ts.len() ==> spec_item_exists(items, (#[trigger] ts[i]).item_id)
    &&& spec_at_most_one_active(ts)
}

/// The shared pool: the catalog and the checkout ledger, backed by one
/// transactional store. A `&mut` operation on it models one transaction;
/// exclusive access stands in for the row locking the store provides.
pub struct Store {
    pub items: Vec<Item>,
    pub takens: Vec<TakenItem>,
    pub next_item_id: i32,
    pub next_taken_id: i32,
}

/// The first item carrying `id`, scanning the catalog in storage order.
/// With well-formed state, ids are unique, so this is the row itself.
pub open spec fn spec_find_item(items: Seq<Item>, id: i32) -> Option<Item>
    decreases items.len(),
{
    if items.len() == 0 {
        None
    } else if items[0].id == id {
        Some(items[0])
    } else {
        spec_find_item(items.skip(1), id)
    }
}

/// The position of the item carrying `id`, where one exists.
pub open spec fn spec_find_index(items: Seq<Item>, id: i32) -> int {
    choose|k: int| 0 <= k < items.len() && items[k].id == id
}

/// If no row carries `id`, the scan finds nothing.
pub proof fn lemma_find_item_none(items: Seq<Item>, id: i32)
    requires
        forall|k: int| 0 <= k < items.len() ==> (#[trigger] items[k]).id != id,
    ensures
        spec_find_item(items, id) is None,
    decreases items.len(),
{
    if items.len() > 0 {
        assert(forall|k: int|
            0 <= k < items.skip(1).len() ==> (#[trigger] items.skip(1)[k]).id != id) by {
            assert(forall|k: int|
                0 <= k < items.skip(1).len() ==> items.skip(1)[k] == items[k + 1]);
        }
        lemma_find_item_none(items.skip(1), id);
    }
}

/// If position `i` carries `id` and no earlier position does, the scan
/// finds the row at `i`.
pub proof fn lemma_find_item_at(items: Seq<Item>, id: i32, i: int)
    requires
        0 <= i < items.len(),
        items[i].id == id,
        forall|k: int| 0 <= k < i ==> (#[trigger] items[k]).id != id,
    ensures
        spec_find_item(items, id) == Some(items[i]),
    decreases i,
{
    if i > 0 {
        assert(forall|k: int|
            0 <= k < items.skip(1).len() ==> items.skip(1)[k] == items[k + 1]);
        lemma_find_item_at(items.skip(1), id, i - 1);
    }
}

/// The checkout rows that survive deleting the item carrying `id`:
/// every row in storage order whose `item_id` is another item's.
pub open spec fn spec_takens_without(ts: Seq<TakenItem>, id: i32) -> Seq<TakenItem>
    decreases ts.len(),
{
    if ts.len() == 0 {
        Seq::empty()
    } else {
        let rest = spec_takens_without(ts.drop_last(), id);
        if ts.last().item_id == id {
            rest
        } else {
            rest.push(ts.last())
        }
    }
}

/// The surviving rows reference other items only, each survivor stands in
/// the original ledger, and the storage order (strictly increasing ids)
/// is kept.
pub proof fn lemma_takens_without(ts: Seq<TakenItem>, id: i32)
    ensures
        forall|j: int|
            0 <= j < spec_takens_without(ts, id).len() ==> (#[trigger] spec_takens_without(
                ts,
                id,
            )[j]).item_id != id,
        forall|j: int|
            0 <= j < spec_takens_without(ts, id).len() ==> ts.contains(
                #[trigger] spec_takens_without(ts, id)[j],
            ),
        (forall|i: int, j: int| 0 <= i < j < ts.len() ==> ts[i].id < ts[j].id) ==> forall|
            i: int,
            j: int,
        |
            0 <= i < j < spec_takens_without(ts, id).len() ==> (#[trigger] spec_takens_without(
                ts,
                id,
            )[i]).id < (#[trigger] spec_takens_without(ts, id)[j]).id,
    decreases ts.len(),
{
    if ts.len() > 0 {
        let dl = ts.drop_last();
        lemma_takens_without(dl, id);
        let rest = spec_takens_without(dl, id);
        let res = spec_takens_without(ts, id);
        assert(forall|p: int| 0 <= p < dl.len() ==> dl[p] == ts[p]);
        if ts.last().item_id != id {
            assert(res == rest.push(ts.last()));
            if forall|i: int, j: int| 0 <= i < j < ts.len() ==> ts[i].id < ts[j].id {
                assert forall|i: int, j: int|
                    0 <= i < j < res.len() implies res[i].id < res[j].id by {
                    if j < res.len() - 1 {
                        assert(res[i] == rest[i] && res[j] == rest[j]);
                    } else {
                        assert(res[j] == ts.last());
                        assert(res[i] == rest[i]);
                        let p = choose|p: int| 0 <= p < dl.len() && dl[p] == rest[i];
                        assert(ts[p].id < ts.last().id);
                    }
                }
            }
        }
    }
}

impl Store {
    /// Everything the operations below rely on and re-establish.
    pub open spec fn wf(&self) -> bool {
        &&& 1 <= self.next_item_id
        &&& 1 <= self.next_taken_id
        &&& spec_wf_items(self.items@, self.next_item_id)
        &&& spec_wf_takens(self.takens@, self.next_taken_id, self.items@)
    }

    /// An empty pool: no items, no checkout history.
    pub fn new() -> (r: Store)
        ensures
            r.wf(),
            r.items@.len() == 0,
            r.takens@.len() == 0,
            r.next_item_id == 1,
            r.next_taken_id == 1,
    {
        Store { items: Vec::new(), takens: Vec::new(), next_item_id: 1, next_taken_id: 1 }
    }

    /// Validates the request and persists it as a fresh item stamped with
    /// `now` for both timestamps. A rejected request changes nothing.
    pub fn create(&mut self, create: CreateUpdateItem, now: i64) -> (r: Result<Item, ModelError>)
        requires
            old(self).wf(),
            old(self).next_item_id < i32::MAX,
        ensures
            final(self).wf(),
            spec_valid_request(create) ==> {
                &&& r == Ok::<Item, ModelError>(
                    spec_new_item(create, old(self).next_item_id, now),
                )
                &&& final(self).items@ == old(self).items@.push(
                    spec_new_item(create, old(self).next_item_id, now),
                )
                &&& final(self).takens@ == old(self).takens@
                &&& final(self).next_item_id == old(self).next_item_id + 1
                &&& final(self).next_taken_id == old(self).next_taken_id
            },
            !spec_valid_request(create) ==> {
                &&& r == Err::<Item, ModelError>(spec_validation_error(create))
                &&& *final(self) == *old(self)
            },
    {
        if let Err(e) = validate_request(&create) {
            return Err(e);
        }
        let item = Item {
            created_at: now,
            updated_at: now,
            id: self.next_item_id,
            name: create.name,
            description: create.description,
            quantity: create.quantity,
            size: create.size,
            infinite: create.infinite,
        };
        let result = copy_item(&item);
        self.items.push(item);
        self.next_item_id = self.next_item_id + 1;
        proof {
            let pre = old(self).items@;
            let post = self.items@;
            assert(forall|i: int| 0 <= i < pre.len() ==> post[i] == pre[i]);
            assert forall|i: int| 0 <= i < self.takens@.len() implies spec_item_exists(
                post,
                (#[trigger] self.takens@[i]).item_id,
            ) by {
                assert(spec_item_exists(pre, self.takens@[i].item_id));
                let k = choose|k: int|
                    0 <= k < pre.len() && pre[k].id == self.takens@[i].item_id;
                assert(post[k].id == self.takens@[i].item_id);
            }
        }
        Ok(result)
    }

    /// Returns the item carrying `id`, or `NotFound` if no row does.
    pub fn find_by_id(&self, id: i32) -> (r: Result<Item, ModelError>)
        ensures
            match r {
                Ok(it) => spec_find_item(self.items@, id) == Some(it),
                Err(e) => {
                    &&& e == ModelError::NotFound
                    &&& spec_find_item(self.items@, id) is None
                },
            },
    {
        let n = self.items.len();
        let mut i: usize = 0;
        while i < n
            invariant
                i <= n,
                n == self.items@.len(),
                forall|k: int| 0 <= k < i ==> (#[trigger] self.items@[k]).id != id,
            decreases n - i,
        {
            if self.items[i].id == id {
                let found = copy_item(&self.items[i]);
                proof {
                    lemma_find_item_at(self.items@, id, i as int);
                }
                return Ok(found);
            }
            i = i + 1;
        }
        proof {
            lemma_find_item_none(self.items@, id);
        }
        Err(ModelError::NotFound)
    }

    /// The position of the item carrying `id`, if any. With a well-formed
    /// catalog the position is the one `spec_find_index` names and the row
    /// there is the one `spec_find_item` finds.
    fn index_of(&self, id: i32) -> (r: Option<usize>)
        requires
            self.wf(),
        ensures
            match r {
                Some(i) => {
                    &&& 0 <= i < self.items@.len()
                    &&& self.items@[i as int].id == id
                    &&& i as int == spec_find_index(self.items@, id)
                    &&& spec_find_item(self.items@, id) == Some(self.items@[i as int])
                },
                None => spec_find_item(self.items@, id) is None,
            },
    {
        let n = self.items.len();
        let mut i: usize = 0;
        while i < n
            invariant
                self.wf(),
                i <= n,
                n == self.items@.len(),
                forall|k: int| 0 <= k < i ==> (#[trigger] self.items@[k]).id != id,
            decreases n - i,
        {
            if self.items[i].id == id {
                proof {
                    lemma_find_item_at(self.items@, id, i as int);
                    let w = spec_find_index(self.items@, id);
                    assert(0 <= w < self.items@.len() && self.items@[w].id == id);
                    if w < i as int {
                        assert(self.items@[w].id != id);
                    }
                    if w > i as int {
                        assert(self.items@[i as int].id < self.items@[w].id);
                    }
                }
                return Some(i);
            }
            i = i + 1;
        }
        proof {
            lemma_find_item_none(self.items@, id);
        }
        None
    }

    /// Re-validates the request; if `id` names an existing item, replaces
    /// its mutable fields, keeping its identity and creation time and
    /// bumping its update time to `now`. A missing item or a rejected
    /// request changes nothing; a missing item wins over a bad request.
    pub fn update(&mut self, id: i32, update: CreateUpdateItem, now: i64) -> (r: Result<
        Item,
        ModelError,
    >)
        requires
            old(self).wf(),
        ensures
            final(self).wf(),
            spec_find_item(old(self).items@, id) is None ==> {
                &&& r == Err::<Item, ModelError>(ModelError::NotFound)
                &&& *final(self) == *old(self)
            },
            spec_find_item(old(self).items@, id) is Some && !spec_valid_request(update) ==> {
                &&& r == Err::<Item, ModelError>(spec_validation_error(update))
                &&& *final(self) == *old(self)
            },
            spec_find_item(old(self).items@, id) is Some && spec_valid_request(update) ==> {
                let idx = spec_find_index(old(self).items@, id);
                let u = spec_updated_item(old(self).items@[idx], update, now);
                &&& r == Ok::<Item, ModelError>(u)
                &&& final(self).items@ == old(self).items@.update(idx, u)
                &&& final(self).takens@ == old(self).takens@
                &&& final(self).next_item_id == old(self).next_item_id
                &&& final(self).next_taken_id == old(self).next_taken_id
            },
    {
        let idx = match self.index_of(id) {
            Some(i) => i,
            None => {
                return Err(ModelError::NotFound);
            },
        };
        if let Err(e) = validate_request(&update) {
            return Err(e);
        }
        let orig = &self.items[idx];
        let item = Item {
            created_at: orig.created_at,
            updated_at: now,
            id: orig.id,
            name: update.name,
            description: update.description,
            quantity: update.quantity,
            size: update.size,
            infinite: update.infinite,
        };
        let result = copy_item(&item);
        self.items.set(idx, item);
        proof {
            let pre = old(self).items@;
            let post = self.items@;
            assert(forall|k: int| 0 <= k < post.len() ==> post[k].id == (#[trigger] pre[k]).id);
            assert forall|i: int| 0 <= i < self.takens@.len() implies spec_item_exists(
                post,
                (#[trigger] self.takens@[i]).item_id,
            ) by {
                assert(spec_item_exists(pre, self.takens@[i].item_id));
                let k = choose|k: int|
                    0 <= k < pre.len() && pre[k].id == self.takens@[i].item_id;
                assert(post[k].id == self.takens@[i].item_id);
            }
        }
        Ok(result)
    }

    /// Removes the item carrying `id` and, with it, its whole checkout
    /// history (the storage cascades the removal). Fails with `NotFound`,
    /// changing nothing, if no item carries `id`.
    pub fn delete(&mut self, id: i32) -> (r: Result<(), ModelError>)
        requires
            old(self).wf(),
        ensures
            final(self).wf(),
            spec_find_item(old(self).items@, id) is None ==> {
                &&& r == Err::<(), ModelError>(ModelError::NotFound)
                &&& *final(self) == *old(self)
            },
            spec_find_item(old(self).items@, id) is Some ==> {
                &&& r == Ok::<(), ModelError>(())
                &&& final(self).items@ == old(self).items@.remove(
                    spec_find_index(old(self).items@, id),
                )
                &&& final(self).takens@ == spec_takens_without(old(self).takens@, id)
                &&& final(self).next_item_id == old(self).next_item_id
                &&& final(self).next_taken_id == old(self).next_taken_id
            },
            r is Ok ==> forall|j: int|
                0 <= j < final(self).takens@.len() ==> (#[trigger] final(self).takens@[j]).item_id
                    != id,
    {
        let idx = match self.index_of(id) {
            Some(i) => i,
            None => {
                return Err(ModelError::NotFound);
            },
        };
        self.items.remove(idx);
        let ghost pre_takens = self.takens@;
        let mut kept: Vec<TakenItem> = Vec::new();
        let n = self.takens.len();
        let mut i: usize = 0;
        while i < n
            invariant
                i <= n,
                n == self.takens@.len(),
                self.takens@ == pre_takens,
                kept@ == spec_takens_without(self.takens@.take(i as int), id),
            decreases n - i,
        {
            let t = self.takens[i];
            proof {
                let taken_now = self.takens@.take(i as int + 1);
                assert(taken_now.drop_last() == self.takens@.take(i as int));
                assert(taken_now.last() == self.takens@[i as int]);
            }
            if t.item_id != id {
                kept.push(t);
            }
            i = i + 1;
        }
        proof {
            assert(self.takens@.take(n as int) == self.takens@);
        }
        self.takens = kept;
        proof {
            let pre = old(self).items@;
            let post = self.items@;
            let pidx = spec_find_index(pre, id);
            lemma_takens_without(pre_takens, id);
            assert(forall|k: int| 0 <= k < pidx ==> post[k] == pre[k]);
            assert(forall|k: int| pidx <= k < post.len() ==> post[k] == pre[k + 1]);
            assert forall|j: int| 0 <= j < self.takens@.len() implies spec_valid_taken(
                #[trigger] self.takens@[j],
            ) && 1 <= self.takens@[j].id < self.next_taken_id by {
                let p = choose|p: int| 0 <= p < pre_takens.len() && pre_takens[p] == self.takens@[j];
            }
            assert forall|j: int| 0 <= j < self.takens@.len() implies spec_item_exists(
                post,
                (#[trigger] self.takens@[j]).item_id,
            ) by {
                let p = choose|p: int| 0 <= p < pre_takens.len() && pre_takens[p] == self.takens@[j];
                assert(spec_item_exists(pre, self.takens@[j].item_id));
                let k = choose|k: int|
                    0 <= k < pre.len() && pre[k].id == self.takens@[j].item_id;
                assert(self.takens@[j].item_id != id);
                assert(k != pidx);
                if k < pidx {
                    assert(post[k].id == self.takens@[j].item_id);
                } else {
                    assert(post[k - 1].id == self.takens@[j].item_id);
                }
            }
            assert(spec_at_most_one_active(self.takens@)) by {
                assert forall|a: int, b: int|
                    0 <= a < self.takens@.len() && 0 <= b < self.takens@.len()
                        && !self.takens@[a].done && !self.takens@[b].done implies a == b by {
                    if a != b {
                        let pa = choose|p: int|
                            0 <= p < pre_takens.len() && pre_takens[p] == self.takens@[a];
                        let pb = choose|p: int|
                            0 <= p < pre_takens.len() && pre_takens[p] == self.takens@[b];
                        assert(self.takens@[a].id != self.takens@[b].id);
                        assert(pa != pb);
                        assert(!pre_takens[pa].done && !pre_takens[pb].done);
                    }
                }
            }
        }
        Ok(())
    }
}

} // verus!
