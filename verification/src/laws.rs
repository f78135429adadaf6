//! The cross-cutting guarantees of the library, stated and proved over
//! the same spec functions the operations' contracts use.

use vstd::prelude::*;

use crate::interface::{CreateUpdateItem, Item, ItemFilter, ItemSize, TakenItem};
use crate::interface::{spec_new_item, spec_updated_item};
use crate::query::{
    spec_effective_page_size, spec_matched, spec_matches_filter, spec_total_pages,
};
use crate::store::{
    lemma_find_item_at, lemma_takens_without, spec_find_item, spec_takens_without,
};

verus! {

/// Law: an item persisted from a valid request under a fresh id is read
/// back by that id equal in all fields, and carries equal creation and
/// update timestamps.
pub proof fn lemma_create_then_read(items: Seq<Item>, c: CreateUpdateItem, id: i32, now: i64)
    requires
        forall|k: int| 0 <= k < items.len() ==> (#[trigger] items[k]).id < id,
    ensures
        spec_find_item(items.push(spec_new_item(c, id, now)), id) == Some(
            spec_new_item(c, id, now),
        ),
        spec_new_item(c, id, now).created_at == spec_new_item(c, id, now).updated_at,
{
    let post = items.push(spec_new_item(c, id, now));
    assert(forall|k: int| 0 <= k < items.len() ==> post[k] == items[k]);
    assert(post[post.len() - 1] == spec_new_item(c, id, now));
    lemma_find_item_at(post, id, post.len() - 1);
}

/// Law: replacing an item's mutable fields never changes its id or its
/// creation time, whatever request and clock reading come in.
pub proof fn lemma_update_preserves_identity(orig: Item, c: CreateUpdateItem, now: i64)
    ensures
        spec_updated_item(orig, c, now).id == orig.id,
        spec_updated_item(orig, c, now).created_at == orig.created_at,
{
}

/// Law: replacing an item's mutable fields advances its update time,
/// for every clock reading later than the one it carries.
pub proof fn lemma_update_advances_timestamp(orig: Item, c: CreateUpdateItem, now: i64)
    requires
        now > orig.updated_at,
    ensures
        spec_updated_item(orig, c, now).updated_at > orig.updated_at,
{
}

/// Law: deleting an item removes every checkout row referencing it; the
/// rows that survive reference other items.
pub proof fn lemma_delete_cascades(ts: Seq<TakenItem>, id: i32)
    ensures
        forall|j: int|
            0 <= j < spec_takens_without(ts, id).len() ==> (#[trigger] spec_takens_without(
                ts,
                id,
            )[j]).item_id != id,
{
    lemma_takens_without(ts, id);
}

/// Law: under the empty filter every row matches, so a listing reports
/// the full row count and fills the ceiling of count over page size in
/// pages.
pub proof fn lemma_list_empty_filter(items: Seq<Item>, f: ItemFilter)
    requires
        f.name is None,
        f.description is None,
        f.size is None,
        f.infinite is None,
    ensures
        spec_matched(items, f) == items,
        spec_total_pages(items.len() as int, spec_effective_page_size(f.page_size)) == (
        items.len() + spec_effective_page_size(f.page_size) - 1) / spec_effective_page_size(
            f.page_size,
        ),
    decreases items.len(),
{
    let ps = spec_effective_page_size(f.page_size);
    if items.len() == 0 {
        assert(spec_matched(items, f) =~= items);
        assert((ps - 1) / ps == 0) by {
            vstd::arithmetic::div_mod::lemma_basic_div(ps - 1, ps);
        }
    } else {
        lemma_list_empty_filter(items.drop_last(), f);
        assert(spec_matches_filter(f, items.last()));
        assert(spec_matched(items, f) =~= items);
        let total = items.len() as int;
        assert(1 + (total - 1) / ps == (ps + (total - 1)) / ps) by {
            vstd::arithmetic::div_mod::lemma_div_plus_one(total - 1, ps);
        }
    }
}

/// Law: filtering by a size returns only rows of that size, whatever
/// mixture of sizes the catalog holds.
pub proof fn lemma_size_filter(items: Seq<Item>, f: ItemFilter, s: ItemSize)
    requires
        f.size == Some(s),
    ensures
        forall|j: int|
            0 <= j < spec_matched(items, f).len() ==> (#[trigger] spec_matched(items, f)[j]).size
                == s,
    decreases items.len(),
{
    if items.len() > 0 {
        lemma_size_filter(items.drop_last(), f, s);
        let rest = spec_matched(items.drop_last(), f);
        let res = spec_matched(items, f);
        if spec_matches_filter(f, items.last()) {
            assert(res == rest.push(items.last()));
            assert(items.last().size == s);
            assert(forall|j: int| 0 <= j < res.len() - 1 ==> res[j] == rest[j]);
        }
    }
}

} // verus!
