//! The listing query: a conjunctive predicate built from an optional,
//! partially populated filter, and the pagination arithmetic over the
//! matching rows.

use vstd::prelude::*;

use crate::interface::{copy_item, Item, ItemFilter, ItemPage};
use crate::like::{
    like_match, lower_of, prepare_pattern, spec_like_matches, spec_with_wildcard,
};
use crate::store::Store;

verus! {

/// A missing filter imposes no constraints: first page, default size.
pub open spec fn spec_filter_of(filter: Option<ItemFilter>) -> ItemFilter {
    match filter {
        Some(f) => f,
        None => ItemFilter {
            name: None,
            description: None,
            size: None,
            infinite: None,
            page_num: 0,
            page_size: 0,
        },
    }
}

/// The conjunction of the present predicates: wildcard name and
/// description matches against the lowercase text (an item without a
/// description matches no description pattern), exact size and
/// infinite matches. Absent fields impose no constraint.
pub open spec fn spec_matches_filter(f: ItemFilter, it: Item) -> bool {
    &&& f.name is Some ==> spec_like_matches(
        spec_with_wildcard(lower_of(f.name.unwrap()@)),
        lower_of(it.name@),
    )
    &&& f.description is Some ==> it.description is Some && spec_like_matches(
        spec_with_wildcard(lower_of(f.description.unwrap()@)),
        lower_of(it.description.unwrap()@),
    )
    &&& f.size is Some ==> it.size == f.size.unwrap()
    &&& f.infinite is Some ==> it.infinite == f.infinite.unwrap()
}

/// The matching rows in storage order (ascending id).
pub open spec fn spec_matched(items: Seq<Item>, f: ItemFilter) -> Seq<Item>
    decreases items.len(),
{
    if items.len() == 0 {
        Seq::empty()
    } else {
        let rest = spec_matched(items.drop_last(), f);
        if spec_matches_filter(f, items.last()) {
            rest.push(items.last())
        } else {
            rest
        }
    }
}

/// A requested page size of zero selects the default of fifty rows.
pub open spec fn spec_effective_page_size(ps: u64) -> int {
    if ps > 0 {
        ps as int
    } else {
        50
    }
}

/// How many pages the matching rows fill: none for an empty result,
/// otherwise the last page may be partial.
pub open spec fn spec_total_pages(total: int, ps: int) -> int {
    if total == 0 {
        0
    } else {
        (total - 1) / ps + 1
    }
}

/// How many rows the requested page window holds: a window past the end
/// is empty, the last window may be partial.
pub open spec fn spec_window_len(total: int, off: int, ps: int) -> int {
    if off >= total {
        0
    } else if off + ps <= total {
        ps
    } else {
        total - off
    }
}

/// The matching rows keep the catalog's storage order: strictly
/// increasing ids in, strictly increasing ids out; and every matching
/// row stands in the catalog.
pub proof fn lemma_matched_preserves_order(items: Seq<Item>, f: ItemFilter)
    requires
        forall|i: int, j: int| 0 <= i < j < items.len() ==> items[i].id < items[j].id,
    ensures
        forall|j: int|
            0 <= j < spec_matched(items, f).len() ==> items.contains(
                #[trigger] spec_matched(items, f)[j],
            ),
        forall|i: int, j: int|
            0 <= i < j < spec_matched(items, f).len() ==> (#[trigger] spec_matched(items, f)[i]).id
                < (#[trigger] spec_matched(items, f)[j]).id,
    decreases items.len(),
{
    if items.len() > 0 {
        let dl = items.drop_last();
        lemma_matched_preserves_order(dl, f);
        let rest = spec_matched(dl, f);
        let res = spec_matched(items, f);
        assert(forall|p: int| 0 <= p < dl.len() ==> dl[p] == items[p]);
        if spec_matches_filter(f, items.last()) {
            assert(res == rest.push(items.last()));
            assert forall|i: int, j: int|
                0 <= i < j < res.len() implies (#[trigger] res[i]).id < (#[trigger] res[j]).id by {
                if j < res.len() - 1 {
                    assert(res[i] == rest[i] && res[j] == rest[j]);
                } else {
                    assert(res[j] == items.last());
                    assert(res[i] == rest[i]);
                    let p = choose|p: int| 0 <= p < dl.len() && dl[p] == rest[i];
                    assert(items[p].id < items.last().id);
                }
            }
        }
    }
}

impl Store {
    /// Lists the catalog rows matching the filter, newest (highest id)
    /// first, sliced to the requested page window, together with the
    /// total number of matching rows and the number of pages they fill.
    pub fn list(&self, filter: Option<ItemFilter>) -> (page: ItemPage)
        requires
            self.wf(),
        ensures
            ({
                let f = spec_filter_of(filter);
                let m = spec_matched(self.items@, f);
                let ps = spec_effective_page_size(f.page_size);
                let off = (f.page_num as int) * ps;
                &&& page.page_num == f.page_num
                &&& page.page_size == ps
                &&& page.total_results == m.len()
                &&& page.total_pages == spec_total_pages(m.len() as int, ps)
                &&& page.items@.len() == spec_window_len(m.len() as int, off, ps)
                &&& forall|j: int|
                    0 <= j < page.items@.len() ==> page.items@[j] == m[m.len() - 1 - off - j]
                &&& forall|i: int, j: int|
                    0 <= i < j < page.items@.len() ==> (#[trigger] page.items@[i]).id > (
                    #[trigger] page.items@[j]).id
            }),
    {
        let f = match filter {
            Some(f) => f,
            None => ItemFilter::default(),
        };
        let name_pat: Option<Vec<u8>> = match &f.name {
            Some(s) => Some(prepare_pattern(s.as_str())),
            None => None,
        };
        let desc_pat: Option<Vec<u8>> = match &f.description {
            Some(s) => Some(prepare_pattern(s.as_str())),
            None => None,
        };
        let mut matched: Vec<Item> = Vec::new();
        let n = self.items.len();
        let mut i: usize = 0;
        while i < n
            invariant
                self.wf(),
                i <= n,
                n == self.items@.len(),
                f == spec_filter_of(filter),
                name_pat is Some <==> f.name is Some,
                f.name is Some ==> name_pat.unwrap()@ == spec_with_wildcard(
                    lower_of(f.name.unwrap()@),
                ),
                desc_pat is Some <==> f.description is Some,
                f.description is Some ==> desc_pat.unwrap()@ == spec_with_wildcard(
                    lower_of(f.description.unwrap()@),
                ),
                matched@ == spec_matched(self.items@.take(i as int), f),
            decreases n - i,
        {
            let it = &self.items[i];
            let ok_name = match &name_pat {
                Some(p) => {
                    let tb = fold_lower_name(it);
                    like_match(p, &tb)
                },
                None => true,
            };
            let ok_desc = match &desc_pat {
                Some(p) => match &it.description {
                    Some(d) => {
                        let db = crate::like::fold_lower(d.as_str());
                        like_match(p, &db)
                    },
                    None => false,
                },
                None => true,
            };
            let ok_size = match f.size {
                Some(s) => s == it.size,
                None => true,
            };
            let ok_inf = match f.infinite {
                Some(b) => b == it.infinite,
                None => true,
            };
            let is_match = ok_name && ok_desc && ok_size && ok_inf;
            proof {
                assert(is_match == spec_matches_filter(f, self.items@[i as int]));
            }
            if is_match {
                let c = copy_item(it);
                matched.push(c);
            }
            proof {
                let pre = self.items@.take(i as int + 1);
                assert(pre.drop_last() == self.items@.take(i as int));
                assert(pre.last() == self.items@[i as int]);
            }
            i = i + 1;
        }
        proof {
            assert(self.items@.take(n as int) == self.items@);
        }
        let ghost m = spec_matched(self.items@, f);
        let total = matched.len();
        let page_size_u: u64 = if f.page_size > 0 {
            f.page_size
        } else {
            50
        };
        let ghost ps = spec_effective_page_size(f.page_size);
        let total_pages: u64 = if total == 0 {
            0
        } else {
            ((total as u64 - 1) / page_size_u) + 1
        };
        proof {
            assert((f.page_num as int) * (page_size_u as int) < u128::MAX as int)
                by (nonlinear_arith)
                requires
                    0 <= f.page_num as int <= u64::MAX as int,
                    0 <= page_size_u as int <= u64::MAX as int,
            ;
        }
        let off128: u128 = (f.page_num as u128) * (page_size_u as u128);
        let mut out: Vec<Item> = Vec::new();
        if (total as u128) > off128 {
            let off = off128 as usize;
            let remaining = total - off;
            let count = if (page_size_u as u128) < (remaining as u128) {
                page_size_u as usize
            } else {
                remaining
            };
            let mut j: usize = 0;
            while j < count
                invariant
                    j <= count,
                    off < total,
                    count <= total - off,
                    total == matched@.len(),
                    out@.len() == j,
                    forall|q: int|
                        0 <= q < j ==> out@[q] == matched@[total - 1 - off - q],
                decreases count - j,
            {
                let idx = total - 1 - off - j;
                out.push(copy_item(&matched[idx]));
                j = j + 1;
            }
        }
        proof {
            lemma_matched_preserves_order(self.items@, f);
            assert forall|a: int, b: int|
                0 <= a < b < out@.len() implies (#[trigger] out@[a]).id > (
            #[trigger] out@[b]).id by {
                assert(out@[a] == m[m.len() - 1 - (off128 as int) - a]);
                assert(out@[b] == m[m.len() - 1 - (off128 as int) - b]);
            }
        }
        ItemPage {
            items: out,
            page_num: f.page_num,
            total_pages,
            page_size: page_size_u,
            total_results: total as u64,
        }
    }
}

/// Folds an item's name to lowercase bytes.
fn fold_lower_name(it: &Item) -> (r: Vec<u8>)
    ensures
        r@ == lower_of(it.name@),
{
    crate::like::fold_lower(it.name.as_str())
}

} // verus!
