//! The data types exchanged with callers: catalog items, checkouts, filters,
//! pages, and the error taxonomy, together with the validation rules on
//! create/update requests.

use vstd::prelude::*;

verus! {

/// Size class of a catalog item.
#[derive(Clone, Copy, Debug, PartialEq, Eq, Structural)]
pub enum ItemSize {
    Small,
    Medium,
    Large,
}

/// The mutable fields of an item, as a caller supplies them to `create`
/// and `update`.
#[derive(Clone, Debug)]
pub struct CreateUpdateItem {
    pub name: String,
    pub description: Option<String>,
    pub quantity: i32,
    pub size: ItemSize,
    pub infinite: bool,
}

/// A catalog entry. `quantity` is the total number of units ever available
/// for checkout; if `infinite` is set, `quantity` is ignored for
/// availability. Timestamps are clock readings supplied by the caller.
#[derive(Clone, Debug, PartialEq, Eq)]
pub struct Item {
    pub created_at: i64,
    pub updated_at: i64,
    pub id: i32,
    pub name: String,
    pub description: Option<String>,
    pub quantity: i32,
    pub size: ItemSize,
    pub infinite: bool,
}

/// An optional, partially populated filter for listing the catalog.
/// Absent fields impose no constraint. `page_num` is zero-based;
/// a `page_size` of zero selects the default page size.
#[derive(Clone, Debug)]
pub struct ItemFilter {
    pub name: Option<String>,
    pub description: Option<String>,
    pub size: Option<ItemSize>,
    pub infinite: Option<bool>,
    pub page_num: u64,
    pub page_size: u64,
}

impl Default for ItemFilter {
    /// The empty filter: no constraints, first page, default page size.
    fn default() -> (r: Self)
        ensures
            r.name is None,
            r.description is None,
            r.size is None,
            r.infinite is None,
            r.page_num == 0,
            r.page_size == 0,
    {
        ItemFilter {
            name: None,
            description: None,
            size: None,
            infinite: None,
            page_num: 0,
            page_size: 0,
        }
    }
}

/// One page of a catalog listing.
#[derive(Clone, Debug, PartialEq, Eq)]
pub struct ItemPage {
    pub items: Vec<Item>,
    pub page_num: u64,
    pub total_pages: u64,
    pub page_size: u64,
    pub total_results: u64,
}

/// One historical withdrawal of an item. A checkout permanently consumes
/// one unit of the item's quantity; it is counted down over
/// `rounds_total` rounds and becomes `done` when `rounds_left` reaches
/// zero or when it is forced done.
#[derive(Clone, Copy, Debug, PartialEq, Eq, Structural)]
pub struct TakenItem {
    pub created_at: i64,
    pub updated_at: i64,
    pub id: i32,
    pub item_id: i32,
    pub rounds_left: i16,
    pub done: bool,
    pub rounds_total: i16,
}

/// Why an operation was refused.
#[derive(Clone, Copy, Debug, PartialEq, Eq, Structural)]
pub enum ModelError {
    /// A create/update request broke a field constraint; the flags name
    /// the violated field(s).
    ValidationError { name_invalid: bool, quantity_invalid: bool },
    /// The referenced item does not exist.
    NotFound,
    /// A checkout was requested but no item has any remaining supply.
    NoItemsAvailable,
}

/// The field constraints on a create/update request: a non-empty name and
/// a quantity of at least one. (The size is an enumeration, so it cannot
/// be out of range.)
pub open spec fn spec_valid_request(c: CreateUpdateItem) -> bool {
    c.name@.len() >= 1 && c.quantity >= 1
}

/// The exact error a request that fails validation is refused with.
pub open spec fn spec_validation_error(c: CreateUpdateItem) -> ModelError {
    ModelError::ValidationError {
        name_invalid: c.name@.len() < 1,
        quantity_invalid: c.quantity < 1,
    }
}

/// The item that persisting a valid request as a fresh row yields.
pub open spec fn spec_new_item(c: CreateUpdateItem, id: i32, now: i64) -> Item {
    Item {
        created_at: now,
        updated_at: now,
        id: id,
        name: c.name,
        description: c.description,
        quantity: c.quantity,
        size: c.size,
        infinite: c.infinite,
    }
}

/// The item that replacing `orig`'s mutable fields by a valid request
/// yields: identity and creation time are kept, the update time is bumped.
pub open spec fn spec_updated_item(orig: Item, c: CreateUpdateItem, now: i64) -> Item {
    Item {
        created_at: orig.created_at,
        updated_at: now,
        id: orig.id,
        name: c.name,
        description: c.description,
        quantity: c.quantity,
        size: c.size,
        infinite: c.infinite,
    }
}

/// Validates a request, returning the exact violation flags on failure.
pub fn validate_request(c: &CreateUpdateItem) -> (r: Result<(), ModelError>)
    ensures
        r is Ok <==> spec_valid_request(*c),
        r is Err ==> r->Err_0 == spec_validation_error(*c),
{
    let name_ok = !c.name.as_str().is_empty();
    let quantity_ok = c.quantity >= 1;
    if name_ok && quantity_ok {
        Ok(())
    } else {
        Err(ModelError::ValidationError {
            name_invalid: !name_ok,
            quantity_invalid: !quantity_ok,
        })
    }
}

/// Copies an item field for field; the copy is equal to the original.
pub fn copy_item(it: &Item) -> (r: Item)
    ensures
        r == *it,
{
    let description = match &it.description {
        Some(d) => Some(d.clone()),
        None => None,
    };
    Item {
        created_at: it.created_at,
        updated_at: it.updated_at,
        id: it.id,
        name: it.name.clone(),
        description,
        quantity: it.quantity,
        size: it.size,
        infinite: it.infinite,
    }
}

} // verus!
