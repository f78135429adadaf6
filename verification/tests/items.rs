use roadiebag2::interface::{CreateUpdateItem, ItemFilter, ItemSize, ModelError};
use roadiebag2::store::Store;

fn request(name: &str, quantity: i32, size: ItemSize, infinite: bool) -> CreateUpdateItem {
    CreateUpdateItem {
        name: name.to_string(),
        description: None,
        quantity,
        size,
        infinite,
    }
}

#[test]
fn test_create() {
    let mut store = Store::new();
    let create = CreateUpdateItem {
        name: "Test item".to_string(),
        description: None,
        quantity: 2,
        size: ItemSize::Small,
        infinite: false,
    };
    let model = store.create(create, 100);
    assert!(model.is_ok());
    let item = model.unwrap();
    assert_eq!(item.name, "Test item");
    assert_eq!(item.description, None);
    assert_eq!(item.quantity, 2);
    assert_eq!(item.size, ItemSize::Small);
    assert!(!item.infinite);
    assert_eq!(item.created_at, item.updated_at);
}

#[test]
fn test_update() {
    let mut store = Store::new();
    let create = CreateUpdateItem {
        name: "Test item".to_string(),
        description: None,
        quantity: 2,
        size: ItemSize::Small,
        infinite: false,
    };
    let model = store.create(create.clone(), 100);
    assert_eq!(model.is_ok(), true);
    let model = model.unwrap();

    let update = CreateUpdateItem { quantity: 4, ..create };

    let model2 = store.update(model.id, update, 200);
    assert_eq!(model2.is_ok(), true);
    let model2 = model2.unwrap();
    assert_eq!(model2.id, model.id);
    assert_eq!(model2.created_at, model.created_at);
    assert!(model2.updated_at > model.updated_at);
    assert_eq!(model2.quantity, 4);
    assert_eq!(model2.name, "Test item");
}

#[test]
fn can_delete() {
    let mut store = Store::new();
    let starting_list = store.list(None);
    assert_eq!(starting_list.total_results, 0);

    let item = store
        .create(request("Test item", 2, ItemSize::Small, false), 100)
        .unwrap();
    let after_create_list = store.list(None);
    assert_eq!(after_create_list.total_results, 1);

    store.delete(item.id).unwrap();
    let after_delete_list = store.list(None);
    assert_eq!(after_delete_list.total_results, 0);
}

#[test]
fn can_filter() {
    let mut store = Store::new();
    let item1 = store
        .create(request("Test item", 2, ItemSize::Small, false), 100)
        .unwrap();
    let item2 = store
        .create(request("Test item2", 1, ItemSize::Medium, true), 101)
        .unwrap();

    let all_items = store.list(None);
    assert_eq!(all_items.total_results, 2);

    let small_filter = ItemFilter {
        size: Some(ItemSize::Small),
        ..Default::default()
    };
    let small_items = store.list(Some(small_filter));
    assert_eq!(small_items.total_results, 1);
    assert_eq!(small_items.items[0].id, item1.id);

    let inf_filter = ItemFilter {
        infinite: Some(true),
        ..Default::default()
    };
    let inf_items = store.list(Some(inf_filter));
    assert_eq!(inf_items.total_results, 1);
    assert_eq!(inf_items.items[0].id, item2.id);
}

#[test]
fn item_crud() {
    let mut store = Store::new();
    let created = store
        .create(request("Test item", 3, ItemSize::Large, false), 100)
        .unwrap();
    let read = store.find_by_id(created.id).unwrap();
    assert_eq!(read, created);

    let updated = store
        .update(created.id, request("Test item", 5, ItemSize::Large, false), 200)
        .unwrap();
    assert_eq!(updated.quantity, 5);
    assert_eq!(updated.id, created.id);

    store.delete(created.id).unwrap();
    assert_eq!(store.find_by_id(created.id), Err(ModelError::NotFound));
}

#[test]
fn create_rejects_invalid_fields() {
    let mut store = Store::new();
    let bad_name = store.create(request("", 2, ItemSize::Small, false), 100);
    assert_eq!(
        bad_name,
        Err(ModelError::ValidationError {
            name_invalid: true,
            quantity_invalid: false
        })
    );
    let bad_quantity = store.create(request("Test item", 0, ItemSize::Small, false), 100);
    assert_eq!(
        bad_quantity,
        Err(ModelError::ValidationError {
            name_invalid: false,
            quantity_invalid: true
        })
    );
    let both_bad = store.create(request("", -1, ItemSize::Small, false), 100);
    assert_eq!(
        both_bad,
        Err(ModelError::ValidationError {
            name_invalid: true,
            quantity_invalid: true
        })
    );
    assert_eq!(store.list(None).total_results, 0);
}

#[test]
fn missing_ids_are_not_found() {
    let mut store = Store::new();
    assert_eq!(store.find_by_id(7), Err(ModelError::NotFound));
    assert_eq!(
        store.update(7, request("Test item", 2, ItemSize::Small, false), 100),
        Err(ModelError::NotFound)
    );
    assert_eq!(store.delete(7), Err(ModelError::NotFound));
    // A missing item wins over a bad request.
    assert_eq!(
        store.update(7, request("", 0, ItemSize::Small, false), 100),
        Err(ModelError::NotFound)
    );
}

#[test]
fn name_filter_is_case_insensitive_prefix() {
    let mut store = Store::new();
    store
        .create(request("Test item", 2, ItemSize::Small, false), 100)
        .unwrap();
    store
        .create(request("Other thing", 2, ItemSize::Small, false), 101)
        .unwrap();

    // No wildcard: a trailing one is appended, making a prefix match.
    let filter = ItemFilter {
        name: Some("TEST".to_string()),
        ..Default::default()
    };
    let page = store.list(Some(filter));
    assert_eq!(page.total_results, 1);
    assert_eq!(page.items[0].name, "Test item");

    // An explicit wildcard is honoured wherever it stands.
    let filter = ItemFilter {
        name: Some("%item".to_string()),
        ..Default::default()
    };
    let page = store.list(Some(filter));
    assert_eq!(page.total_results, 1);
    assert_eq!(page.items[0].name, "Test item");

    // A prefix that matches nothing.
    let filter = ItemFilter {
        name: Some("item".to_string()),
        ..Default::default()
    };
    assert_eq!(store.list(Some(filter)).total_results, 0);

    // Substring match with wildcards on both sides.
    let filter = ItemFilter {
        name: Some("%THING%".to_string()),
        ..Default::default()
    };
    let page = store.list(Some(filter));
    assert_eq!(page.total_results, 1);
    assert_eq!(page.items[0].name, "Other thing");
}

#[test]
fn description_filter_skips_missing_descriptions() {
    let mut store = Store::new();
    let mut with_desc = request("Test item", 2, ItemSize::Small, false);
    with_desc.description = Some("A blue widget".to_string());
    store.create(with_desc, 100).unwrap();
    store
        .create(request("Test item2", 2, ItemSize::Small, false), 101)
        .unwrap();

    let filter = ItemFilter {
        description: Some("%blue%".to_string()),
        ..Default::default()
    };
    let page = store.list(Some(filter));
    assert_eq!(page.total_results, 1);
    assert_eq!(page.items[0].name, "Test item");

    // An item without a description matches no description pattern.
    let filter = ItemFilter {
        description: Some("%".to_string()),
        ..Default::default()
    };
    assert_eq!(store.list(Some(filter)).total_results, 1);
}

#[test]
fn list_paginates_descending_by_id() {
    let mut store = Store::new();
    for i in 0..5 {
        store
            .create(
                request(&format!("Item {}", i), 1, ItemSize::Small, false),
                100 + i,
            )
            .unwrap();
    }
    let filter = ItemFilter {
        page_num: 0,
        page_size: 2,
        ..Default::default()
    };
    let page = store.list(Some(filter));
    assert_eq!(page.total_results, 5);
    assert_eq!(page.total_pages, 3);
    assert_eq!(page.page_size, 2);
    let ids: Vec<i32> = page.items.iter().map(|it| it.id).collect();
    assert_eq!(ids, vec![5, 4]);

    let filter = ItemFilter {
        page_num: 2,
        page_size: 2,
        ..Default::default()
    };
    let page = store.list(Some(filter));
    assert_eq!(page.items.len(), 1);
    assert_eq!(page.items[0].id, 1);

    // A window past the end is empty but still reports the totals.
    let filter = ItemFilter {
        page_num: 10,
        page_size: 2,
        ..Default::default()
    };
    let page = store.list(Some(filter));
    assert_eq!(page.items.len(), 0);
    assert_eq!(page.total_results, 5);
    assert_eq!(page.total_pages, 3);
}

#[test]
fn empty_filter_defaults_and_ceiling_pages() {
    let mut store = Store::new();
    // Page size zero selects the default of fifty.
    let page = store.list(None);
    assert_eq!(page.page_size, 50);
    assert_eq!(page.total_results, 0);
    assert_eq!(page.total_pages, 0);

    for i in 0..4 {
        store
            .create(
                request(&format!("Item {}", i), 1, ItemSize::Small, false),
                100 + i,
            )
            .unwrap();
    }
    // An empty filter matches every row; pages fill the ceiling.
    let page = store.list(None);
    assert_eq!(page.total_results, 4);
    assert_eq!(page.total_pages, 1);

    let filter = ItemFilter {
        page_size: 3,
        ..Default::default()
    };
    let page = store.list(Some(filter));
    assert_eq!(page.total_results, 4);
    assert_eq!(page.total_pages, 2);
}

#[test]
fn size_filter_with_mixed_sizes() {
    let mut store = Store::new();
    let sizes = [
        ItemSize::Small,
        ItemSize::Medium,
        ItemSize::Large,
        ItemSize::Small,
        ItemSize::Medium,
        ItemSize::Small,
    ];
    for (i, size) in sizes.iter().enumerate() {
        store
            .create(
                request(&format!("Item {}", i), 1, *size, false),
                100 + i as i64,
            )
            .unwrap();
    }
    let filter = ItemFilter {
        size: Some(ItemSize::Small),
        ..Default::default()
    };
    let page = store.list(Some(filter));
    assert_eq!(page.total_results, 3);
    for it in &page.items {
        assert_eq!(it.size, ItemSize::Small);
    }
}
