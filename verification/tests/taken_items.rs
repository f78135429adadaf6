use roadiebag2::interface::{CreateUpdateItem, ItemSize, ModelError, TakenItem};
use roadiebag2::store::Store;

fn request(name: &str, quantity: i32, size: ItemSize, infinite: bool) -> CreateUpdateItem {
    CreateUpdateItem {
        name: name.to_string(),
        description: None,
        quantity,
        size,
        infinite,
    }
}

#[test]
fn test_model() {
    let mut store = Store::new();
    let model = store.create(request("Test item", 2, ItemSize::Small, false), 100);
    assert!(model.is_ok());
    let item = model.unwrap();

    let current_taken_none = store.get_current();
    assert!(current_taken_none.is_none());

    let current_random = store.get_random(200).unwrap();
    assert_eq!(current_random.item_id, item.id);
    assert!(current_random.rounds_total >= 1 && current_random.rounds_total <= 6);
    assert_eq!(current_random.rounds_left, current_random.rounds_total);
    assert!(!current_random.done);

    store.mark_done(300);

    let current_taken_done = store.get_current();
    assert!(current_taken_done.is_none());
}

#[test]
fn test_decrement() {
    let mut store = Store::new();
    let _model = store
        .create(request("Test item", 2, ItemSize::Small, false), 100)
        .unwrap();
    let current_random = store.get_random(200).unwrap();

    let decr = store.decrement_rounds(300).unwrap();

    assert_eq!(current_random.rounds_left - 1, decr.rounds_left)
}

#[test]
fn taken_crud() {
    let mut store = Store::new();
    let item = store
        .create(request("Test item", 2, ItemSize::Small, false), 100)
        .unwrap();

    assert!(store.get_current().is_none());
    let taken = store.get_random(200).unwrap();
    assert_eq!(taken.item_id, item.id);
    assert_eq!(store.get_current(), Some(taken));

    let after = store.decrement_rounds(300).unwrap();
    assert_eq!(after.rounds_left, taken.rounds_left - 1);

    store.mark_done(400);
    assert!(store.get_current().is_none());
}

#[test]
fn get_random_is_idempotent_while_active() {
    let mut store = Store::new();
    let item = store
        .create(request("Widget", 1, ItemSize::Small, false), 100)
        .unwrap();
    assert_eq!(item.name, "Widget");

    let first = store.get_random(200).unwrap();
    assert_eq!(first.item_id, item.id);
    assert!(first.rounds_total >= 1 && first.rounds_total <= 6);
    assert_eq!(first.rounds_left, first.rounds_total);

    // A second call while the checkout is active returns the identical row.
    let second = store.get_random(300).unwrap();
    assert_eq!(second.id, first.id);
    assert_eq!(second, first);
    assert_eq!(store.takens.len(), 1);
}

#[test]
fn decrement_counts_down_to_done() {
    let mut store = Store::new();
    let item = store
        .create(request("Test item", 1, ItemSize::Small, false), 100)
        .unwrap();
    // An active checkout with three rounds, as the selection could have
    // drawn it.
    store.takens.push(TakenItem {
        created_at: 200,
        updated_at: 200,
        id: 1,
        item_id: item.id,
        rounds_left: 3,
        done: false,
        rounds_total: 3,
    });
    store.next_taken_id = 2;

    let first = store.decrement_rounds(300).unwrap();
    assert_eq!(first.rounds_left, 2);
    assert!(!first.done);
    let second = store.decrement_rounds(400).unwrap();
    assert_eq!(second.rounds_left, 1);
    assert!(!second.done);
    let third = store.decrement_rounds(500).unwrap();
    assert_eq!(third.rounds_left, 0);
    assert!(third.done);
    // With no current checkout left, a further call returns none.
    assert!(store.decrement_rounds(600).is_none());
}

#[test]
fn depleted_item_is_not_selected_again() {
    let mut store = Store::new();
    let item = store
        .create(request("Widget", 1, ItemSize::Small, false), 100)
        .unwrap();

    let taken = store.get_random(200).unwrap();
    assert_eq!(taken.item_id, item.id);
    store.mark_done(300);

    // The single unit is consumed for good: quantity 1 minus one
    // lifetime checkout leaves nothing, and no other item exists.
    let again = store.get_random(400);
    assert_eq!(again, Err(ModelError::NoItemsAvailable));
    assert_eq!(store.takens.len(), 1);
}

#[test]
fn competing_requests_create_one_checkout() {
    let mut store = Store::new();
    store
        .create(request("Test item", 5, ItemSize::Small, false), 100)
        .unwrap();

    // Two requests racing for the next checkout: the store serialises
    // them, so the second observes the first's row and no second row
    // appears.
    let first = store.get_random(200).unwrap();
    let second = store.get_random(200).unwrap();
    assert_eq!(first.id, second.id);
    assert_eq!(store.takens.len(), 1);
}

#[test]
fn infinite_item_is_always_available() {
    let mut store = Store::new();
    let item = store
        .create(request("Test item", 1, ItemSize::Small, true), 100)
        .unwrap();
    for round in 0..10 {
        let taken = store.get_random(200 + round).unwrap();
        assert_eq!(taken.item_id, item.id);
        assert!(taken.rounds_total >= 1 && taken.rounds_total <= 6);
        assert_eq!(taken.rounds_left, taken.rounds_total);
        store.mark_done(200 + round);
    }
    assert_eq!(store.takens.len(), 10);
}

#[test]
fn delete_cascades_checkout_history() {
    let mut store = Store::new();
    let first = store
        .create(request("Test item", 3, ItemSize::Small, false), 100)
        .unwrap();
    let second = store
        .create(request("Test item2", 3, ItemSize::Small, false), 101)
        .unwrap();
    // A checkout history touching both items, all rows done.
    for (id, item_id) in [(1, first.id), (2, second.id), (3, first.id)] {
        store.takens.push(TakenItem {
            created_at: 200,
            updated_at: 200,
            id,
            item_id,
            rounds_left: 0,
            done: true,
            rounds_total: 2,
        });
    }
    store.next_taken_id = 4;

    store.delete(first.id).unwrap();

    assert_eq!(store.takens.len(), 1);
    assert_eq!(store.takens[0].item_id, second.id);
    assert_eq!(store.find_by_id(first.id), Err(ModelError::NotFound));
    assert!(store.find_by_id(second.id).is_ok());
}
