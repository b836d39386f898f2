use grocery_list::constants::{DEFAULT_CATEGORY_ID, DEFAULT_CATEGORY_NAME};
use grocery_list::database::Database;
use grocery_list::ledger::StoreError;
use grocery_list::models::{
    ApiGroceryListEntry, CreateCategory, CreateGroceryListEntry, GroceryListEntry,
    ReorderCategory, ReorderEntry, UpdateCategory, UpdateGroceryListEntry,
};

fn plain(description: &str) -> CreateGroceryListEntry {
    CreateGroceryListEntry {
        description: description.to_string(),
        position: None,
        quantity: None,
        notes: None,
        category_id: None,
    }
}

fn in_category(description: &str, category_id: i64) -> CreateGroceryListEntry {
    CreateGroceryListEntry { category_id: Some(category_id), ..plain(description) }
}

fn no_edit() -> UpdateGroceryListEntry {
    UpdateGroceryListEntry {
        description: None,
        completed: None,
        quantity: None,
        notes: None,
        category_id: None,
        position: None,
    }
}

fn category(db: &mut Database, name: &str) -> i64 {
    db.create_category(CreateCategory { name: name.to_string() }, 0).unwrap().id
}

fn positions(db: &Database, category_id: i64) -> Vec<(i64, String)> {
    db.get_active_entries()
        .into_iter()
        .filter(|e| e.category_id == category_id)
        .map(|e| (e.position, e.description))
        .collect()
}

fn dense(db: &Database) -> bool {
    let entries = db.get_active_entries();
    let mut categories: Vec<i64> = entries.iter().map(|e| e.category_id).collect();
    categories.sort();
    categories.dedup();
    let entries_dense = categories.iter().all(|c| {
        let mut p: Vec<i64> =
            entries.iter().filter(|e| e.category_id == *c).map(|e| e.position).collect();
        p.sort();
        p.iter().enumerate().all(|(i, x)| *x == i as i64 + 1)
    });
    let categories_dense = db
        .get_all_categories()
        .iter()
        .enumerate()
        .all(|(i, c)| c.position == i as i64 + 1);
    entries_dense && categories_dense
}

#[test]
fn a_new_repository_holds_the_default_category() {
    let db = Database::new(42);
    let categories = db.get_all_categories();
    assert_eq!(categories.len(), 1);
    assert_eq!(categories[0].id, DEFAULT_CATEGORY_ID);
    assert_eq!(categories[0].id, 1);
    assert_eq!(categories[0].name, DEFAULT_CATEGORY_NAME);
    assert_eq!(categories[0].name, "Uncategorized");
    assert!(categories[0].is_default_category);
    assert_eq!(categories[0].position, 1);
    assert_eq!(categories[0].updated_at, 42);
    assert!(db.get_active_entries().is_empty());
    assert_eq!(db.get_next_position_for_category(), 2);
    assert_eq!(db.get_next_position_for_item_in_category(1), 1);
}

#[test]
fn create_entry_fills_in_what_the_request_leaves_out() {
    let mut db = Database::new(0);
    let e = db.create_entry(plain("Milk"), 7).unwrap();
    assert_eq!(e.id, 1);
    assert_eq!(e.description, "Milk");
    assert_eq!(e.quantity, "");
    assert_eq!(e.notes, "");
    assert_eq!(e.category_id, DEFAULT_CATEGORY_ID);
    assert_eq!(e.position, 1);
    assert_eq!(e.completed_at, None);
    assert_eq!(e.updated_at, 7);
    let e = db
        .create_entry(
            CreateGroceryListEntry {
                description: "Eggs".to_string(),
                position: None,
                quantity: Some("12".to_string()),
                notes: Some("large".to_string()),
                category_id: None,
            },
            8,
        )
        .unwrap();
    assert_eq!((e.id, e.position, e.category_id), (2, 2, 1));
    assert_eq!(e.quantity, "12");
    assert_eq!(e.notes, "large");
    assert_eq!(db.get_entry(2).unwrap().description, "Eggs");
}

#[test]
fn create_entry_goes_where_the_description_was_last_put() {
    let mut db = Database::new(0);
    let dairy = category(&mut db, "Dairy");
    let other = category(&mut db, "Other");
    db.create_entry(in_category("Milk", dairy), 10).unwrap();
    db.create_entry(in_category("Milk", other), 20).unwrap();
    db.create_entry(in_category("Soap", other), 30).unwrap();
    assert_eq!(db.get_last_category_for_description("Milk"), Some(other));
    assert_eq!(db.get_last_category_for_description("Soap"), Some(other));
    assert_eq!(db.get_last_category_for_description("milk"), None);
    let e = db.create_entry(plain("Milk"), 40).unwrap();
    assert_eq!(e.category_id, other);
    assert_eq!(e.position, 3);
    // the first entry is edited last: its category is the one now
    db.update_entry(1, UpdateGroceryListEntry { notes: Some("2%".to_string()), ..no_edit() }, 50)
        .unwrap();
    assert_eq!(db.get_last_category_for_description("Milk"), Some(dairy));
    let e = db.create_entry(plain("Nuts"), 60).unwrap();
    assert_eq!(e.category_id, DEFAULT_CATEGORY_ID);
    assert!(dense(&db));
}

#[test]
fn create_entry_at_a_taken_place_is_refused() {
    let mut db = Database::new(0);
    db.create_entry(plain("Milk"), 1).unwrap();
    let r = db.create_entry(
        CreateGroceryListEntry { position: Some(1), ..plain("Eggs") },
        2,
    );
    assert_eq!(r.err(), Some(StoreError::ConstraintViolation));
    assert_eq!(positions(&db, 1), vec![(1, "Milk".to_string())]);
    for position in [i64::MAX, 0, -1, 3, i64::MIN] {
        let r = db.create_entry(
            CreateGroceryListEntry { position: Some(position), ..plain("Eggs") },
            2,
        );
        assert_eq!(r.err(), Some(StoreError::ConstraintViolation));
    }
    assert_eq!(positions(&db, 1), vec![(1, "Milk".to_string())]);
    assert_eq!(db.get_next_position_for_item_in_category(1), 2);
    let e = db
        .create_entry(CreateGroceryListEntry { position: Some(2), ..plain("Eggs") }, 3)
        .unwrap();
    assert_eq!((e.id, e.position), (2, 2));
}

#[test]
fn update_entry_edits_fields_and_moves_in_one_step() {
    let mut db = Database::new(0);
    let c = category(&mut db, "C");
    let d = category(&mut db, "D");
    db.create_entry(in_category("Milk", c), 1).unwrap();
    let eggs = db.create_entry(in_category("Eggs", c), 1).unwrap();
    db.create_entry(in_category("Bread", c), 1).unwrap();
    db.create_entry(in_category("Cheese", d), 1).unwrap();
    let r = db
        .update_entry(
            eggs.id,
            UpdateGroceryListEntry {
                description: Some("Brown eggs".to_string()),
                completed: Some(true),
                quantity: Some("6".to_string()),
                notes: None,
                category_id: Some(d),
                position: Some(2),
            },
            99,
        )
        .unwrap()
        .unwrap();
    assert_eq!(r.description, "Brown eggs");
    assert_eq!(r.quantity, "6");
    assert_eq!(r.notes, "");
    assert_eq!(r.completed_at, Some(99));
    assert_eq!(r.updated_at, 99);
    assert_eq!((r.category_id, r.position), (d, 2));
    assert_eq!(positions(&db, c), vec![(1, "Milk".to_string()), (2, "Bread".to_string())]);
    assert_eq!(positions(&db, d), vec![(1, "Cheese".to_string()), (2, "Brown eggs".to_string())]);
    assert!(dense(&db));
    // only a category: the head of its list
    let r = db
        .update_entry(eggs.id, UpdateGroceryListEntry { category_id: Some(c), ..no_edit() }, 100)
        .unwrap()
        .unwrap();
    assert_eq!((r.category_id, r.position), (c, 1));
    assert_eq!(r.completed_at, Some(99));
    // only a position: in its own category
    let r = db
        .update_entry(eggs.id, UpdateGroceryListEntry { position: Some(3), ..no_edit() }, 101)
        .unwrap()
        .unwrap();
    assert_eq!((r.category_id, r.position), (c, 3));
    // completion is cleared
    let r = db
        .update_entry(eggs.id, UpdateGroceryListEntry { completed: Some(false), ..no_edit() }, 102)
        .unwrap()
        .unwrap();
    assert_eq!(r.completed_at, None);
    assert_eq!((r.category_id, r.position, r.updated_at), (c, 3, 102));
    assert!(dense(&db));
}

#[test]
fn update_entry_of_an_unknown_id_is_not_found() {
    let mut db = Database::new(0);
    db.create_entry(plain("Milk"), 1).unwrap();
    let r = db.update_entry(5, UpdateGroceryListEntry { position: Some(1), ..no_edit() }, 2);
    assert!(r.unwrap().is_none());
    let r = db.update_entry(5, no_edit(), 2);
    assert!(r.unwrap().is_none());
    let r = db.reorder_entries(ReorderEntry { id: 5, new_position: None, new_category_id: None });
    assert_eq!(r, Err(StoreError::NotFound));
    assert_eq!(db.get_entry(5).err(), Some(StoreError::NotFound));
    assert_eq!(db.get_category(5).err(), Some(StoreError::NotFound));
    assert_eq!(db.get_entry(1).unwrap().updated_at, 1);
}

#[test]
fn a_position_outside_the_list_is_refused() {
    let mut db = Database::new(0);
    let c = category(&mut db, "C");
    let d = category(&mut db, "D");
    db.create_entry(in_category("Milk", c), 1).unwrap();
    db.create_entry(in_category("Eggs", c), 1).unwrap();
    db.create_entry(in_category("Cheese", d), 1).unwrap();
    let before = positions(&db, c);
    for (new_position, new_category_id) in [
        (Some(0), None),
        (Some(-3), None),
        (Some(3), None),
        (Some(0), Some(d)),
        (Some(3), Some(d)),
        (Some(2), Some(99)),
        (Some(i64::MAX), None),
    ] {
        let r = db.reorder_entries(ReorderEntry { id: 1, new_position, new_category_id });
        assert_eq!(r, Err(StoreError::ConstraintViolation));
        let r = db.update_entry(
            1,
            UpdateGroceryListEntry {
                description: Some("edited".to_string()),
                position: new_position,
                category_id: new_category_id,
                ..no_edit()
            },
            9,
        );
        assert_eq!(r.err(), Some(StoreError::ConstraintViolation));
        assert_eq!(positions(&db, c), before);
        assert_eq!(db.get_entry(1).unwrap().updated_at, 1);
    }
    for new_position in [0, -1, 4, i64::MAX] {
        assert_eq!(
            db.reorder_categories(ReorderCategory { id: c, new_position }),
            Err(StoreError::ConstraintViolation)
        );
    }
    // the ends of the lists are within them
    assert_eq!(
        db.reorder_entries(ReorderEntry { id: 1, new_position: Some(2), new_category_id: None }),
        Ok(())
    );
    assert_eq!(
        db.reorder_entries(ReorderEntry { id: 1, new_position: Some(2), new_category_id: Some(d) }),
        Ok(())
    );
    assert_eq!(
        db.reorder_entries(ReorderEntry { id: 2, new_position: Some(1), new_category_id: Some(99) }),
        Ok(())
    );
    assert_eq!(db.reorder_categories(ReorderCategory { id: c, new_position: 3 }), Ok(()));
    assert!(dense(&db));
    assert!(db.get_active_entries().iter().all(|e| e.position >= 1));
}

#[test]
fn a_second_set_up_adds_no_category() {
    let mut db = Database::new(5);
    assert_eq!(db.migrate(6), Ok(()));
    assert_eq!(db.migrate(7), Ok(()));
    let categories = db.get_all_categories();
    assert_eq!(categories.len(), 1);
    assert_eq!((categories[0].id, categories[0].position, categories[0].updated_at), (1, 1, 5));
    // without the default category, and with another at the head, it is refused
    let other = category(&mut db, "Other");
    assert_eq!(db.delete_category(1), Ok(true));
    assert_eq!(db.migrate(8), Err(StoreError::ConstraintViolation));
    assert_eq!(db.delete_category(other), Ok(true));
    assert_eq!(db.migrate(9), Ok(()));
    let categories = db.get_all_categories();
    assert_eq!(categories.len(), 1);
    assert_eq!((categories[0].id, categories[0].position), (3, 1));
    assert!(categories[0].is_default_category);
}

#[test]
fn categories_are_created_edited_moved_and_deleted() {
    let mut db = Database::new(0);
    let a = db.create_category(CreateCategory { name: "A".to_string() }, 5).unwrap();
    assert_eq!((a.id, a.position, a.is_default_category, a.updated_at), (2, 2, false, 5));
    assert_eq!(a.name, "A");
    let b = category(&mut db, "B");
    let c = category(&mut db, "C");
    assert_eq!(
        db.reorder_categories(ReorderCategory { id: c, new_position: 1 }),
        Ok(())
    );
    let names: Vec<(i64, String)> =
        db.get_all_categories().into_iter().map(|c| (c.position, c.name)).collect();
    assert_eq!(
        names,
        vec![
            (1, "C".to_string()),
            (2, "Uncategorized".to_string()),
            (3, "A".to_string()),
            (4, "B".to_string())
        ]
    );
    let edited =
        db.update_category(b, UpdateCategory { name: Some("Bee".to_string()) }, 9).unwrap().unwrap();
    assert_eq!((edited.id, edited.position, edited.updated_at), (b, 4, 9));
    assert_eq!(edited.name, "Bee");
    let touched = db.update_category(b, UpdateCategory { name: None }, 10).unwrap().unwrap();
    assert_eq!(touched.name, "Bee");
    assert_eq!(touched.updated_at, 10);
    assert_eq!(db.update_category(77, UpdateCategory { name: None }, 10).unwrap().map(|c| c.id), None);
    assert_eq!(db.get_category(b).unwrap().name, "Bee");
    assert_eq!(
        db.reorder_categories(ReorderCategory { id: 77, new_position: 1 }),
        Err(StoreError::NotFound)
    );
    // the entries of a deleted category stay
    let e = db.create_entry(in_category("Milk", a.id), 11).unwrap();
    assert_eq!(db.delete_category(a.id), Ok(true));
    assert_eq!(db.delete_category(a.id), Ok(false));
    let left: Vec<(i64, i64)> =
        db.get_all_categories().into_iter().map(|c| (c.position, c.id)).collect();
    assert_eq!(left, vec![(1, c), (2, 1), (3, b)]);
    assert_eq!(db.get_entry(e.id).unwrap().category_id, a.id);
    assert_eq!(db.get_next_position_for_category(), 4);
    assert!(dense(&db));
}

#[test]
fn archived_entries_are_no_longer_listed() {
    let mut db = Database::new(0);
    let day = 86400;
    db.create_entry(plain("Old"), 0).unwrap();
    db.create_entry(plain("Fresh"), 0).unwrap();
    db.create_entry(plain("Open"), 0).unwrap();
    db.update_entry(1, UpdateGroceryListEntry { completed: Some(true), ..no_edit() }, 100).unwrap();
    db.update_entry(2, UpdateGroceryListEntry { completed: Some(true), ..no_edit() }, 200).unwrap();
    db.archive_entries(100 + day);
    assert_eq!(db.get_active_entries().len(), 3);
    db.archive_entries(100 + day + 1);
    let listed: Vec<String> = db.get_active_entries().into_iter().map(|e| e.description).collect();
    assert_eq!(listed, vec!["Fresh".to_string(), "Open".to_string()]);
    db.archive_entries(i64::MIN);
    assert_eq!(db.get_active_entries().len(), 2);
    assert_eq!(db.get_entry(1).unwrap().description, "Old");
}

#[test]
fn active_entries_come_by_position() {
    let mut db = Database::new(0);
    let c = category(&mut db, "C");
    db.create_entry(in_category("c1", c), 0).unwrap();
    db.create_entry(plain("u1"), 0).unwrap();
    db.create_entry(in_category("c2", c), 0).unwrap();
    db.create_entry(plain("u2"), 0).unwrap();
    let listed: Vec<(i64, String)> =
        db.get_active_entries().into_iter().map(|e| (e.position, e.description)).collect();
    assert_eq!(
        listed,
        vec![
            (1, "c1".to_string()),
            (1, "u1".to_string()),
            (2, "c2".to_string()),
            (2, "u2".to_string())
        ]
    );
}

#[test]
fn the_api_entry_tells_completion_as_a_flag() {
    let entry = GroceryListEntry {
        id: 3,
        completed_at: Some(17),
        updated_at: 18,
        position: 2,
        quantity: "1".to_string(),
        notes: "n".to_string(),
        category_id: 5,
        description: "d".to_string(),
    };
    let api = ApiGroceryListEntry::from(&entry);
    assert!(api.completed);
    assert_eq!((api.id, api.updated_at, api.position, api.category_id), (3, 18, 2, 5));
    assert_eq!((api.quantity.as_str(), api.notes.as_str(), api.description.as_str()), ("1", "n", "d"));
    let open = GroceryListEntry { completed_at: None, ..entry };
    assert!(!ApiGroceryListEntry::from(&open).completed);
}

#[test]
fn the_requests_name_their_targets() {
    let r = ReorderEntry { id: 1, new_position: None, new_category_id: None };
    assert_eq!(r.target(9), (1, 9));
    let r = ReorderEntry { id: 1, new_position: Some(4), new_category_id: Some(2) };
    assert_eq!(r.target(9), (4, 2));
    assert!(!no_edit().must_reorder());
    assert!(UpdateGroceryListEntry { position: Some(1), ..no_edit() }.must_reorder());
    assert!(UpdateGroceryListEntry { category_id: Some(1), ..no_edit() }.must_reorder());
    assert_eq!(UpdateGroceryListEntry { category_id: Some(3), ..no_edit() }.target(9), (1, 3));
    assert_eq!(plain("x").category_or_last(None), 1);
    assert_eq!(plain("x").category_or_last(Some(4)), 4);
    assert_eq!(in_category("x", 6).category_or_last(Some(4)), 6);
}

#[test]
fn the_invariant_holds_after_every_operation() {
    let mut db = Database::new(0);
    let c = category(&mut db, "C");
    let d = category(&mut db, "D");
    assert!(dense(&db));
    for (i, name) in ["a", "b", "c", "d", "e", "f"].iter().enumerate() {
        let into = if i % 2 == 0 { c } else { d };
        db.create_entry(in_category(name, into), i as i64).unwrap();
        assert!(dense(&db));
    }
    let moves = [(1, Some(3), None), (2, None, Some(c)), (3, Some(1), Some(d)), (6, Some(2), None)];
    for (id, new_position, new_category_id) in moves {
        assert_eq!(db.reorder_entries(ReorderEntry { id, new_position, new_category_id }), Ok(()));
        assert!(dense(&db));
    }
    assert_eq!(db.delete_entry(4), Ok(true));
    assert!(dense(&db));
    assert_eq!(db.reorder_categories(ReorderCategory { id: d, new_position: 1 }), Ok(()));
    assert!(dense(&db));
    assert_eq!(db.delete_category(c), Ok(true));
    assert!(dense(&db));
}
