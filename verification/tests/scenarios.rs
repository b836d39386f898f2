use grocery_list::database::Database;
use grocery_list::ledger::StoreError;
use grocery_list::models::{
    CreateCategory, CreateGroceryListEntry, GroceryListEntry, ReorderEntry,
};

fn entry(description: &str, category_id: i64) -> CreateGroceryListEntry {
    CreateGroceryListEntry {
        description: description.to_string(),
        position: None,
        quantity: None,
        notes: None,
        category_id: Some(category_id),
    }
}

fn listing(db: &Database, category_id: i64) -> Vec<(i64, String)> {
    db.get_active_entries()
        .into_iter()
        .filter(|e: &GroceryListEntry| e.category_id == category_id)
        .map(|e| (e.position, e.description))
        .collect()
}

fn named(items: &[(i64, &str)]) -> Vec<(i64, String)> {
    items.iter().map(|(p, d)| (*p, d.to_string())).collect()
}

#[test]
fn reorder_to_the_head_of_the_same_category() {
    let mut db = Database::new(0);
    let c = db.create_category(CreateCategory { name: "C".to_string() }, 0).unwrap().id;
    db.create_entry(entry("Milk", c), 1).unwrap();
    db.create_entry(entry("Eggs", c), 2).unwrap();
    let bread = db.create_entry(entry("Bread", c), 3).unwrap();
    assert_eq!(listing(&db, c), named(&[(1, "Milk"), (2, "Eggs"), (3, "Bread")]));

    let r = db.reorder_entries(ReorderEntry {
        id: bread.id,
        new_position: Some(1),
        new_category_id: None,
    });
    assert_eq!(r, Ok(()));
    assert_eq!(listing(&db, c), named(&[(1, "Bread"), (2, "Milk"), (3, "Eggs")]));
}

#[test]
fn reorder_into_another_category_without_a_position() {
    let mut db = Database::new(0);
    let c = db.create_category(CreateCategory { name: "C".to_string() }, 0).unwrap().id;
    let d = db.create_category(CreateCategory { name: "D".to_string() }, 0).unwrap().id;
    db.create_entry(entry("Milk", c), 1).unwrap();
    let eggs = db.create_entry(entry("Eggs", c), 2).unwrap();
    db.create_entry(entry("Cheese", d), 3).unwrap();

    let r = db.reorder_entries(ReorderEntry {
        id: eggs.id,
        new_position: None,
        new_category_id: Some(d),
    });
    assert_eq!(r, Ok(()));
    assert_eq!(listing(&db, d), named(&[(1, "Eggs"), (2, "Cheese")]));
    assert_eq!(listing(&db, c), named(&[(1, "Milk")]));
}

#[test]
fn create_without_a_position_appends() {
    let mut db = Database::new(0);
    let c = db.create_category(CreateCategory { name: "C".to_string() }, 0).unwrap().id;
    db.create_entry(entry("Milk", c), 1).unwrap();
    db.create_entry(entry("Eggs", c), 2).unwrap();
    db.create_entry(entry("Jam", c), 3).unwrap();
    let bread = db.create_entry(entry("Bread", c), 4).unwrap();
    assert_eq!(bread.position, 4);
    assert_eq!(bread.category_id, c);
    assert_eq!(db.get_next_position_for_item_in_category(c), 5);
}

#[test]
fn delete_closes_the_gap() {
    let mut db = Database::new(0);
    let c = db.create_category(CreateCategory { name: "C".to_string() }, 0).unwrap().id;
    db.create_entry(entry("Milk", c), 1).unwrap();
    let eggs = db.create_entry(entry("Eggs", c), 2).unwrap();
    db.create_entry(entry("Bread", c), 3).unwrap();
    assert_eq!(db.delete_entry(eggs.id), Ok(true));
    assert_eq!(listing(&db, c), named(&[(1, "Milk"), (2, "Bread")]));
    assert_eq!(db.delete_entry(eggs.id), Ok(false));
    assert_eq!(db.get_entry(eggs.id).err(), Some(StoreError::NotFound));
}
