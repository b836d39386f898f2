use grocery_list::ledger::Statement;
use grocery_list::models::{UpdateCategory, UpdateGroceryListEntry};
use grocery_list::sql::{
    create_category_query, create_entry_query, statement_query, update_category_query,
    update_entry_query, Bind, Table,
};
use grocery_list::webhook::{
    plan_delivery, repository_name, signature_digits, verify_signature, Delivery,
};

const TAG: &str = "5bdcc146bf60754e6a042426089575c75a003f089d2739839dec58b964ec3843";

#[test]
fn a_signature_is_the_tag_in_hexadecimal_digits() {
    let payload = b"what do ya want for nothing?";
    assert!(verify_signature("Jefe", payload, &format!("sha256={}", TAG)));
    assert!(verify_signature("Jefe", payload, &format!("sha256={}", TAG.to_uppercase())));
    assert!(!verify_signature("Jefe", payload, TAG));
    assert!(!verify_signature("Jefe", payload, &format!("sha1={}", TAG)));
    assert!(!verify_signature("jefe", payload, &format!("sha256={}", TAG)));
    assert!(!verify_signature("Jefe", b"what do ya want?", &format!("sha256={}", TAG)));
    assert!(!verify_signature("Jefe", payload, &format!("sha256={}", &TAG[..62])));
    assert!(!verify_signature("Jefe", payload, &format!("sha256={}", &TAG[..63])));
    assert!(!verify_signature("Jefe", payload, &format!("sha256={}00", TAG)));
    assert!(!verify_signature("Jefe", payload, &format!("sha256={}", TAG.replace('5', "g"))));
    assert!(!verify_signature("Jefe", payload, "sha256="));
    assert!(!verify_signature("Jefe", payload, ""));
    assert!(!verify_signature("", payload, &format!("sha256={}", TAG)));
}

#[test]
fn the_digits_stand_behind_the_prefix() {
    assert_eq!(signature_digits("sha256=abc"), Some("abc".to_string()));
    assert_eq!(signature_digits("sha256="), Some("".to_string()));
    assert_eq!(signature_digits("sha256"), None);
    assert_eq!(signature_digits("SHA256=abc"), None);
    assert_eq!(signature_digits(""), None);
}

#[test]
fn a_delivery_is_looked_at_in_order() {
    let full = "theryangeary/www";
    assert_eq!(plan_delivery(false, "package", full, Some("0e2a89b")), Delivery::Unauthorized);
    assert_eq!(plan_delivery(true, "push", full, Some("0e2a89b")), Delivery::Ignored);
    assert_eq!(plan_delivery(true, "", full, Some("0e2a89b")), Delivery::Ignored);
    assert_eq!(plan_delivery(true, "package", "theryangeary/", Some("t")), Delivery::NoRepository);
    assert_eq!(plan_delivery(true, "package", "", Some("t")), Delivery::NoRepository);
    assert_eq!(plan_delivery(true, "package", full, None), Delivery::NoImageTag);
    assert_eq!(plan_delivery(true, "package", full, Some("")), Delivery::NoImageTag);
    assert_eq!(
        plan_delivery(true, "package", full, Some("0e2a89b")),
        Delivery::Update {
            image: "ghcr.io/theryangeary/www:0e2a89b".to_string(),
            service: "homelab_www".to_string(),
        }
    );
    assert_eq!(
        plan_delivery(true, "package", "www", Some("v1")),
        Delivery::Update {
            image: "ghcr.io/www:v1".to_string(),
            service: "homelab_www".to_string(),
        }
    );
    assert_eq!(repository_name("a/b/c"), "c");
    assert_eq!(repository_name("abc"), "abc");
    assert_eq!(repository_name("abc/"), "");
}

fn ints(values: &[i64]) -> Vec<Bind> {
    values.iter().map(|v| Bind::Integer(*v)).collect()
}

#[test]
fn statements_as_queries_on_the_entries() {
    let q = statement_query(Table::Entries, Statement::SetPosition { id: 5, position: 0 }).unwrap();
    assert_eq!(q.text, "UPDATE grocery_list_entries SET position = ? WHERE id = ?");
    assert_eq!(q.binds, ints(&[0, 5]));
    let q = statement_query(
        Table::Entries,
        Statement::SetLocation { id: 5, position: 2, scope: 7 },
    )
    .unwrap();
    assert_eq!(
        q.text,
        "UPDATE grocery_list_entries SET position = ?, category_id = ? WHERE id = ?"
    );
    assert_eq!(q.binds, ints(&[2, 7, 5]));
    let q = statement_query(
        Table::Entries,
        Statement::ShiftAfter { scope: 7, after: 3, delta: 99999 },
    )
    .unwrap();
    assert_eq!(
        q.text,
        "UPDATE grocery_list_entries SET position = position + ? WHERE position > ? AND category_id = ?"
    );
    assert_eq!(q.binds, ints(&[99999, 3, 7]));
    let q = statement_query(
        Table::Entries,
        Statement::ShiftFrom { scope: 7, from: 3, delta: -99999 },
    )
    .unwrap();
    assert_eq!(
        q.text,
        "UPDATE grocery_list_entries SET position = position + ? WHERE position >= ? AND category_id = ?"
    );
    assert_eq!(q.binds, ints(&[-99999, 3, 7]));
    let q = statement_query(Table::Entries, Statement::Delete { id: 5 }).unwrap();
    assert_eq!(q.text, "DELETE FROM grocery_list_entries WHERE id = ?");
    assert_eq!(q.binds, ints(&[5]));
    assert_eq!(
        statement_query(Table::Entries, Statement::Insert { id: 1, position: 1, scope: 1 }),
        None
    );
}

#[test]
fn statements_as_queries_on_the_categories() {
    let q = statement_query(
        Table::Categories,
        Statement::SetLocation { id: 5, position: 2, scope: 0 },
    )
    .unwrap();
    assert_eq!(q.text, "UPDATE categories SET position = ? WHERE id = ?");
    assert_eq!(q.binds, ints(&[2, 5]));
    let q = statement_query(
        Table::Categories,
        Statement::ShiftAfter { scope: 0, after: 3, delta: -100000 },
    )
    .unwrap();
    assert_eq!(q.text, "UPDATE categories SET position = position + ? WHERE position > ?");
    assert_eq!(q.binds, ints(&[-100000, 3]));
    let q = statement_query(
        Table::Categories,
        Statement::ShiftFrom { scope: 0, from: 3, delta: 100000 },
    )
    .unwrap();
    assert_eq!(q.text, "UPDATE categories SET position = position + ? WHERE position >= ?");
    assert_eq!(q.binds, ints(&[100000, 3]));
    let q = statement_query(Table::Categories, Statement::Delete { id: 5 }).unwrap();
    assert_eq!(q.text, "DELETE FROM categories WHERE id = ?");
}

#[test]
fn requests_as_queries() {
    let entry_fields =
        "id, description, completed_at, archived_at, position, quantity, notes, category_id, updated_at";
    let q = create_entry_query("Milk".to_string(), 4, "2".to_string(), "".to_string(), 7);
    assert_eq!(
        q.text,
        format!(
            "INSERT INTO grocery_list_entries (description, position, quantity, notes, category_id) VALUES (?, ?, ?, ?, ?) RETURNING {}",
            entry_fields
        )
    );
    assert_eq!(
        q.binds,
        vec![
            Bind::Text("Milk".to_string()),
            Bind::Integer(4),
            Bind::Text("2".to_string()),
            Bind::Text("".to_string()),
            Bind::Integer(7)
        ]
    );
    let q = create_category_query("Dairy".to_string(), 3);
    assert_eq!(
        q.text,
        "INSERT INTO categories (name, position) VALUES (?, ?) RETURNING id, name, is_default_category, position, updated_at"
    );
    assert_eq!(q.binds, vec![Bind::Text("Dairy".to_string()), Bind::Integer(3)]);

    let all = UpdateGroceryListEntry {
        description: Some("d".to_string()),
        completed: Some(true),
        quantity: Some("q".to_string()),
        notes: Some("n".to_string()),
        category_id: Some(1),
        position: Some(2),
    };
    let q = update_entry_query(9, &all);
    assert_eq!(
        q.text,
        format!(
            "UPDATE grocery_list_entries SET description = ?,completed_at = CURRENT_TIMESTAMP,quantity = ?,notes = ?,updated_at = CURRENT_TIMESTAMP WHERE id = ? RETURNING {}",
            entry_fields
        )
    );
    assert_eq!(
        q.binds,
        vec![
            Bind::Text("d".to_string()),
            Bind::Text("q".to_string()),
            Bind::Text("n".to_string()),
            Bind::Integer(9)
        ]
    );
    let some = UpdateGroceryListEntry {
        description: None,
        completed: Some(false),
        quantity: None,
        notes: Some("n".to_string()),
        category_id: None,
        position: None,
    };
    let q = update_entry_query(9, &some);
    assert_eq!(
        q.text,
        format!(
            "UPDATE grocery_list_entries SET completed_at = NULL,notes = ?,updated_at = CURRENT_TIMESTAMP WHERE id = ? RETURNING {}",
            entry_fields
        )
    );
    assert_eq!(q.binds, vec![Bind::Text("n".to_string()), Bind::Integer(9)]);
    let none = UpdateGroceryListEntry { completed: None, notes: None, ..some };
    let q = update_entry_query(9, &none);
    assert_eq!(
        q.text,
        format!(
            "UPDATE grocery_list_entries SET updated_at = CURRENT_TIMESTAMP WHERE id = ? RETURNING {}",
            entry_fields
        )
    );
    let q = update_category_query(3, &UpdateCategory { name: Some("x".to_string()) });
    assert_eq!(
        q.text,
        "UPDATE categories SET name = ?,updated_at = CURRENT_TIMESTAMP WHERE id = ? RETURNING id, name, is_default_category, position, updated_at"
    );
    assert_eq!(q.binds, vec![Bind::Text("x".to_string()), Bind::Integer(3)]);
    let q = update_category_query(3, &UpdateCategory { name: None });
    assert_eq!(
        q.text,
        "UPDATE categories SET updated_at = CURRENT_TIMESTAMP WHERE id = ? RETURNING id, name, is_default_category, position, updated_at"
    );
    assert_eq!(q.binds, vec![Bind::Integer(3)]);
}
