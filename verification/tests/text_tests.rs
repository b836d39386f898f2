use grocery_list::assets::{asset_path, static_route, StaticRoute};
use grocery_list::constants::{all_fields, CATEGORIES_FIELDS, GROCERY_LIST_ENTRIES_FIELDS};
use grocery_list::database::Database;
use grocery_list::entry_input::{
    normalize_create, normalize_create_with, normalize_update, normalize_update_with,
    crosses, parse_entry_input, parse_entry_with, take_notes,
};
use grocery_list::models::{CreateGroceryListEntry, UpdateGroceryListEntry};
use grocery_list::suggestions::{
    render_suggestion, split_quantity, split_quantity_with, suggest, top_matches,
};
use grocery_list::text::{
    find_last, find_text, less, mark_numeric, mark_whitespace, skip_clear, skip_marked,
    starts_with, to_chars, trim_bounds,
};

fn chars(s: &str) -> Vec<char> {
    s.chars().collect()
}

fn strings(items: &[&str]) -> Vec<String> {
    items.iter().map(|s| s.to_string()).collect()
}

fn triple(a: &str, b: &str, c: &str) -> (String, String, String) {
    (a.to_string(), b.to_string(), c.to_string())
}

#[test]
fn all_fields_joins_with_comma_and_space() {
    assert_eq!(all_fields(&[]), "");
    assert_eq!(all_fields(&["id"]), "id");
    assert_eq!(all_fields(&["id", "name"]), "id, name");
    assert_eq!(
        all_fields(&GROCERY_LIST_ENTRIES_FIELDS),
        "id, description, completed_at, archived_at, position, quantity, notes, category_id, updated_at"
    );
    assert_eq!(
        all_fields(&CATEGORIES_FIELDS),
        "id, name, is_default_category, position, updated_at"
    );
}

#[test]
fn texts_are_ordered_by_code_point() {
    assert!(less(&chars("a"), &chars("b")));
    assert!(less(&chars(""), &chars("a")));
    assert!(less(&chars("ab"), &chars("abc")));
    assert!(less(&chars("Zebra"), &chars("apple")));
    assert!(less(&chars("abd"), &chars("abe")));
    assert!(!less(&chars("abc"), &chars("abc")));
    assert!(!less(&chars("b"), &chars("a")));
    assert!(!less(&chars("a"), &chars("")));
    assert!(less(&chars("z"), &chars("é")));
}

#[test]
fn prefixes_and_places() {
    assert!(starts_with(&chars("Milk"), &chars("Mi")));
    assert!(starts_with(&chars("Milk"), &chars("")));
    assert!(starts_with(&chars("Milk"), &chars("Milk")));
    assert!(!starts_with(&chars("Milk"), &chars("mi")));
    assert!(!starts_with(&chars("Mi"), &chars("Milk")));
    assert_eq!(to_chars("héllo"), chars("héllo"));
    assert_eq!(find_text(&chars("a - b - c"), &chars(" - ")), Some(1));
    assert_eq!(find_text(&chars("a-b"), &chars(" - ")), None);
    assert_eq!(find_text(&chars("ab"), &chars("abc")), None);
    assert_eq!(find_text(&chars("ab"), &chars("")), Some(0));
    assert_eq!(find_text(&chars("xxab"), &chars("ab")), Some(2));
    assert_eq!(find_last(&chars("a)b)c"), ')'), Some(3));
    assert_eq!(find_last(&chars("abc"), ')'), None);
}

fn space(s: &str) -> Vec<bool> {
    s.chars().map(|c| c == ' ').collect()
}

#[test]
fn characters_are_marked_as_std_classes_them() {
    assert_eq!(
        mark_whitespace(&chars("a b\tc\u{a0}\u{2003}d")),
        vec![false, true, false, true, false, true, true, false]
    );
    assert_eq!(
        mark_numeric(&chars("1a٣ ¾x")),
        vec![true, false, true, false, true, false]
    );
    assert_eq!(mark_whitespace(&chars("")), Vec::<bool>::new());
}

#[test]
fn marked_places_are_skipped_and_trimmed() {
    let marks = vec![true, true, false, false, true, false, true, true];
    assert_eq!(skip_marked(&marks, 0, 8), 2);
    assert_eq!(skip_marked(&marks, 2, 8), 2);
    assert_eq!(skip_marked(&marks, 6, 8), 8);
    assert_eq!(skip_marked(&marks, 0, 1), 1);
    assert_eq!(skip_clear(&marks, 2, 8), 4);
    assert_eq!(skip_clear(&marks, 0, 8), 0);
    assert_eq!(skip_clear(&marks, 5, 6), 6);
    assert_eq!(trim_bounds(&marks, 0, 8), (2, 6));
    assert_eq!(trim_bounds(&marks, 3, 5), (3, 4));
    assert_eq!(trim_bounds(&marks, 6, 8), (8, 8));
    assert_eq!(trim_bounds(&marks, 0, 2), (2, 2));
    assert_eq!(trim_bounds(&marks, 4, 4), (4, 4));
    assert_eq!(trim_bounds(&vec![false, false], 0, 2), (0, 2));
}

#[test]
fn a_query_is_split_by_its_marks() {
    let q = " 2x  red ap";
    let numeric: Vec<bool> = q.chars().map(|c| c == '2').collect();
    assert_eq!(
        split_quantity_with(q, &space(q), &numeric),
        ("2x".to_string(), "red ap".to_string())
    );
    let none = vec![false; q.chars().count()];
    assert_eq!(split_quantity_with(q, &space(q), &none), ("".to_string(), q.to_string()));
    // marks decide, whatever the characters are
    let odd = "ab cd";
    assert_eq!(
        split_quantity_with(
            odd,
            &vec![false, true, false, false, false],
            &vec![true, false, false, false, false]
        ),
        ("a".to_string(), " cd".to_string())
    );
    assert_eq!(split_quantity_with("", &vec![], &vec![]), ("".to_string(), "".to_string()));
}

#[test]
fn a_query_is_split_into_quantity_and_pattern() {
    assert_eq!(split_quantity("2 apples"), ("2".to_string(), "apples".to_string()));
    assert_eq!(split_quantity("apples"), ("".to_string(), "apples".to_string()));
    assert_eq!(split_quantity("  3x  Mi"), ("3x".to_string(), "Mi".to_string()));
    assert_eq!(split_quantity("2 red ap"), ("2".to_string(), "red ap".to_string()));
    assert_eq!(split_quantity("2   red  ap "), ("2".to_string(), "red  ap ".to_string()));
    assert_eq!(split_quantity("2"), ("2".to_string(), "".to_string()));
    assert_eq!(split_quantity(""), ("".to_string(), "".to_string()));
    assert_eq!(split_quantity("   "), ("".to_string(), "   ".to_string()));
    assert_eq!(split_quantity(" apples 2"), ("".to_string(), " apples 2".to_string()));
    assert_eq!(split_quantity("٣ تفاح"), ("٣".to_string(), "تفاح".to_string()));
    assert_eq!(split_quantity("2\u{2003}kg"), ("2".to_string(), "kg".to_string()));
}

#[test]
fn suggestions_are_the_first_ten_matches_in_order() {
    let all = strings(&["Milk", "Mango", "milk", "", "Melon", "Milk", "Apple", "Miso"]);
    assert_eq!(suggest(&all, "M"), strings(&["Mango", "Melon", "Milk", "Miso"]));
    assert_eq!(suggest(&all, "2 Mi"), strings(&["2 Milk", "2 Miso"]));
    assert_eq!(suggest(&all, "m"), strings(&["milk"]));
    assert_eq!(suggest(&all, "x"), Vec::<String>::new());
    assert_eq!(
        suggest(&all, ""),
        strings(&["Apple", "Mango", "Melon", "Milk", "Miso", "milk"])
    );
    assert_eq!(suggest(&all, "12kg"), strings(&[
        "12kg Apple", "12kg Mango", "12kg Melon", "12kg Milk", "12kg Miso", "12kg milk"
    ]));
    let many: Vec<String> = (0..12).rev().map(|i| format!("item{:02}", i)).collect();
    let expected: Vec<String> = (0..10).map(|i| format!("item{:02}", i)).collect();
    assert_eq!(suggest(&many, "item"), expected);
    assert_eq!(suggest(&many, "item1"), strings(&["item10", "item11"]));
    assert_eq!(suggest(&strings(&["green apples"]), "2 green ap"), strings(&["2 green apples"]));
    assert_eq!(suggest(&strings(&["green apples"]), "2 greenap"), Vec::<String>::new());
    assert_eq!(suggest(&strings(&["milk", "bread"]), "mi"), strings(&["milk"]));
    assert_eq!(render_suggestion("2", "Milk"), "2 Milk");
    assert_eq!(render_suggestion("", "Milk"), "Milk");
    let picks = top_matches(&vec![chars("b"), chars("a"), chars("b"), chars("c")], &chars(""));
    assert_eq!(picks.len(), 3);
    assert_eq!(picks[1..], [0, 3][..]);
    assert_eq!(picks[0], 1);
}

#[test]
fn the_repository_suggests_from_its_descriptions() {
    let mut db = Database::new(0);
    for d in ["Milk", "Mango", "Milk", "Bread"] {
        db.create_entry(
            CreateGroceryListEntry {
                description: d.to_string(),
                position: None,
                quantity: None,
                notes: None,
                category_id: None,
            },
            0,
        )
        .unwrap();
    }
    assert_eq!(db.get_suggestions("3 M"), strings(&["3 Mango", "3 Milk"]));
    assert_eq!(db.get_suggestions("Br"), strings(&["Bread"]));
}

#[test]
fn what_is_typed_is_taken_apart() {
    assert_eq!(parse_entry_input("2kg apples - red ones"), Some(triple("2kg", "apples", "red ones")));
    assert_eq!(parse_entry_input("milk"), Some(triple("", "milk", "")));
    assert_eq!(parse_entry_input("  milk  "), Some(triple("", "milk", "")));
    assert_eq!(parse_entry_input("3 eggs (large)"), Some(triple("3", "eggs", "large")));
    assert_eq!(parse_entry_input("eggs (large) "), Some(triple("", "eggs", "large")));
    assert_eq!(parse_entry_input("bread (fresh"), Some(triple("", "bread (fresh", "")));
    assert_eq!(parse_entry_input("2 x"), Some(triple("2", "x", "")));
    assert_eq!(parse_entry_input("2KG apples"), Some(triple("", "2KG apples", "")));
    assert_eq!(parse_entry_input("12"), Some(triple("", "12", "")));
    assert_eq!(parse_entry_input("tea - green - loose"), Some(triple("", "tea", "green - loose")));
    assert_eq!(parse_entry_input("1 tea - (x)"), Some(triple("1", "tea", "(x)")));
    assert_eq!(parse_entry_input("a) (b"), None);
    assert_eq!(parse_entry_input("3 a) (b"), None);
    assert_eq!(parse_entry_input("a) (b - c"), Some(triple("", "a) (b", "c")));
    assert_eq!(parse_entry_input("4 fish (a) (b)"), Some(triple("4", "fish", "a) (b")));
    assert_eq!(parse_entry_input(""), Some(triple("", "", "")));
}

#[test]
fn the_parts_follow_from_what_the_pattern_captured() {
    let rest = "nuts - salted";
    assert_eq!(
        parse_entry_with("ignored", Some(("9".to_string(), rest.to_string())), &space(rest)),
        triple("9", "nuts", "salted")
    );
    let rest = " nuts ";
    assert_eq!(
        parse_entry_with("ignored", Some(("9".to_string(), rest.to_string())), &space(rest)),
        triple("9", "nuts", "")
    );
    let input = " nuts (raw) ";
    assert_eq!(parse_entry_with(input, None, &space(input)), triple("", "nuts", "raw"));
    let input = " nuts ";
    assert_eq!(parse_entry_with(input, None, &space(input)), triple("", "nuts", ""));
    let rest = "a  -  b";
    assert_eq!(
        take_notes("1".to_string(), rest, &space(rest), "p".to_string()),
        triple("1", "a", "b")
    );
    let rest = "a (b) (c)";
    assert_eq!(
        take_notes("".to_string(), rest, &space(rest), "p".to_string()),
        triple("", "a", "b) (c")
    );
    assert!(crosses("a) (b"));
    assert!(crosses("a)b (c"));
    assert!(!crosses("a (b)"));
    assert!(!crosses("a ()"));
    assert!(!crosses("a) (b - c"));
    assert!(!crosses("a (b"));
    assert!(!crosses("a) b"));
    assert!(!crosses(""));
    let rest = "a (b";
    assert_eq!(
        take_notes("".to_string(), rest, &space(rest), "p".to_string()),
        triple("", "p", "")
    );
}

#[test]
fn requests_follow_from_the_parts() {
    let typed = CreateGroceryListEntry {
        description: "typed".to_string(),
        position: Some(3),
        quantity: None,
        notes: None,
        category_id: None,
    };
    let n = normalize_create_with(typed.clone(), triple("", "d", "n"));
    assert_eq!((n.description.as_str(), n.quantity, n.notes), ("d", None, Some("n".to_string())));
    assert_eq!(n.position, Some(3));
    let n = normalize_create_with(
        CreateGroceryListEntry { notes: Some("".to_string()), ..typed },
        triple("q", "d", "n"),
    );
    assert_eq!((n.description.as_str(), n.quantity, n.notes), ("typed", None, Some("".to_string())));
    let edit = UpdateGroceryListEntry {
        description: None,
        completed: None,
        quantity: None,
        notes: None,
        category_id: Some(2),
        position: None,
    };
    let n = normalize_update_with(edit.clone(), triple("q", "d", "n"));
    assert_eq!((n.description, n.quantity, n.notes, n.category_id), (None, None, None, Some(2)));
    let n = normalize_update_with(
        UpdateGroceryListEntry { description: Some("x".to_string()), ..edit },
        triple("q", "d", ""),
    );
    assert_eq!(
        (n.description, n.quantity, n.notes, n.category_id),
        (Some("d".to_string()), Some("q".to_string()), None, Some(2))
    );
}

#[test]
fn requests_are_normalized_only_where_they_give_no_parts() {
    let typed = CreateGroceryListEntry {
        description: "2 apples - red".to_string(),
        position: Some(3),
        quantity: None,
        notes: None,
        category_id: Some(4),
    };
    let n = normalize_create(typed.clone()).unwrap();
    assert_eq!(n.description, "apples");
    assert_eq!(n.quantity, Some("2".to_string()));
    assert_eq!(n.notes, Some("red".to_string()));
    assert_eq!((n.position, n.category_id), (Some(3), Some(4)));
    let n = normalize_create(CreateGroceryListEntry {
        description: "apples".to_string(),
        ..typed.clone()
    })
    .unwrap();
    assert_eq!((n.description.as_str(), n.quantity, n.notes), ("apples", None, None));
    let given = CreateGroceryListEntry { quantity: Some("1".to_string()), ..typed.clone() };
    let n = normalize_create(given).unwrap();
    let crossing = CreateGroceryListEntry { description: "a) (b".to_string(), ..typed.clone() };
    assert!(normalize_create(crossing.clone()).is_none());
    let kept = CreateGroceryListEntry { notes: Some("n".to_string()), ..crossing };
    assert_eq!(normalize_create(kept).unwrap().description, "a) (b");
    assert_eq!(n.description, "2 apples - red");
    assert_eq!((n.quantity, n.notes), (Some("1".to_string()), None));

    let edit = UpdateGroceryListEntry {
        description: Some("3 pears (ripe)".to_string()),
        completed: Some(true),
        quantity: None,
        notes: None,
        category_id: None,
        position: Some(2),
    };
    let n = normalize_update(edit.clone()).unwrap();
    assert_eq!(n.description, Some("pears".to_string()));
    assert_eq!(n.quantity, Some("3".to_string()));
    assert_eq!(n.notes, Some("ripe".to_string()));
    assert_eq!((n.completed, n.position, n.category_id), (Some(true), Some(2), None));
    let n = normalize_update(UpdateGroceryListEntry { description: None, ..edit.clone() }).unwrap();
    let crossing = UpdateGroceryListEntry { description: Some("a) (b".to_string()), ..edit.clone() };
    assert!(normalize_update(crossing).is_none());
    assert_eq!((n.description, n.quantity, n.notes), (None, None, None));
    let n = normalize_update(UpdateGroceryListEntry { notes: Some("x".to_string()), ..edit }).unwrap();
    assert_eq!(n.description, Some("3 pears (ripe)".to_string()));
    assert_eq!((n.quantity, n.notes), (None, Some("x".to_string())));
}

#[test]
fn paths_stand_for_assets() {
    assert_eq!(asset_path("/"), "");
    assert_eq!(asset_path("///a/b.js"), "a/b.js");
    assert_eq!(asset_path("a/"), "a/");
    assert_eq!(asset_path(""), "");
    assert_eq!(static_route("", false), StaticRoute::Index);
    assert_eq!(static_route("", true), StaticRoute::Index);
    assert_eq!(static_route("index.html", true), StaticRoute::Index);
    assert_eq!(static_route("app.js", true), StaticRoute::Asset);
    assert_eq!(static_route("app.js", false), StaticRoute::NotFound);
    assert_eq!(static_route("list/3", false), StaticRoute::Index);
    assert_eq!(static_route("list/3", true), StaticRoute::Asset);
    assert_eq!(static_route("index.htm", false), StaticRoute::NotFound);
}
