use vstd::prelude::*;
use vstd::string::StringExecFns;

verus! {

/// Identifier of the default category: it is created first and has the lowest id.
pub const DEFAULT_CATEGORY_ID: i64 = 1;

/// Display name of the default category.
pub const DEFAULT_CATEGORY_NAME: &'static str = "Uncategorized";

/// Reserved position of an item that is momentarily out of the ordering.
pub const ORDERABLE_LIST_REORDER_TEMPORARY_POSITION: i64 = 0;

/// Lowest position that an item may hold for good.
pub const ORDERABLE_LIST_MINIMUM_PERMANENT_POSITION: i64 = 1;

/// Parking offset: larger than any position that a list is expected to reach,
/// and small enough that a position plus this value stays far from overflow.
pub const MAX_NUM_POSITIONED_GROCERY_ITEMS: i64 = 100000;

/// Scope shared by all categories, whose ordering is global.
pub const CATEGORY_SCOPE: i64 = 0;

/// Name of the table of entries.
pub const TABLE_NAME_GROCERY_LIST_ENTRIES: &'static str = "grocery_list_entries";

/// Name of the table of categories.
pub const TABLE_NAME_CATEGORIES: &'static str = "categories";

pub const GROCERY_LIST_ENTRIES_ID: &'static str = "id";

pub const GROCERY_LIST_ENTRIES_DESCRIPTION: &'static str = "description";

pub const GROCERY_LIST_ENTRIES_COMPLETED_AT: &'static str = "completed_at";

pub const GROCERY_LIST_ENTRIES_ARCHIVED_AT: &'static str = "archived_at";

pub const GROCERY_LIST_ENTRIES_POSITION: &'static str = "position";

pub const GROCERY_LIST_ENTRIES_QUANTITY: &'static str = "quantity";

pub const GROCERY_LIST_ENTRIES_NOTES: &'static str = "notes";

pub const GROCERY_LIST_ENTRIES_CATEGORY_ID: &'static str = "category_id";

pub const GROCERY_LIST_ENTRIES_UPDATED_AT: &'static str = "updated_at";

/// The columns of the table of entries, in the order in which they are read.
pub const GROCERY_LIST_ENTRIES_FIELDS: [&'static str; 9] = [
    GROCERY_LIST_ENTRIES_ID,
    GROCERY_LIST_ENTRIES_DESCRIPTION,
    GROCERY_LIST_ENTRIES_COMPLETED_AT,
    GROCERY_LIST_ENTRIES_ARCHIVED_AT,
    GROCERY_LIST_ENTRIES_POSITION,
    GROCERY_LIST_ENTRIES_QUANTITY,
    GROCERY_LIST_ENTRIES_NOTES,
    GROCERY_LIST_ENTRIES_CATEGORY_ID,
    GROCERY_LIST_ENTRIES_UPDATED_AT,
];

pub const CATEGORIES_ID: &'static str = "id";

pub const CATEGORIES_NAME: &'static str = "name";

pub const CATEGORIES_IS_DEFAULT_CATEGORY: &'static str = "is_default_category";

pub const CATEGORIES_POSITION: &'static str = "position";

pub const CATEGORIES_UPDATED_AT: &'static str = "updated_at";

/// The columns of the table of categories, in the order in which they are read.
pub const CATEGORIES_FIELDS: [&'static str; 5] = [
    CATEGORIES_ID,
    CATEGORIES_NAME,
    CATEGORIES_IS_DEFAULT_CATEGORY,
    CATEGORIES_POSITION,
    CATEGORIES_UPDATED_AT,
];

/// The texts of `parts`, each two neighbours with `separator` between them.
pub open spec fn joined(parts: Seq<Seq<char>>, separator: Seq<char>) -> Seq<char>
    decreases parts.len(),
{
    if parts.len() == 0 {
        Seq::empty()
    } else if parts.len() == 1 {
        parts[0]
    } else {
        joined(parts.drop_last(), separator) + separator + parts.last()
    }
}

/// The texts of a list of names.
pub open spec fn texts(names: Seq<&str>) -> Seq<Seq<char>> {
    Seq::new(names.len(), |i: int| names[i]@)
}

/// The names of `field_list` as a column list: separated by a comma and a space.
pub fn all_fields(field_list: &[&str]) -> (r: String)
    ensures
        r@ == joined(texts(field_list@), ", "@),
{
    let mut out = String::new();
    let mut i: usize = 0;
    while i < field_list.len()
        invariant
            i <= field_list.len(),
            out@ == joined(texts(field_list@).take(i as int), ", "@),
        decreases field_list.len() - i,
    {
        let ghost before = texts(field_list@).take(i as int);
        let ghost after = texts(field_list@).take(i + 1);
        if i > 0 {
            out.append(", ");
        }
        out.append(field_list[i]);
        proof {
            assert(after.drop_last() =~= before);
            assert(after.last() == field_list@[i as int]@);
            if i == 0 {
                assert(out@ =~= after[0]);
            }
        }
        i += 1;
    }
    assert(texts(field_list@).take(i as int) =~= texts(field_list@));
    out
}

} // verus!
