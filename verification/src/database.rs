//! The repository: entries grouped into categories, categories in one global
//! list. Whatever touches a position or a category goes through the reorder
//! engine, together with the field edits of the same request; the rest is
//! plain column updates.
//!
//! The repository keeps the ordering invariant at every moment between two
//! operations: within every category, and among the categories, the
//! positions are exactly 1, 2, .., N. A request that would break it, by a
//! position below 1 or beyond the end of the list, is refused with
//! `ConstraintViolation` and changes nothing.

use crate::constants::{
    CATEGORY_SCOPE, DEFAULT_CATEGORY_ID, DEFAULT_CATEGORY_NAME,
    ORDERABLE_LIST_MINIMUM_PERMANENT_POSITION,
};
use crate::density::{
    dense, dense_in, in_range, lemma_dense_is_positioned, positioned, law_append_keeps_dense, law_move_keeps_dense,
    law_next_position_appends, law_removal_keeps_dense, lemma_all_in_size, lemma_count_bounds,
    scope_size,
};
use crate::ledger::{
    count_kept, effect, holds, index_of, lemma_index_of, listed_before, lists, next_position,
    valid, Ledger, Slot, Statement, StoreError, CAPACITY,
};
use crate::models::{
    category_or, must_reorder, position_or_head, Category, CreateCategory,
    CreateGroceryListEntry, GroceryListEntry, ReorderCategory, ReorderEntry, UpdateCategory,
    UpdateGroceryListEntry,
};
use crate::reorder::{all_in, lies_within, moved, removed};
use vstd::prelude::*;
use vstd::string::StringExecFns;

verus! {

/// The columns of an entry that have no part in the ordering.
#[derive(Debug, Clone)]
pub struct EntryFields {
    pub description: String,
    pub quantity: String,
    pub notes: String,
    pub completed_at: Option<i64>,
    pub archived_at: Option<i64>,
    pub updated_at: i64,
}

/// The columns of a category that have no part in the ordering.
#[derive(Debug, Clone)]
pub struct CategoryFields {
    pub name: String,
    pub is_default_category: bool,
    pub updated_at: i64,
}

/// What a [`Database`] holds: the two tables, each as its ordering columns
/// and, row by row beside them, its other columns; and the ids that the next
/// rows will get.
pub struct Tables {
    pub entries: Seq<Slot>,
    pub entry_fields: Seq<EntryFields>,
    pub categories: Seq<Slot>,
    pub category_fields: Seq<CategoryFields>,
    pub next_entry_id: i64,
    pub next_category_id: i64,
}

/// The entry made of the ordering columns `slot` and the other columns `fields`.
pub open spec fn entry_of(slot: Slot, fields: EntryFields) -> GroceryListEntry {
    GroceryListEntry {
        id: slot.id,
        completed_at: fields.completed_at,
        updated_at: fields.updated_at,
        position: slot.position,
        quantity: fields.quantity,
        notes: fields.notes,
        category_id: slot.scope,
        description: fields.description,
    }
}

/// The category made of the ordering columns `slot` and the other columns `fields`.
pub open spec fn category_of(slot: Slot, fields: CategoryFields) -> Category {
    Category {
        id: slot.id,
        updated_at: fields.updated_at,
        position: slot.position,
        name: fields.name,
        is_default_category: fields.is_default_category,
    }
}

/// The ordering invariant of the repository: the positions of the entries of
/// every category, and those of the categories, are exactly 1, 2, .., N; so
/// none of them is the reserved position 0.
pub open spec fn ordered(t: Tables) -> bool {
    &&& dense(t.entries)
    &&& dense(t.categories)
    &&& positioned(t.entries)
    &&& positioned(t.categories)
}

/// The state is one that the repository can be in: both tables are states
/// of the store and keep the ordering invariant, every row has its other
/// columns, every category is in the one global scope, and the ids to come
/// are above the ids in use.
pub open spec fn tables_wf(t: Tables) -> bool {
    &&& valid(t.entries)
    &&& valid(t.categories)
    &&& ordered(t)
    &&& t.entry_fields.len() == t.entries.len()
    &&& t.category_fields.len() == t.categories.len()
    &&& forall|i: int| 0 <= i < t.entries.len() ==> (#[trigger] t.entries[i]).id < t.next_entry_id
    &&& forall|i: int|
        0 <= i < t.categories.len() ==> (#[trigger] t.categories[i]).id < t.next_category_id
            && t.categories[i].scope == CATEGORY_SCOPE
}

/// The row, among the first `n`, of the entry with the description
/// `description` that was updated last: of several updated at the same time,
/// the first. `None` where no entry has that description.
pub open spec fn latest_with(fields: Seq<EntryFields>, description: Seq<char>, n: int) -> Option<
    int,
>
    decreases n,
{
    if n <= 0 {
        None
    } else if fields[n - 1].description@ != description {
        latest_with(fields, description, n - 1)
    } else {
        match latest_with(fields, description, n - 1) {
            Some(k) if fields[k].updated_at >= fields[n - 1].updated_at => Some(k),
            _ => Some(n - 1),
        }
    }
}

/// The category of the entry with the description `description` that was
/// updated last, or `None` where no entry has that description.
pub open spec fn last_category(t: Tables, description: Seq<char>) -> Option<i64> {
    match latest_with(t.entry_fields, description, t.entry_fields.len() as int) {
        Some(k) => Some(t.entries[k].scope),
        None => None,
    }
}

/// What [`latest_with`] picks has the description asked for and was updated
/// no earlier than any other row that has it; it picks none only where no
/// row has it.
pub proof fn lemma_latest_with(fields: Seq<EntryFields>, description: Seq<char>, n: int)
    requires
        0 <= n <= fields.len(),
    ensures
        match latest_with(fields, description, n) {
            Some(k) => {
                &&& 0 <= k < n
                &&& fields[k].description@ == description
                &&& forall|j: int|
                    0 <= j < n && (#[trigger] fields[j]).description@ == description
                        ==> fields[j].updated_at <= fields[k].updated_at
            },
            None => forall|j: int|
                0 <= j < n ==> (#[trigger] fields[j]).description@ != description,
        },
    decreases n,
{
    if n > 0 {
        lemma_latest_with(fields, description, n - 1);
    }
}

/// The text that a request gives, or the empty text where it gives none.
pub open spec fn text_or_empty(given: Option<String>, text: String) -> bool {
    match given {
        Some(t) => text == t,
        None => text@ == Seq::<char>::empty(),
    }
}

/// The category that a new entry goes to: the one that the request names, or
/// the one where an entry of the same description was last put, or the
/// default category.
pub open spec fn category_for(t: Tables, entry: CreateGroceryListEntry) -> i64 {
    crate::models::category_or_last(entry.category_id, last_category(t, entry.description@))
}

/// The position that a new entry goes to: the one that the request names, or
/// the end of its category.
pub open spec fn position_for(t: Tables, entry: CreateGroceryListEntry) -> int {
    match entry.position {
        Some(p) => p as int,
        None => next_position(t.entries, category_for(t, entry)),
    }
}

/// The other columns of a new entry.
pub open spec fn created_fields(entry: CreateGroceryListEntry, now: i64, fields: EntryFields) -> bool {
    &&& fields.description == entry.description
    &&& text_or_empty(entry.quantity, fields.quantity)
    &&& text_or_empty(entry.notes, fields.notes)
    &&& fields.completed_at is None
    &&& fields.archived_at is None
    &&& fields.updated_at == now
}

/// The text that a request gives, or `current` where it gives none.
pub open spec fn text_or(given: Option<String>, current: String) -> String {
    match given {
        Some(t) => t,
        None => current,
    }
}

/// The other columns of an entry after the edits of a request: each text
/// that the request gives replaces the old one; `completed` sets the time of
/// completion to `now` or clears it; the time of the update is `now`.
pub open spec fn edited_fields(fields: EntryFields, entry: UpdateGroceryListEntry, now: i64) -> EntryFields {
    EntryFields {
        description: text_or(entry.description, fields.description),
        quantity: text_or(entry.quantity, fields.quantity),
        notes: text_or(entry.notes, fields.notes),
        completed_at: match entry.completed {
            Some(true) => Some(now),
            Some(false) => None,
            None => fields.completed_at,
        },
        archived_at: fields.archived_at,
        updated_at: now,
    }
}

/// The other columns of a category after the edits of a request.
pub open spec fn edited_category(fields: CategoryFields, category: UpdateCategory, now: i64) -> CategoryFields {
    CategoryFields {
        name: text_or(category.name, fields.name),
        is_default_category: fields.is_default_category,
        updated_at: now,
    }
}

/// Where the request sends the entry `id`, which the table holds: the
/// position, which is the head of the list where the request names none,
/// and the category, which is the entry's own where the request names none.
pub open spec fn update_target(rows: Seq<Slot>, id: i64, entry: UpdateGroceryListEntry) -> (
    i64,
    i64,
) {
    (position_or_head(entry.position), category_or(entry.category_id, rows[index_of(rows, id)].scope))
}

/// The request can be carried out on the entry `id`, which the table holds:
/// it does not move the entry, or it moves it to a position within the list
/// that the entry goes to.
pub open spec fn update_in_range(rows: Seq<Slot>, id: i64, entry: UpdateGroceryListEntry) -> bool {
    must_reorder(entry) ==> in_range(
        rows,
        id,
        update_target(rows, id, entry).0,
        update_target(rows, id, entry).1,
    )
}

/// The ordering columns after the update of the entry `id`, which the table
/// holds: those that the move leaves, where the request moves the entry, and
/// the old ones where it does not.
pub open spec fn updated_rows(rows: Seq<Slot>, id: i64, entry: UpdateGroceryListEntry) -> Seq<Slot> {
    if must_reorder(entry) {
        moved(rows, id, update_target(rows, id, entry).0, update_target(rows, id, entry).1)
    } else {
        rows
    }
}

/// Where the request sends the entry that it names, which the table holds.
pub open spec fn reorder_target(rows: Seq<Slot>, request: ReorderEntry) -> (i64, i64) {
    (
        position_or_head(request.new_position),
        category_or(request.new_category_id, rows[index_of(rows, request.id)].scope),
    )
}

/// The table can take one more row.
pub open spec fn has_room(rows: Seq<Slot>) -> bool {
    rows.len() + 1 < crate::constants::MAX_NUM_POSITIONED_GROCERY_ITEMS - 1
}

/// A day, in seconds.
pub const SECONDS_PER_DAY: i64 = 86400;

/// The other columns of an entry after archiving at `now`: an entry that was
/// completed more than a day before is marked as archived at `now`.
pub open spec fn archived_fields(fields: EntryFields, now: i64) -> EntryFields {
    if fields.completed_at is Some && fields.completed_at.unwrap() < now - SECONDS_PER_DAY {
        EntryFields { archived_at: Some(now), ..fields }
    } else {
        fields
    }
}

/// Which entries are active: those that are not archived.
pub open spec fn active(t: Tables) -> Seq<bool> {
    Seq::new(t.entry_fields.len(), |i: int| t.entry_fields[i].archived_at is None)
}

/// The listing holds the entry `id`.
pub open spec fn lists_entry(listing: Seq<GroceryListEntry>, id: i64) -> bool {
    exists|k: int| 0 <= k < listing.len() && (#[trigger] listing[k]).id == id
}

/// The listing holds the category `id`.
pub open spec fn lists_category(listing: Seq<Category>, id: i64) -> bool {
    exists|k: int| 0 <= k < listing.len() && (#[trigger] listing[k]).id == id
}

/// The descriptions of the entries, row by row.
pub open spec fn descriptions_of(t: Tables) -> Seq<Seq<char>> {
    Seq::new(t.entry_fields.len(), |i: int| t.entry_fields[i].description@)
}

/// The repository.
pub struct Database {
    entries: Ledger,
    entry_data: Vec<EntryFields>,
    categories: Ledger,
    category_data: Vec<CategoryFields>,
    next_entry_id: i64,
    next_category_id: i64,
}

impl View for Database {
    type V = Tables;

    closed spec fn view(&self) -> Tables {
        Tables {
            entries: self.entries@,
            entry_fields: self.entry_data@,
            categories: self.categories@,
            category_fields: self.category_data@,
            next_entry_id: self.next_entry_id,
            next_category_id: self.next_category_id,
        }
    }
}

impl Database {
    /// The state is one that the repository can be in.
    pub open spec fn wf(&self) -> bool {
        tables_wf(self@)
    }

    /// A repository that is set up: it holds the default category, at the
    /// head of the category list, and no entry.
    pub fn new(now: i64) -> (r: Database)
        ensures
            r.wf(),
            r@.entries == Seq::<Slot>::empty(),
            r@.entry_fields == Seq::<EntryFields>::empty(),
            r@.categories == seq![
                Slot {
                    id: DEFAULT_CATEGORY_ID,
                    scope: CATEGORY_SCOPE,
                    position: ORDERABLE_LIST_MINIMUM_PERMANENT_POSITION,
                },
            ],
            r@.category_fields.len() == 1,
            r@.category_fields[0].name@ == DEFAULT_CATEGORY_NAME@,
            r@.category_fields[0].is_default_category,
            r@.category_fields[0].updated_at == now,
            r@.next_entry_id == 1,
            r@.next_category_id == DEFAULT_CATEGORY_ID + 1,
            ordered(r@),
    {
        let mut db = Database {
            entries: Ledger::new(),
            entry_data: Vec::new(),
            categories: Ledger::new(),
            category_data: Vec::new(),
            next_entry_id: 1,
            next_category_id: DEFAULT_CATEGORY_ID,
        };
        proof {
            assert forall|scope: i64| #[trigger] dense_in(Seq::<Slot>::empty(), scope) by {}
        }
        let _ = db.migrate(now);
        assert(db@.categories =~= seq![
            Slot {
                id: DEFAULT_CATEGORY_ID,
                scope: CATEGORY_SCOPE,
                position: ORDERABLE_LIST_MINIMUM_PERMANENT_POSITION,
            },
        ]);
        db
    }

    /// Sets the repository up: where no category has the id of the default
    /// category, the default category is added at the head of the category
    /// list, under the next id. Where one has, nothing is changed, so that
    /// a second set-up adds no category.
    ///
    /// The store refuses the new category (`ConstraintViolation`), and
    /// nothing is changed, where another category stands at the head of the
    /// list or no id is left.
    pub fn migrate(&mut self, now: i64) -> (r: Result<(), StoreError>)
        requires
            old(self).wf(),
        ensures
            final(self).wf(),
            holds(old(self)@.categories, DEFAULT_CATEGORY_ID) ==> r is Ok && final(self)@ == old(self)@,
            !holds(old(self)@.categories, DEFAULT_CATEGORY_ID) ==> (if old(self)@.categories.len()
                == 0 && old(self)@.next_category_id < i64::MAX {
                &&& r is Ok
                &&& final(self)@.categories == seq![
                    Slot {
                        id: old(self)@.next_category_id,
                        scope: CATEGORY_SCOPE,
                        position: ORDERABLE_LIST_MINIMUM_PERMANENT_POSITION,
                    },
                ]
                &&& final(self)@.category_fields.len() == 1
                &&& final(self)@.category_fields[0].name@ == DEFAULT_CATEGORY_NAME@
                &&& final(self)@.category_fields[0].is_default_category
                &&& final(self)@.category_fields[0].updated_at == now
                &&& final(self)@.next_category_id == old(self)@.next_category_id + 1
                &&& final(self)@.entries == old(self)@.entries
                &&& final(self)@.entry_fields == old(self)@.entry_fields
                &&& final(self)@.next_entry_id == old(self)@.next_entry_id
            } else {
                r == Err::<(), StoreError>(StoreError::ConstraintViolation) && final(self)@ == old(self)@
            }),
    {
        if self.categories.find(DEFAULT_CATEGORY_ID).is_some() {
            return Ok(());
        }
        let id = self.next_category_id;
        if id == i64::MAX || self.categories.len() > 0 {
            return Err(StoreError::ConstraintViolation);
        }
        let insert = Statement::Insert {
            id,
            position: ORDERABLE_LIST_MINIMUM_PERMANENT_POSITION,
            scope: CATEGORY_SCOPE,
        };
        proof {
            assert(self@.categories =~= Seq::<Slot>::empty());
            assert(effect(self@.categories, insert) is Some);
            assert(next_position(self@.categories, CATEGORY_SCOPE) == 1);
            law_append_keeps_dense(self@.categories, id, CATEGORY_SCOPE);
            lemma_dense_is_positioned(
                self@.categories.push(
                    Slot {
                        id,
                        scope: CATEGORY_SCOPE,
                        position: next_position(self@.categories, CATEGORY_SCOPE) as i64,
                    },
                ),
            );
        }
        match self.categories.apply(insert) {
            Ok(()) => {},
            Err(e) => {
                return Err(e);
            },
        }
        self.category_data.push(
            CategoryFields {
                name: String::from_str(DEFAULT_CATEGORY_NAME),
                is_default_category: true,
                updated_at: now,
            },
        );
        self.next_category_id = id + 1;
        assert(self@.categories =~= seq![
            Slot {
                id,
                scope: CATEGORY_SCOPE,
                position: ORDERABLE_LIST_MINIMUM_PERMANENT_POSITION,
            },
        ]);
        Ok(())
    }

    /// The entry of row `i`.
    fn entry_at(&self, i: usize) -> (r: GroceryListEntry)
        requires
            i < self@.entries.len(),
            i < self@.entry_fields.len(),
        ensures
            r == entry_of(self@.entries[i as int], self@.entry_fields[i as int]),
    {
        let slot = self.entries.slot(i);
        let fields = &self.entry_data[i];
        GroceryListEntry {
            id: slot.id,
            completed_at: fields.completed_at,
            updated_at: fields.updated_at,
            position: slot.position,
            quantity: fields.quantity.clone(),
            notes: fields.notes.clone(),
            category_id: slot.scope,
            description: fields.description.clone(),
        }
    }

    /// The category of row `i`.
    fn category_at(&self, i: usize) -> (r: Category)
        requires
            i < self@.categories.len(),
            i < self@.category_fields.len(),
        ensures
            r == category_of(self@.categories[i as int], self@.category_fields[i as int]),
    {
        let slot = self.categories.slot(i);
        let fields = &self.category_data[i];
        Category {
            id: slot.id,
            updated_at: fields.updated_at,
            position: slot.position,
            name: fields.name.clone(),
            is_default_category: fields.is_default_category,
        }
    }

    /// The entry with the id `id`.
    pub fn get_entry(&self, id: i64) -> (r: Result<GroceryListEntry, StoreError>)
        requires
            self.wf(),
        ensures
            match r {
                Ok(entry) => holds(self@.entries, id) && entry == entry_of(
                    self@.entries[index_of(self@.entries, id)],
                    self@.entry_fields[index_of(self@.entries, id)],
                ),
                Err(e) => !holds(self@.entries, id) && e == StoreError::NotFound,
            },
    {
        match self.entries.find(id) {
            Some(i) => Ok(self.entry_at(i)),
            None => Err(StoreError::NotFound),
        }
    }

    /// The category with the id `id`.
    pub fn get_category(&self, id: i64) -> (r: Result<Category, StoreError>)
        requires
            self.wf(),
        ensures
            match r {
                Ok(category) => holds(self@.categories, id) && category == category_of(
                    self@.categories[index_of(self@.categories, id)],
                    self@.category_fields[index_of(self@.categories, id)],
                ),
                Err(e) => !holds(self@.categories, id) && e == StoreError::NotFound,
            },
    {
        match self.categories.find(id) {
            Some(i) => Ok(self.category_at(i)),
            None => Err(StoreError::NotFound),
        }
    }

    /// The position at which an entry is appended to the category
    /// `category_id`: one more than the largest position there, or 1 where
    /// the category has no entry.
    pub fn get_next_position_for_item_in_category(&self, category_id: i64) -> (r: i64)
        requires
            self.wf(),
        ensures
            r == next_position(self@.entries, category_id),
    {
        self.entries.next_position(category_id)
    }

    /// The position at which a category is appended to the category list.
    pub fn get_next_position_for_category(&self) -> (r: i64)
        requires
            self.wf(),
        ensures
            r == next_position(self@.categories, CATEGORY_SCOPE),
    {
        self.categories.next_position(CATEGORY_SCOPE)
    }

    /// Whether `position` lies within the list of `scope` as it will be once
    /// the item `id`, which now is in `current`, is in it.
    fn within(entries: &Ledger, id: i64, current: i64, position: i64, scope: i64) -> (r: bool)
        requires
            entries.wf(),
            holds(entries@, id),
            entries@[index_of(entries@, id)].scope == current,
        ensures
            r == in_range(entries@, id, position, scope),
    {
        let size = entries.count(scope);
        lies_within(position, size, current == scope)
    }


    /// Moves an entry to a new position, a new category, or both. Without a
    /// position the entry goes to the head of the list; without a category
    /// it stays in its own.
    ///
    /// An id that no entry has is `NotFound`. A position that does not lie
    /// within the list that the entry goes to, from 1 to the number of
    /// entries that the list has with it, is refused with
    /// `ConstraintViolation`. Either way nothing is changed.
    pub fn reorder_entries(&mut self, reorder_request: ReorderEntry) -> (r: Result<(), StoreError>)
        requires
            old(self).wf(),
        ensures
            final(self).wf(),
            !holds(old(self)@.entries, reorder_request.id) ==> r == Err::<(), StoreError>(
                StoreError::NotFound,
            ) && final(self)@ == old(self)@,
            holds(old(self)@.entries, reorder_request.id) && !in_range(
                old(self)@.entries,
                reorder_request.id,
                reorder_target(old(self)@.entries, reorder_request).0,
                reorder_target(old(self)@.entries, reorder_request).1,
            ) ==> r == Err::<(), StoreError>(StoreError::ConstraintViolation) && final(self)@
                == old(self)@,
            holds(old(self)@.entries, reorder_request.id) && in_range(
                old(self)@.entries,
                reorder_request.id,
                reorder_target(old(self)@.entries, reorder_request).0,
                reorder_target(old(self)@.entries, reorder_request).1,
            ) ==> r is Ok && final(self)@ == (Tables {
                entries: moved(
                    old(self)@.entries,
                    reorder_request.id,
                    reorder_target(old(self)@.entries, reorder_request).0,
                    reorder_target(old(self)@.entries, reorder_request).1,
                ),
                ..old(self)@
            }),
    {
        let id = reorder_request.id;
        let (_, category) = match self.entries.current_location(id) {
            Some(location) => location,
            None => {
                return Err(StoreError::NotFound);
            },
        };
        let (new_position, new_category_id) = reorder_request.target(category);
        if !Self::within(&self.entries, id, category, new_position, new_category_id) {
            return Err(StoreError::ConstraintViolation);
        }
        proof {
            assert(dense_in(self@.entries, category));
            assert(dense_in(self@.entries, new_category_id));
            law_move_keeps_dense(self@.entries, id, new_position, new_category_id);
            lemma_dense_is_positioned(moved(self@.entries, id, new_position, new_category_id));
        }
        self.entries.move_to_position(id, new_position, new_category_id)
    }

    /// Moves a category to a new position in the category list.
    ///
    /// An id that no category has is `NotFound`. A position that does not
    /// lie within the list, from 1 to the number of categories, is refused
    /// with `ConstraintViolation`. Either way nothing is changed.
    pub fn reorder_categories(&mut self, reorder_request: ReorderCategory) -> (r: Result<
        (),
        StoreError,
    >)
        requires
            old(self).wf(),
        ensures
            final(self).wf(),
            !holds(old(self)@.categories, reorder_request.id) ==> r == Err::<(), StoreError>(
                StoreError::NotFound,
            ) && final(self)@ == old(self)@,
            holds(old(self)@.categories, reorder_request.id) && !(1 <= reorder_request.new_position
                <= old(self)@.categories.len()) ==> r == Err::<(), StoreError>(
                StoreError::ConstraintViolation,
            ) && final(self)@ == old(self)@,
            holds(old(self)@.categories, reorder_request.id) && 1 <= reorder_request.new_position
                <= old(self)@.categories.len() ==> r is Ok && final(self)@ == (Tables {
                categories: moved(
                    old(self)@.categories,
                    reorder_request.id,
                    reorder_request.new_position,
                    CATEGORY_SCOPE,
                ),
                ..old(self)@
            }),
    {
        let id = reorder_request.id;
        if self.categories.find(id).is_none() {
            return Err(StoreError::NotFound);
        }
        proof {
            assert(all_in(self@.categories, CATEGORY_SCOPE));
            lemma_all_in_size(self@.categories, CATEGORY_SCOPE);
        }
        if !Self::within(
            &self.categories,
            id,
            CATEGORY_SCOPE,
            reorder_request.new_position,
            CATEGORY_SCOPE,
        ) {
            return Err(StoreError::ConstraintViolation);
        }
        proof {
            assert(dense_in(self@.categories, CATEGORY_SCOPE));
            law_move_keeps_dense(
                self@.categories,
                id,
                reorder_request.new_position,
                CATEGORY_SCOPE,
            );
            lemma_dense_is_positioned(
                moved(self@.categories, id, reorder_request.new_position, CATEGORY_SCOPE),
            );
        }
        self.categories.move_to_position(id, reorder_request.new_position, CATEGORY_SCOPE)
    }

    /// Deletes an entry and closes the gap that it leaves in its category.
    /// Returns whether there was such an entry.
    pub fn delete_entry(&mut self, id: i64) -> (r: Result<bool, StoreError>)
        requires
            old(self).wf(),
        ensures
            final(self).wf(),
            !holds(old(self)@.entries, id) ==> r == Ok::<bool, StoreError>(false) && final(self)@
                == old(self)@,
            holds(old(self)@.entries, id) ==> r == Ok::<bool, StoreError>(true) && final(self)@ == (
            Tables {
                entries: removed(old(self)@.entries, id),
                entry_fields: old(self)@.entry_fields.remove(index_of(old(self)@.entries, id)),
                ..old(self)@
            }),
    {
        let row = match self.entries.find(id) {
            Some(i) => i,
            None => {
                return Ok(false);
            },
        };
        proof {
            let from = self@.entries[row as int];
            assert(dense_in(self@.entries, from.scope));
            law_removal_keeps_dense(self@.entries, id);
            lemma_dense_is_positioned(removed(self@.entries, id));
            let cut = self@.entries.remove(row as int);
            assert forall|i: int| 0 <= i < cut.len() implies (#[trigger] removed(
                self@.entries,
                id,
            )[i]).id < self@.next_entry_id by {
                assert(cut[i] == self@.entries[if i < row {
                    i
                } else {
                    i + 1
                }]);
            }
        }
        match self.entries.remove_item(id) {
            Ok(()) => {
                self.entry_data.remove(row);
                Ok(true)
            },
            Err(e) => Err(e),
        }
    }

    /// Deletes a category and closes the gap that it leaves in the category
    /// list. Any category can be deleted, the default one too, and the
    /// entries of a deleted category stay as they are, in a category that
    /// is no more. Returns whether there was such a category.
    pub fn delete_category(&mut self, id: i64) -> (r: Result<bool, StoreError>)
        requires
            old(self).wf(),
        ensures
            final(self).wf(),
            !holds(old(self)@.categories, id) ==> r == Ok::<bool, StoreError>(false) && final(self)@ == old(self)@,
            holds(old(self)@.categories, id) ==> r == Ok::<bool, StoreError>(true) && final(self)@
                == (Tables {
                categories: removed(old(self)@.categories, id),
                category_fields: old(self)@.category_fields.remove(
                    index_of(old(self)@.categories, id),
                ),
                ..old(self)@
            }),
    {
        let row = match self.categories.find(id) {
            Some(i) => i,
            None => {
                return Ok(false);
            },
        };
        proof {
            let from = self@.categories[row as int];
            assert(dense_in(self@.categories, from.scope));
            law_removal_keeps_dense(self@.categories, id);
            lemma_dense_is_positioned(removed(self@.categories, id));
            let cut = self@.categories.remove(row as int);
            assert forall|i: int| 0 <= i < cut.len() implies (#[trigger] removed(
                self@.categories,
                id,
            )[i]).id < self@.next_category_id && removed(self@.categories, id)[i].scope
                == CATEGORY_SCOPE by {
                assert(cut[i] == self@.categories[if i < row {
                    i
                } else {
                    i + 1
                }]);
            }
        }
        match self.categories.remove_item(id) {
            Ok(()) => {
                self.category_data.remove(row);
                Ok(true)
            },
            Err(e) => Err(e),
        }
    }

    /// The category of the entry with the description `description` that
    /// was updated last, or `None` where no entry has that description.
    pub fn get_last_category_for_description(&self, description: &str) -> (r: Option<i64>)
        requires
            self.wf(),
        ensures
            r == last_category(self@, description@),
            r is None <==> forall|j: int|
                0 <= j < self@.entry_fields.len() ==> (#[trigger] self@.entry_fields[j]).description@
                    != description@,
            r is Some ==> exists|k: int|
                0 <= k < self@.entries.len() && (#[trigger] self@.entries[k]).scope == r.unwrap()
                    && self@.entry_fields[k].description@ == description@ && forall|j: int|
                    0 <= j < self@.entry_fields.len() && (
                    #[trigger] self@.entry_fields[j]).description@ == description@
                        ==> self@.entry_fields[j].updated_at <= self@.entry_fields[k].updated_at,
    {
        proof {
            lemma_latest_with(self@.entry_fields, description@, self@.entry_fields.len() as int);
        }
        let wanted = String::from_str(description);
        let mut best: Option<usize> = None;
        let mut i: usize = 0;
        while i < self.entry_data.len()
            invariant
                i <= self.entry_data.len(),
                wanted@ == description@,
                match best {
                    Some(k) => k < i && latest_with(self@.entry_fields, description@, i as int)
                        == Some(k as int),
                    None => latest_with(self@.entry_fields, description@, i as int) is None,
                },
            decreases self.entry_data.len() - i,
        {
            if self.entry_data[i].description == wanted {
                best =
                match best {
                    Some(k) if self.entry_data[k].updated_at >= self.entry_data[i].updated_at => Some(k),
                    _ => Some(i),
                };
            }
            i += 1;
        }
        match best {
            Some(k) => Some(self.entries.slot(k).scope),
            None => None,
        }
    }

    /// Adds an entry. Without a category it goes where an entry of the same
    /// description was last put, or to the default category; without a
    /// position it is appended to its category; without a quantity or notes
    /// it has empty ones.
    ///
    /// A request that names a position is refused with
    /// `ConstraintViolation` unless the position is the end of the category:
    /// a lower one is taken, or below 1, and a higher one would leave a gap.
    /// So is a request for which the table has no room or no id left.
    /// Nothing is changed then.
    pub fn create_entry(&mut self, entry: CreateGroceryListEntry, now: i64) -> (r: Result<
        GroceryListEntry,
        StoreError,
    >)
        requires
            old(self).wf(),
        ensures
            final(self).wf(),
            ({
                let category = category_for(old(self)@, entry);
                let position = position_for(old(self)@, entry);
                let slot = Slot {
                    id: old(self)@.next_entry_id,
                    scope: category,
                    position: position as i64,
                };
                if old(self)@.next_entry_id < i64::MAX && has_room(old(self)@.entries) && position
                    == next_position(old(self)@.entries, category) {
                    &&& r is Ok
                    &&& final(self)@.entries == old(self)@.entries.push(slot)
                    &&& final(self)@.entry_fields.len() == old(self)@.entry_fields.len() + 1
                    &&& final(self)@.entry_fields.drop_last() == old(self)@.entry_fields
                    &&& created_fields(entry, now, final(self)@.entry_fields.last())
                    &&& r.unwrap() == entry_of(slot, final(self)@.entry_fields.last())
                    &&& final(self)@.next_entry_id == old(self)@.next_entry_id + 1
                    &&& final(self)@.categories == old(self)@.categories
                    &&& final(self)@.category_fields == old(self)@.category_fields
                    &&& final(self)@.next_category_id == old(self)@.next_category_id
                } else {
                    r == Err::<GroceryListEntry, StoreError>(StoreError::ConstraintViolation)
                        && final(self)@ == old(self)@
                }
            }),
            next_position(old(self)@.entries, category_for(old(self)@, entry)) == scope_size(
                old(self)@.entries,
                category_for(old(self)@, entry),
            ) + 1,
            next_position(old(self)@.entries, category_for(old(self)@, entry)) >= 1,
    {
        let category_id = match entry.category_id {
            Some(c) => c,
            None => entry.category_or_last(
                self.get_last_category_for_description(entry.description.as_str()),
            ),
        };
        let next = self.entries.next_position(category_id);
        let position = match entry.position {
            Some(p) => p,
            None => next,
        };
        proof {
            assert(dense_in(self@.entries, category_id));
            law_next_position_appends(self@.entries, category_id);
            lemma_count_bounds(self@.entries, category_id, self@.entries.len() as int);
            crate::density::lemma_next_position_free(self@.entries, category_id);
            law_append_keeps_dense(self@.entries, self@.next_entry_id, category_id);
            lemma_dense_is_positioned(
                self@.entries.push(
                    Slot {
                        id: self@.next_entry_id,
                        scope: category_id,
                        position: next_position(self@.entries, category_id) as i64,
                    },
                ),
            );
        }
        let id = self.next_entry_id;
        if id == i64::MAX || self.entries.len() >= CAPACITY || position != next {
            return Err(StoreError::ConstraintViolation);
        }
        let insert = Statement::Insert { id, position, scope: category_id };
        assert(!holds(self@.entries, id));
        assert(effect(self@.entries, insert) is Some);
        match self.entries.apply(insert) {
            Ok(()) => {},
            Err(e) => {
                return Err(e);
            },
        }
        let fields = EntryFields {
            description: entry.description,
            quantity: match entry.quantity {
                Some(q) => q,
                None => String::new(),
            },
            notes: match entry.notes {
                Some(n) => n,
                None => String::new(),
            },
            completed_at: None,
            archived_at: None,
            updated_at: now,
        };
        self.entry_data.push(fields);
        self.next_entry_id = id + 1;
        assert(self@.entry_fields.drop_last() =~= old(self)@.entry_fields);
        Ok(self.entry_at(self.entry_data.len() - 1))
    }

    /// Adds a category at the end of the category list.
    ///
    /// It is refused with `ConstraintViolation`, and nothing is changed,
    /// where the table has no room or no id left.
    pub fn create_category(&mut self, category: CreateCategory, now: i64) -> (r: Result<
        Category,
        StoreError,
    >)
        requires
            old(self).wf(),
        ensures
            final(self).wf(),
            ({
                let position = old(self)@.categories.len() + 1;
                let slot = Slot {
                    id: old(self)@.next_category_id,
                    scope: CATEGORY_SCOPE,
                    position: position as i64,
                };
                let fields = CategoryFields {
                    name: category.name,
                    is_default_category: false,
                    updated_at: now,
                };
                if old(self)@.next_category_id < i64::MAX && has_room(old(self)@.categories) {
                    &&& r == Ok::<Category, StoreError>(category_of(slot, fields))
                    &&& final(self)@ == (Tables {
                        categories: old(self)@.categories.push(slot),
                        category_fields: old(self)@.category_fields.push(fields),
                        next_category_id: (old(self)@.next_category_id + 1) as i64,
                        ..old(self)@
                    })
                } else {
                    r == Err::<Category, StoreError>(StoreError::ConstraintViolation) && final(self)@
                        == old(self)@
                }
            }),
    {
        let position = self.categories.next_position(CATEGORY_SCOPE);
        proof {
            assert(all_in(self@.categories, CATEGORY_SCOPE));
            lemma_all_in_size(self@.categories, CATEGORY_SCOPE);
            assert(dense_in(self@.categories, CATEGORY_SCOPE));
            law_next_position_appends(self@.categories, CATEGORY_SCOPE);
            crate::density::lemma_next_position_free(self@.categories, CATEGORY_SCOPE);
            law_append_keeps_dense(self@.categories, self@.next_category_id, CATEGORY_SCOPE);
            lemma_dense_is_positioned(
                self@.categories.push(
                    Slot {
                        id: self@.next_category_id,
                        scope: CATEGORY_SCOPE,
                        position: next_position(self@.categories, CATEGORY_SCOPE) as i64,
                    },
                ),
            );
        }
        let id = self.next_category_id;
        if id == i64::MAX || self.categories.len() >= CAPACITY {
            return Err(StoreError::ConstraintViolation);
        }
        let insert = Statement::Insert { id, position, scope: CATEGORY_SCOPE };
        assert(!holds(self@.categories, id));
        assert(effect(self@.categories, insert) is Some);
        match self.categories.apply(insert) {
            Ok(()) => {},
            Err(e) => {
                return Err(e);
            },
        }
        self.category_data.push(
            CategoryFields { name: category.name, is_default_category: false, updated_at: now },
        );
        self.next_category_id = id + 1;
        Ok(self.category_at(self.category_data.len() - 1))
    }

    /// Edits an entry and, where the request names a position or a category,
    /// moves it, all as one step. Without a position a moved entry goes to
    /// the head of the list; without a category it stays in its own.
    ///
    /// Returns the entry as it is afterwards, or `None` where no entry has
    /// the id `id`. A position that does not lie within the list that the
    /// entry goes to is refused with `ConstraintViolation`. Either way
    /// nothing is changed.
    pub fn update_entry(&mut self, id: i64, entry: UpdateGroceryListEntry, now: i64) -> (r: Result<
        Option<GroceryListEntry>,
        StoreError,
    >)
        requires
            old(self).wf(),
        ensures
            final(self).wf(),
            !holds(old(self)@.entries, id) ==> r == Ok::<Option<GroceryListEntry>, StoreError>(
                None,
            ) && final(self)@ == old(self)@,
            holds(old(self)@.entries, id) && !update_in_range(old(self)@.entries, id, entry) ==> r
                == Err::<Option<GroceryListEntry>, StoreError>(StoreError::ConstraintViolation)
                && final(self)@ == old(self)@,
            holds(old(self)@.entries, id) && update_in_range(old(self)@.entries, id, entry) ==> ({
                let row = index_of(old(self)@.entries, id);
                let fields = edited_fields(old(self)@.entry_fields[row], entry, now);
                let next = updated_rows(old(self)@.entries, id, entry);
                &&& r == Ok::<Option<GroceryListEntry>, StoreError>(
                    Some(entry_of(next[row], fields)),
                )
                &&& final(self)@ == (Tables {
                    entries: next,
                    entry_fields: old(self)@.entry_fields.update(row, fields),
                    ..old(self)@
                })
            }),
    {
        let row = match self.entries.find(id) {
            Some(i) => i,
            None => {
                return Ok(None);
            },
        };
        if entry.must_reorder() {
            let from = self.entries.slot(row);
            let (new_position, new_category_id) = entry.target(from.scope);
            if !Self::within(&self.entries, id, from.scope, new_position, new_category_id) {
                return Err(StoreError::ConstraintViolation);
            }
            proof {
                assert(dense_in(self@.entries, from.scope));
                assert(dense_in(self@.entries, new_category_id));
                law_move_keeps_dense(self@.entries, id, new_position, new_category_id);
                lemma_dense_is_positioned(
                    moved(self@.entries, id, new_position, new_category_id),
                );
            }
            match self.entries.move_to_position(id, new_position, new_category_id) {
                Ok(()) => {},
                Err(e) => {
                    return Err(e);
                },
            }
        }
        let current = &self.entry_data[row];
        let fields = EntryFields {
            description: match entry.description {
                Some(d) => d,
                None => current.description.clone(),
            },
            quantity: match entry.quantity {
                Some(q) => q,
                None => current.quantity.clone(),
            },
            notes: match entry.notes {
                Some(n) => n,
                None => current.notes.clone(),
            },
            completed_at: match entry.completed {
                Some(true) => Some(now),
                Some(false) => None,
                None => current.completed_at,
            },
            archived_at: current.archived_at,
            updated_at: now,
        };
        self.entry_data.set(row, fields);
        Ok(Some(self.entry_at(row)))
    }

    /// Edits a category. Returns the category as it is afterwards, or `None`
    /// where no category has the id `id`.
    pub fn update_category(&mut self, id: i64, category: UpdateCategory, now: i64) -> (r: Result<
        Option<Category>,
        StoreError,
    >)
        requires
            old(self).wf(),
        ensures
            final(self).wf(),
            !holds(old(self)@.categories, id) ==> r == Ok::<Option<Category>, StoreError>(None)
                && final(self)@ == old(self)@,
            holds(old(self)@.categories, id) ==> ({
                let row = index_of(old(self)@.categories, id);
                let fields = edited_category(old(self)@.category_fields[row], category, now);
                &&& r == Ok::<Option<Category>, StoreError>(
                    Some(category_of(old(self)@.categories[row], fields)),
                )
                &&& final(self)@ == (Tables {
                    category_fields: old(self)@.category_fields.update(row, fields),
                    ..old(self)@
                })
            }),
    {
        let row = match self.categories.find(id) {
            Some(i) => i,
            None => {
                return Ok(None);
            },
        };
        let current = &self.category_data[row];
        let fields = CategoryFields {
            name: match category.name {
                Some(n) => n,
                None => current.name.clone(),
            },
            is_default_category: current.is_default_category,
            updated_at: now,
        };
        self.category_data.set(row, fields);
        Ok(Some(self.category_at(row)))
    }

    /// Marks as archived, at `now`, every entry that was completed more than
    /// a day before `now`.
    pub fn archive_entries(&mut self, now: i64)
        requires
            old(self).wf(),
        ensures
            final(self).wf(),
            final(self)@ == (Tables {
                entry_fields: Seq::new(
                    old(self)@.entry_fields.len(),
                    |i: int| archived_fields(old(self)@.entry_fields[i], now),
                ),
                ..old(self)@
            }),
    {
        let mut i: usize = 0;
        while i < self.entry_data.len()
            invariant
                i <= self.entry_data.len(),
                self.entry_data.len() == old(self).entry_data.len(),
                self.entries == old(self).entries,
                self.categories == old(self).categories,
                self.category_data == old(self).category_data,
                self.next_entry_id == old(self).next_entry_id,
                self.next_category_id == old(self).next_category_id,
                forall|k: int|
                    0 <= k < i ==> #[trigger] self.entry_data@[k] == archived_fields(
                        old(self).entry_data@[k],
                        now,
                    ),
                forall|k: int|
                    i <= k < self.entry_data.len() ==> #[trigger] self.entry_data@[k] == old(self).entry_data@[k],
            decreases self.entry_data.len() - i,
        {
            let current = &self.entry_data[i];
            let due = match current.completed_at {
                Some(t) => now >= i64::MIN + SECONDS_PER_DAY && t < now - SECONDS_PER_DAY,
                None => false,
            };
            if due {
                let fields = EntryFields {
                    description: current.description.clone(),
                    quantity: current.quantity.clone(),
                    notes: current.notes.clone(),
                    completed_at: current.completed_at,
                    archived_at: Some(now),
                    updated_at: current.updated_at,
                };
                self.entry_data.set(i, fields);
            }
            i += 1;
        }
        assert(self@.entry_fields =~= Seq::new(
            old(self)@.entry_fields.len(),
            |i: int| archived_fields(old(self)@.entry_fields[i], now),
        ));
    }

    /// The entries that are not archived, each once, by position; entries
    /// at the same position, which are of different categories, come in
    /// table order.
    pub fn get_active_entries(&self) -> (r: Vec<GroceryListEntry>)
        requires
            self.wf(),
        ensures
            r@.len() == count_kept(active(self@), self@.entries.len() as int),
            forall|k: int|
                0 <= k < r@.len() ==> holds(self@.entries, (#[trigger] r@[k]).id) && active(
                    self@,
                )[index_of(self@.entries, r@[k].id)] && r@[k] == entry_of(
                    self@.entries[index_of(self@.entries, r@[k].id)],
                    self@.entry_fields[index_of(self@.entries, r@[k].id)],
                ),
            forall|i: int|
                0 <= i < self@.entries.len() && #[trigger] active(self@)[i] ==> lists_entry(
                    r@,
                    self@.entries[i].id,
                ),
            forall|a: int, b: int|
                #![trigger r@[a], r@[b]]
                0 <= a < b < r@.len() ==> listed_before(
                    self@.entries,
                    index_of(self@.entries, r@[a].id),
                    index_of(self@.entries, r@[b].id),
                ),
    {
        let mut keep: Vec<bool> = Vec::new();
        let mut i: usize = 0;
        while i < self.entry_data.len()
            invariant
                i <= self.entry_data.len(),
                keep@ == active(self@).take(i as int),
            decreases self.entry_data.len() - i,
        {
            keep.push(self.entry_data[i].archived_at.is_none());
            assert(active(self@).take(i + 1) =~= active(self@).take(i as int).push(
                active(self@)[i as int],
            ));
            i += 1;
        }
        assert(active(self@).take(i as int) =~= active(self@));
        let order = self.entries.in_order(&keep);
        let mut out: Vec<GroceryListEntry> = Vec::new();
        let mut k: usize = 0;
        while k < order.len()
            invariant
                k <= order.len(),
                self.wf(),
                keep@ == active(self@),
                lists(self@.entries, keep@, self@.entries.len() as int, order@),
                out@.len() == k,
                forall|j: int|
                    0 <= j < k ==> #[trigger] out@[j] == entry_of(
                        self@.entries[order@[j] as int],
                        self@.entry_fields[order@[j] as int],
                    ),
            decreases order.len() - k,
        {
            let row = order[k];
            out.push(self.entry_at(row));
            k += 1;
        }
        proof {
            assert forall|j: int| 0 <= j < out@.len() implies index_of(
                self@.entries,
                (#[trigger] out@[j]).id,
            ) == order@[j] && holds(self@.entries, out@[j].id) by {
                lemma_index_of(self@.entries, order@[j] as int);
            }
            assert forall|i: int|
                0 <= i < self@.entries.len() && #[trigger] active(self@)[i] implies lists_entry(
                out@,
                self@.entries[i].id,
            ) by {
                assert(keep@[i]);
                let w = choose|w: int| 0 <= w < order@.len() && #[trigger] order@[w] == i;
                assert(out@[w].id == self@.entries[i].id);
            }
            assert forall|a: int, b: int|
                #![trigger out@[a], out@[b]]
                0 <= a < b < out@.len() implies listed_before(
                self@.entries,
                index_of(self@.entries, out@[a].id),
                index_of(self@.entries, out@[b].id),
            ) by {
                assert(listed_before(self@.entries, order@[a] as int, order@[b] as int));
            }
        }
        out
    }

    /// The categories, each once, by position.
    pub fn get_all_categories(&self) -> (r: Vec<Category>)
        requires
            self.wf(),
        ensures
            r@.len() == self@.categories.len(),
            forall|k: int|
                0 <= k < r@.len() ==> holds(self@.categories, (#[trigger] r@[k]).id) && r@[k]
                    == category_of(
                    self@.categories[index_of(self@.categories, r@[k].id)],
                    self@.category_fields[index_of(self@.categories, r@[k].id)],
                ),
            forall|i: int|
                0 <= i < self@.categories.len() ==> lists_category(
                    r@,
                    (#[trigger] self@.categories[i]).id,
                ),
            forall|a: int, b: int|
                #![trigger r@[a], r@[b]]
                0 <= a < b < r@.len() ==> r@[a].position < r@[b].position,
    {
        let mut keep: Vec<bool> = Vec::new();
        let mut i: usize = 0;
        while i < self.category_data.len()
            invariant
                i <= self.category_data.len(),
                keep@.len() == i,
                forall|j: int| 0 <= j < i ==> #[trigger] keep@[j],
                count_kept(keep@, i as int) == i,
            decreases self.category_data.len() - i,
        {
            let ghost before = keep@;
            keep.push(true);
            proof {
                lemma_count_kept_prefix(before, keep@, i as int);
            }
            i += 1;
        }
        let order = self.categories.in_order(&keep);
        let mut out: Vec<Category> = Vec::new();
        let mut k: usize = 0;
        while k < order.len()
            invariant
                k <= order.len(),
                self.wf(),
                keep@.len() == self@.categories.len(),
                forall|j: int| 0 <= j < keep@.len() ==> #[trigger] keep@[j],
                lists(self@.categories, keep@, self@.categories.len() as int, order@),
                out@.len() == k,
                forall|j: int|
                    0 <= j < k ==> #[trigger] out@[j] == category_of(
                        self@.categories[order@[j] as int],
                        self@.category_fields[order@[j] as int],
                    ),
            decreases order.len() - k,
        {
            let row = order[k];
            out.push(self.category_at(row));
            k += 1;
        }
        proof {
            assert forall|j: int| 0 <= j < out@.len() implies index_of(
                self@.categories,
                (#[trigger] out@[j]).id,
            ) == order@[j] && holds(self@.categories, out@[j].id) by {
                lemma_index_of(self@.categories, order@[j] as int);
            }
            assert forall|i: int| 0 <= i < self@.categories.len() implies lists_category(
                out@,
                (#[trigger] self@.categories[i]).id,
            ) by {
                assert(keep@[i]);
                let w = choose|w: int| 0 <= w < order@.len() && #[trigger] order@[w] == i;
                assert(out@[w].id == self@.categories[i].id);
            }
            assert forall|a: int, b: int|
                #![trigger out@[a], out@[b]]
                0 <= a < b < out@.len() implies out@[a].position < out@[b].position by {
                let x = order@[a] as int;
                let y = order@[b] as int;
                assert(listed_before(self@.categories, x, y));
                assert(self@.categories[x].scope == CATEGORY_SCOPE);
                assert(self@.categories[y].scope == CATEGORY_SCOPE);
                if x < y {
                    assert(!(self@.categories[x].scope == self@.categories[y].scope
                        && self@.categories[x].position == self@.categories[y].position));
                } else if y < x {
                    assert(!(self@.categories[y].scope == self@.categories[x].scope
                        && self@.categories[y].position == self@.categories[x].position));
                }
            }
        }
        out
    }

    /// Suggestions for what has been typed: the descriptions of entries that
    /// begin, letter for letter, with the query once a leading quantity is
    /// set aside; the first ten of them in ascending order, each once, each
    /// with that quantity, where the query has one, and a space before it.
    pub fn get_suggestions(&self, query: &str) -> (r: Vec<String>)
        requires
            self.wf(),
        ensures
            exists|picks: Seq<usize>|
                crate::suggestions::suggests(descriptions_of(self@), query@, picks, r@),
    {
        let mut descriptions: Vec<String> = Vec::new();
        let mut i: usize = 0;
        while i < self.entry_data.len()
            invariant
                i <= self.entry_data.len(),
                descriptions@.len() == i,
                forall|j: int|
                    0 <= j < i ==> (#[trigger] descriptions@[j])@
                        == self@.entry_fields[j].description@,
            decreases self.entry_data.len() - i,
        {
            descriptions.push(self.entry_data[i].description.clone());
            i += 1;
        }
        assert(crate::suggestions::views(descriptions@) =~= descriptions_of(self@));
        crate::suggestions::suggest(&descriptions, query)
    }
}

/// Marks that agree on the first `n` rows count the same over them.
proof fn lemma_count_kept_prefix(a: Seq<bool>, b: Seq<bool>, n: int)
    requires
        0 <= n <= a.len(),
        n <= b.len(),
        forall|i: int| 0 <= i < n ==> a[i] == b[i],
    ensures
        count_kept(a, n) == count_kept(b, n),
    decreases n,
{
    if n > 0 {
        lemma_count_kept_prefix(a, b, n - 1);
    }
}

} // verus!
