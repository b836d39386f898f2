//! The records that the repository hands out and the requests that it takes.
//! Points in time are seconds since the Unix epoch.

use crate::constants::{DEFAULT_CATEGORY_ID, ORDERABLE_LIST_MINIMUM_PERMANENT_POSITION};
use vstd::prelude::*;

verus! {

/// A category, as stored.
#[derive(Debug, Clone)]
pub struct Category {
    pub id: i64,
    pub updated_at: i64,
    pub position: i64,
    pub name: String,
    pub is_default_category: bool,
}

/// Request: a new category.
#[derive(Debug, Clone)]
pub struct CreateCategory {
    pub name: String,
}

/// Request: edits to a category. A field that is `None` is left as it is.
#[derive(Debug, Clone)]
pub struct UpdateCategory {
    pub name: Option<String>,
}

/// Request: a new position for a category.
#[derive(Debug, Clone, Copy)]
pub struct ReorderCategory {
    pub id: i64,
    pub new_position: i64,
}

/// A grocery list entry, as stored. That it is completed, and since when, is
/// told by `completed_at`.
#[derive(Debug, Clone)]
pub struct GroceryListEntry {
    pub id: i64,
    pub completed_at: Option<i64>,
    pub updated_at: i64,
    pub position: i64,
    pub quantity: String,
    pub notes: String,
    pub category_id: i64,
    pub description: String,
}

/// A grocery list entry, as callers see it: completion is a flag.
#[derive(Debug, Clone)]
pub struct ApiGroceryListEntry {
    pub id: i64,
    pub completed: bool,
    pub updated_at: i64,
    pub position: i64,
    pub quantity: String,
    pub notes: String,
    pub category_id: i64,
    pub description: String,
}

/// Request: a new entry. Without a position it is appended to its category;
/// without a category it goes where an entry of the same description was
/// last put.
#[derive(Debug, Clone)]
pub struct CreateGroceryListEntry {
    pub description: String,
    pub position: Option<i64>,
    pub quantity: Option<String>,
    pub notes: Option<String>,
    pub category_id: Option<i64>,
}

/// Request: edits to an entry. A field that is `None` is left as it is.
#[derive(Debug, Clone)]
pub struct UpdateGroceryListEntry {
    pub description: Option<String>,
    pub completed: Option<bool>,
    pub quantity: Option<String>,
    pub notes: Option<String>,
    pub category_id: Option<i64>,
    pub position: Option<i64>,
}

/// Request: a new position, a new category, or both, for an entry.
#[derive(Debug, Clone, Copy)]
pub struct ReorderEntry {
    pub id: i64,
    pub new_position: Option<i64>,
    pub new_category_id: Option<i64>,
}

/// Request: suggestions for what has been typed so far.
#[derive(Debug, Clone)]
pub struct SuggestionsQuery {
    pub query: String,
}

/// The position that a request names, or the head of the list where it
/// names none.
pub open spec fn position_or_head(position: Option<i64>) -> i64 {
    match position {
        Some(p) => p,
        None => ORDERABLE_LIST_MINIMUM_PERMANENT_POSITION,
    }
}

/// The category that a request names, or `current` where it names none.
pub open spec fn category_or(category_id: Option<i64>, current: i64) -> i64 {
    match category_id {
        Some(c) => c,
        None => current,
    }
}

/// The category that a request names, or the one where an entry of the same
/// description was last put, or the default category.
pub open spec fn category_or_last(category_id: Option<i64>, last: Option<i64>) -> i64 {
    match category_id {
        Some(c) => c,
        None => match last {
            Some(c) => c,
            None => DEFAULT_CATEGORY_ID,
        },
    }
}

/// The request moves the entry: it names a position, a category, or both.
pub open spec fn must_reorder(entry: UpdateGroceryListEntry) -> bool {
    entry.category_id is Some || entry.position is Some
}

impl ReorderEntry {
    /// Where the request sends an entry of the category `current_category`:
    /// the position, which is the head of the list where the request names
    /// none, and the category, which is the entry's own where the request
    /// names none.
    pub fn target(&self, current_category: i64) -> (r: (i64, i64))
        ensures
            r.0 == position_or_head(self.new_position),
            r.1 == category_or(self.new_category_id, current_category),
    {
        let position = match self.new_position {
            Some(p) => p,
            None => ORDERABLE_LIST_MINIMUM_PERMANENT_POSITION,
        };
        let category = match self.new_category_id {
            Some(c) => c,
            None => current_category,
        };
        (position, category)
    }
}

impl UpdateGroceryListEntry {
    /// Whether the request moves the entry.
    pub fn must_reorder(&self) -> (r: bool)
        ensures
            r == must_reorder(*self),
    {
        self.category_id.is_some() || self.position.is_some()
    }

    /// Where the request sends an entry of the category `current_category`,
    /// if it moves it: the position, which is the head of the list where the
    /// request names none, and the category, which is the entry's own where
    /// the request names none.
    pub fn target(&self, current_category: i64) -> (r: (i64, i64))
        ensures
            r.0 == position_or_head(self.position),
            r.1 == category_or(self.category_id, current_category),
    {
        let position = match self.position {
            Some(p) => p,
            None => ORDERABLE_LIST_MINIMUM_PERMANENT_POSITION,
        };
        let category = match self.category_id {
            Some(c) => c,
            None => current_category,
        };
        (position, category)
    }
}

impl CreateGroceryListEntry {
    /// The category that the new entry goes to, given the category `last`
    /// where an entry of the same description was last put.
    pub fn category_or_last(&self, last: Option<i64>) -> (r: i64)
        ensures
            r == category_or_last(self.category_id, last),
    {
        match self.category_id {
            Some(c) => c,
            None => match last {
                Some(c) => c,
                None => DEFAULT_CATEGORY_ID,
            },
        }
    }
}

impl From<&GroceryListEntry> for ApiGroceryListEntry {
    fn from(value: &GroceryListEntry) -> (r: ApiGroceryListEntry) {
        ApiGroceryListEntry {
            completed: value.completed_at.is_some(),
            id: value.id,
            updated_at: value.updated_at,
            position: value.position,
            quantity: value.quantity.clone(),
            notes: value.notes.clone(),
            category_id: value.category_id,
            description: value.description.clone(),
        }
    }
}

impl vstd::std_specs::convert::FromSpecImpl<&GroceryListEntry> for ApiGroceryListEntry {
    open spec fn obeys_from_spec() -> bool {
        true
    }

    open spec fn from_spec(value: &GroceryListEntry) -> ApiGroceryListEntry {
        ApiGroceryListEntry {
            completed: value.completed_at is Some,
            id: value.id,
            updated_at: value.updated_at,
            position: value.position,
            quantity: value.quantity,
            notes: value.notes,
            category_id: value.category_id,
            description: value.description,
        }
    }
}

} // verus!
