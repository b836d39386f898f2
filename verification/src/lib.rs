//! A grocery list whose entries keep dense, unique positions within their
//! categories, as the categories do among themselves, in a store that checks
//! the uniqueness of a place at every single row write.
//!
//! - [`ledger`]: the ordering columns of a table and the store's way with a
//!   statement.
//! - [`reorder`]: the plans that move or remove an item without ever letting
//!   two rows share a place, and the proof that the store carries them out.
//! - [`density`]: the ordering invariant and the laws of moving, appending
//!   and removing.
//! - [`database`]: the repository of entries and categories.
//! - [`sql`]: statements and edits as queries for a relational store.
//! - [`suggestions`], [`entry_input`], [`text`]: what is typed, taken apart
//!   and matched.
//! - [`assets`], [`webhook`]: the paths of static assets, and the deliveries
//!   of the deployment hook.

pub mod assets;
pub mod constants;
pub mod database;
pub mod density;
pub mod entry_input;
pub mod ledger;
pub mod models;
pub mod reorder;
pub mod sql;
pub mod suggestions;
pub mod text;
pub mod webhook;
