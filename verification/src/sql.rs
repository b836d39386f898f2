//! The statements of the ledger, and the edits of a request, as the text and
//! the parameters that a relational store takes.

use crate::constants::{
    all_fields, joined, texts, CATEGORIES_FIELDS, CATEGORIES_ID, CATEGORIES_NAME,
    CATEGORIES_POSITION, CATEGORIES_UPDATED_AT, GROCERY_LIST_ENTRIES_CATEGORY_ID,
    GROCERY_LIST_ENTRIES_COMPLETED_AT, GROCERY_LIST_ENTRIES_DESCRIPTION,
    GROCERY_LIST_ENTRIES_FIELDS, GROCERY_LIST_ENTRIES_ID, GROCERY_LIST_ENTRIES_NOTES,
    GROCERY_LIST_ENTRIES_POSITION, GROCERY_LIST_ENTRIES_QUANTITY,
    GROCERY_LIST_ENTRIES_UPDATED_AT, TABLE_NAME_CATEGORIES, TABLE_NAME_GROCERY_LIST_ENTRIES,
};
use crate::ledger::Statement;
use crate::models::{UpdateCategory, UpdateGroceryListEntry};
use vstd::prelude::*;
use vstd::string::StringExecFns;

verus! {

/// One of the two tables.
#[derive(Clone, Copy, Debug, PartialEq, Eq, Structural)]
pub enum Table {
    /// The entries, whose scope is their category.
    Entries,
    /// The categories, which are all of one scope and have no column for it.
    Categories,
}

/// A parameter of a query.
#[derive(Debug, Clone, PartialEq, Eq)]
pub enum Bind {
    Integer(i64),
    Text(String),
}

/// A query: its text, with a `?` for each parameter, and the parameters in
/// the order of their marks.
#[derive(Debug, Clone, PartialEq, Eq)]
pub struct Query {
    pub text: String,
    pub binds: Vec<Bind>,
}

/// The name of the table.
pub open spec fn table_name(table: Table) -> Seq<char> {
    match table {
        Table::Entries => TABLE_NAME_GROCERY_LIST_ENTRIES@,
        Table::Categories => TABLE_NAME_CATEGORIES@,
    }
}

/// The name of the column of ids.
pub open spec fn id_column(table: Table) -> Seq<char> {
    match table {
        Table::Entries => GROCERY_LIST_ENTRIES_ID@,
        Table::Categories => CATEGORIES_ID@,
    }
}

/// The name of the column of positions.
pub open spec fn position_column(table: Table) -> Seq<char> {
    match table {
        Table::Entries => GROCERY_LIST_ENTRIES_POSITION@,
        Table::Categories => CATEGORIES_POSITION@,
    }
}

/// The text that sets a row's scope, and the text that holds a statement to
/// one scope: both empty for the categories.
pub open spec fn scope_assignment(table: Table) -> Seq<char> {
    match table {
        Table::Entries => ", "@ + GROCERY_LIST_ENTRIES_CATEGORY_ID@ + " = ?"@,
        Table::Categories => Seq::empty(),
    }
}

/// The condition that holds a statement to one scope: empty for the
/// categories.
pub open spec fn scope_condition(table: Table) -> Seq<char> {
    match table {
        Table::Entries => " AND "@ + GROCERY_LIST_ENTRIES_CATEGORY_ID@ + " = ?"@,
        Table::Categories => Seq::empty(),
    }
}

/// The text of a statement that rewrites or removes rows; a row is added by
/// the query of the request that creates it.
pub open spec fn statement_text(table: Table, stmt: Statement) -> Seq<char> {
    match stmt {
        Statement::SetPosition { .. } => "UPDATE "@ + table_name(table) + " SET "@
            + position_column(table) + " = ? WHERE "@ + id_column(table) + " = ?"@,
        Statement::SetLocation { .. } => "UPDATE "@ + table_name(table) + " SET "@
            + position_column(table) + " = ?"@ + scope_assignment(table) + " WHERE "@ + id_column(
            table,
        ) + " = ?"@,
        Statement::ShiftAfter { .. } => "UPDATE "@ + table_name(table) + " SET "@
            + position_column(table) + " = "@ + position_column(table) + " + ? WHERE "@
            + position_column(table) + " > ?"@ + scope_condition(table),
        Statement::ShiftFrom { .. } => "UPDATE "@ + table_name(table) + " SET "@ + position_column(
            table,
        ) + " = "@ + position_column(table) + " + ? WHERE "@ + position_column(table) + " >= ?"@
            + scope_condition(table),
        Statement::Insert { .. } => Seq::empty(),
        Statement::Delete { .. } => "DELETE FROM "@ + table_name(table) + " WHERE "@ + id_column(
            table,
        ) + " = ?"@,
    }
}

/// The scope as a parameter: none for the categories.
pub open spec fn scope_binds(table: Table, scope: i64) -> Seq<Bind> {
    match table {
        Table::Entries => seq![Bind::Integer(scope)],
        Table::Categories => Seq::empty(),
    }
}

/// The parameters of a statement, in the order of their marks.
pub open spec fn statement_binds(table: Table, stmt: Statement) -> Seq<Bind> {
    match stmt {
        Statement::SetPosition { id, position } => seq![Bind::Integer(position), Bind::Integer(id)],
        Statement::SetLocation { id, position, scope } => seq![Bind::Integer(position)]
            + scope_binds(table, scope) + seq![Bind::Integer(id)],
        Statement::ShiftAfter { scope, after, delta } => seq![
            Bind::Integer(delta),
            Bind::Integer(after),
        ] + scope_binds(table, scope),
        Statement::ShiftFrom { scope, from, delta } => seq![
            Bind::Integer(delta),
            Bind::Integer(from),
        ] + scope_binds(table, scope),
        Statement::Insert { .. } => Seq::empty(),
        Statement::Delete { id } => seq![Bind::Integer(id)],
    }
}

fn name_of(table: Table) -> (r: &'static str)
    ensures
        r@ == table_name(table),
{
    match table {
        Table::Entries => TABLE_NAME_GROCERY_LIST_ENTRIES,
        Table::Categories => TABLE_NAME_CATEGORIES,
    }
}

fn id_of(table: Table) -> (r: &'static str)
    ensures
        r@ == id_column(table),
{
    match table {
        Table::Entries => GROCERY_LIST_ENTRIES_ID,
        Table::Categories => CATEGORIES_ID,
    }
}

fn position_of(table: Table) -> (r: &'static str)
    ensures
        r@ == position_column(table),
{
    match table {
        Table::Entries => GROCERY_LIST_ENTRIES_POSITION,
        Table::Categories => CATEGORIES_POSITION,
    }
}

/// Adds the scope, where the table has one, to the parameters.
fn bind_scope(binds: &mut Vec<Bind>, table: Table, scope: i64)
    ensures
        final(binds)@ == old(binds)@ + scope_binds(table, scope),
{
    match table {
        Table::Entries => {
            binds.push(Bind::Integer(scope));
            assert(binds@ =~= old(binds)@ + scope_binds(table, scope));
        },
        Table::Categories => {
            assert(binds@ =~= old(binds)@ + scope_binds(table, scope));
        },
    }
}

/// Adds the condition on the scope, where the table has one, to the text.
fn append_scope_condition(text: &mut String, table: Table)
    ensures
        final(text)@ == old(text)@ + scope_condition(table),
{
    match table {
        Table::Entries => {
            let ghost start = text@;
            text.append(" AND ");
            text.append(GROCERY_LIST_ENTRIES_CATEGORY_ID);
            text.append(" = ?");
            assert(text@ =~= start + scope_condition(table));
        },
        Table::Categories => {
            assert(text@ =~= old(text)@ + scope_condition(table));
        },
    }
}

/// A statement of the ledger that rewrites or removes rows, as a query on
/// `table`; `None` for one that adds a row, which is added by the query of
/// the request that creates it.
pub fn statement_query(table: Table, stmt: Statement) -> (r: Option<Query>)
    ensures
        r is None <==> stmt is Insert,
        r is Some ==> r.unwrap().text@ == statement_text(table, stmt) && r.unwrap().binds@
            == statement_binds(table, stmt),
{
    let mut text = String::new();
    let mut binds: Vec<Bind> = Vec::new();
    match stmt {
        Statement::SetPosition { id, position } => {
            text.append("UPDATE ");
            text.append(name_of(table));
            text.append(" SET ");
            text.append(position_of(table));
            text.append(" = ? WHERE ");
            text.append(id_of(table));
            text.append(" = ?");
            binds.push(Bind::Integer(position));
            binds.push(Bind::Integer(id));
            assert(text@ =~= statement_text(table, stmt));
            assert(binds@ =~= statement_binds(table, stmt));
        },
        Statement::SetLocation { id, position, scope } => {
            text.append("UPDATE ");
            text.append(name_of(table));
            text.append(" SET ");
            text.append(position_of(table));
            text.append(" = ?");
            binds.push(Bind::Integer(position));
            match table {
                Table::Entries => {
                    text.append(", ");
                    text.append(GROCERY_LIST_ENTRIES_CATEGORY_ID);
                    text.append(" = ?");
                },
                Table::Categories => {},
            }
            bind_scope(&mut binds, table, scope);
            text.append(" WHERE ");
            text.append(id_of(table));
            text.append(" = ?");
            binds.push(Bind::Integer(id));
            assert(text@ =~= statement_text(table, stmt));
            assert(binds@ =~= statement_binds(table, stmt));
        },
        Statement::ShiftAfter { scope, after, delta } => {
            text.append("UPDATE ");
            text.append(name_of(table));
            text.append(" SET ");
            text.append(position_of(table));
            text.append(" = ");
            text.append(position_of(table));
            text.append(" + ? WHERE ");
            text.append(position_of(table));
            text.append(" > ?");
            append_scope_condition(&mut text, table);
            binds.push(Bind::Integer(delta));
            binds.push(Bind::Integer(after));
            bind_scope(&mut binds, table, scope);
            assert(text@ =~= statement_text(table, stmt));
            assert(binds@ =~= statement_binds(table, stmt));
        },
        Statement::ShiftFrom { scope, from, delta } => {
            text.append("UPDATE ");
            text.append(name_of(table));
            text.append(" SET ");
            text.append(position_of(table));
            text.append(" = ");
            text.append(position_of(table));
            text.append(" + ? WHERE ");
            text.append(position_of(table));
            text.append(" >= ?");
            append_scope_condition(&mut text, table);
            binds.push(Bind::Integer(delta));
            binds.push(Bind::Integer(from));
            bind_scope(&mut binds, table, scope);
            assert(text@ =~= statement_text(table, stmt));
            assert(binds@ =~= statement_binds(table, stmt));
        },
        Statement::Insert { .. } => {
            return None;
        },
        Statement::Delete { id } => {
            text.append("DELETE FROM ");
            text.append(name_of(table));
            text.append(" WHERE ");
            text.append(id_of(table));
            text.append(" = ?");
            binds.push(Bind::Integer(id));
            assert(text@ =~= statement_text(table, stmt));
            assert(binds@ =~= statement_binds(table, stmt));
        },
    }
    Some(Query { text, binds })
}

/// The text that hands back a row of `table` after a write.
pub open spec fn returning(table: Table) -> Seq<char> {
    " RETURNING "@ + (match table {
        Table::Entries => joined(texts(GROCERY_LIST_ENTRIES_FIELDS@), ", "@),
        Table::Categories => joined(texts(CATEGORIES_FIELDS@), ", "@),
    })
}

/// Adds the text that hands back a row of `table` after a write.
fn append_returning(text: &mut String, table: Table)
    ensures
        final(text)@ == old(text)@ + returning(table),
{
    let ghost start = text@;
    text.append(" RETURNING ");
    let fields = match table {
        Table::Entries => all_fields(&GROCERY_LIST_ENTRIES_FIELDS),
        Table::Categories => all_fields(&CATEGORIES_FIELDS),
    };
    text.append(fields.as_str());
    assert(text@ =~= start + returning(table));
}

/// The text of the query that adds an entry.
pub open spec fn create_entry_text() -> Seq<char> {
    "INSERT INTO "@ + TABLE_NAME_GROCERY_LIST_ENTRIES@ + " ("@ + GROCERY_LIST_ENTRIES_DESCRIPTION@
        + ", "@ + GROCERY_LIST_ENTRIES_POSITION@ + ", "@ + GROCERY_LIST_ENTRIES_QUANTITY@ + ", "@
        + GROCERY_LIST_ENTRIES_NOTES@ + ", "@ + GROCERY_LIST_ENTRIES_CATEGORY_ID@
        + ") VALUES (?, ?, ?, ?, ?)"@ + returning(Table::Entries)
}

/// The query that adds an entry and hands it back.
pub fn create_entry_query(
    description: String,
    position: i64,
    quantity: String,
    notes: String,
    category_id: i64,
) -> (r: Query)
    ensures
        r.text@ == create_entry_text(),
        r.binds@ == seq![
            Bind::Text(description),
            Bind::Integer(position),
            Bind::Text(quantity),
            Bind::Text(notes),
            Bind::Integer(category_id),
        ],
{
    let mut text = String::new();
    text.append("INSERT INTO ");
    text.append(TABLE_NAME_GROCERY_LIST_ENTRIES);
    text.append(" (");
    text.append(GROCERY_LIST_ENTRIES_DESCRIPTION);
    text.append(", ");
    text.append(GROCERY_LIST_ENTRIES_POSITION);
    text.append(", ");
    text.append(GROCERY_LIST_ENTRIES_QUANTITY);
    text.append(", ");
    text.append(GROCERY_LIST_ENTRIES_NOTES);
    text.append(", ");
    text.append(GROCERY_LIST_ENTRIES_CATEGORY_ID);
    text.append(") VALUES (?, ?, ?, ?, ?)");
    append_returning(&mut text, Table::Entries);
    let mut binds: Vec<Bind> = Vec::new();
    binds.push(Bind::Text(description));
    binds.push(Bind::Integer(position));
    binds.push(Bind::Text(quantity));
    binds.push(Bind::Text(notes));
    binds.push(Bind::Integer(category_id));
    assert(binds@ =~= seq![
        Bind::Text(description),
        Bind::Integer(position),
        Bind::Text(quantity),
        Bind::Text(notes),
        Bind::Integer(category_id),
    ]);
    Query { text, binds }
}

/// The text of the query that adds a category.
pub open spec fn create_category_text() -> Seq<char> {
    "INSERT INTO "@ + TABLE_NAME_CATEGORIES@ + " ("@ + CATEGORIES_NAME@ + ", "@
        + CATEGORIES_POSITION@ + ") VALUES (?, ?)"@ + returning(Table::Categories)
}

/// The query that adds a category and hands it back.
pub fn create_category_query(name: String, position: i64) -> (r: Query)
    ensures
        r.text@ == create_category_text(),
        r.binds@ == seq![Bind::Text(name), Bind::Integer(position)],
{
    let mut text = String::new();
    text.append("INSERT INTO ");
    text.append(TABLE_NAME_CATEGORIES);
    text.append(" (");
    text.append(CATEGORIES_NAME);
    text.append(", ");
    text.append(CATEGORIES_POSITION);
    text.append(") VALUES (?, ?)");
    append_returning(&mut text, Table::Categories);
    let mut binds: Vec<Bind> = Vec::new();
    binds.push(Bind::Text(name));
    binds.push(Bind::Integer(position));
    assert(binds@ =~= seq![Bind::Text(name), Bind::Integer(position)]);
    Query { text, binds }
}

/// The assignment of a parameter to the column `column`, behind `before`.
pub open spec fn assigned(before: Seq<char>, column: Seq<char>) -> Seq<char> {
    before + column + " = ?,"@
}

/// The columns that the edits of an entry set, each with its value or its
/// mark and a comma behind it, in the order of the columns.
pub open spec fn entry_assignments(entry: UpdateGroceryListEntry) -> Seq<char> {
    let a = if entry.description is Some {
        assigned(Seq::empty(), GROCERY_LIST_ENTRIES_DESCRIPTION@)
    } else {
        Seq::empty()
    };
    let b = match entry.completed {
        Some(true) => a + GROCERY_LIST_ENTRIES_COMPLETED_AT@ + " = CURRENT_TIMESTAMP,"@,
        Some(false) => a + GROCERY_LIST_ENTRIES_COMPLETED_AT@ + " = NULL,"@,
        None => a,
    };
    let c = if entry.quantity is Some {
        assigned(b, GROCERY_LIST_ENTRIES_QUANTITY@)
    } else {
        b
    };
    if entry.notes is Some {
        assigned(c, GROCERY_LIST_ENTRIES_NOTES@)
    } else {
        c
    }
}

/// A text as a parameter, where the request gives it.
pub open spec fn text_binds(given: Option<String>) -> Seq<Bind> {
    match given {
        Some(t) => seq![Bind::Text(t)],
        None => Seq::empty(),
    }
}

/// The text of the query that edits an entry: the columns that the request
/// gives, then the time of the update.
pub open spec fn update_entry_text(entry: UpdateGroceryListEntry) -> Seq<char> {
    "UPDATE "@ + TABLE_NAME_GROCERY_LIST_ENTRIES@ + " SET "@ + entry_assignments(entry)
        + GROCERY_LIST_ENTRIES_UPDATED_AT@ + " = CURRENT_TIMESTAMP WHERE "@
        + GROCERY_LIST_ENTRIES_ID@ + " = ?"@ + returning(Table::Entries)
}

/// Adds the assignment of a text, where the request gives it.
fn assign_text(text: &mut String, binds: &mut Vec<Bind>, column: &str, given: &Option<String>)
    ensures
        final(text)@ == (if given is Some {
            assigned(old(text)@, column@)
        } else {
            old(text)@
        }),
        final(binds)@ == old(binds)@ + text_binds(*given),
{
    match given {
        Some(t) => {
            text.append(column);
            text.append(" = ?,");
            binds.push(Bind::Text(t.clone()));
            assert(text@ =~= assigned(old(text)@, column@));
            assert(binds@ =~= old(binds)@ + text_binds(*given));
        },
        None => {
            assert(binds@ =~= old(binds)@ + text_binds(*given));
        },
    }
}

/// The query that edits the entry `id` and hands it back. Position and
/// category are no part of it: they are for the reorder engine.
pub fn update_entry_query(id: i64, entry: &UpdateGroceryListEntry) -> (r: Query)
    ensures
        r.text@ == update_entry_text(*entry),
        r.binds@ == text_binds(entry.description) + text_binds(entry.quantity) + text_binds(
            entry.notes,
        ) + seq![Bind::Integer(id)],
{
    let mut text = String::new();
    let mut binds: Vec<Bind> = Vec::new();
    text.append("UPDATE ");
    text.append(TABLE_NAME_GROCERY_LIST_ENTRIES);
    text.append(" SET ");
    let ghost head = text@;
    let mut edits = String::new();
    assign_text(&mut edits, &mut binds, GROCERY_LIST_ENTRIES_DESCRIPTION, &entry.description);
    match entry.completed {
        Some(true) => {
            edits.append(GROCERY_LIST_ENTRIES_COMPLETED_AT);
            edits.append(" = CURRENT_TIMESTAMP,");
        },
        Some(false) => {
            edits.append(GROCERY_LIST_ENTRIES_COMPLETED_AT);
            edits.append(" = NULL,");
        },
        None => {},
    }
    assign_text(&mut edits, &mut binds, GROCERY_LIST_ENTRIES_QUANTITY, &entry.quantity);
    assign_text(&mut edits, &mut binds, GROCERY_LIST_ENTRIES_NOTES, &entry.notes);
    assert(edits@ =~= entry_assignments(*entry));
    text.append(edits.as_str());
    text.append(GROCERY_LIST_ENTRIES_UPDATED_AT);
    text.append(" = CURRENT_TIMESTAMP WHERE ");
    text.append(GROCERY_LIST_ENTRIES_ID);
    text.append(" = ?");
    binds.push(Bind::Integer(id));
    append_returning(&mut text, Table::Entries);
    assert(binds@ =~= text_binds(entry.description) + text_binds(entry.quantity) + text_binds(
        entry.notes,
    ) + seq![Bind::Integer(id)]);
    Query { text, binds }
}

/// The text of the query that edits a category.
pub open spec fn update_category_text(category: UpdateCategory) -> Seq<char> {
    "UPDATE "@ + TABLE_NAME_CATEGORIES@ + " SET "@ + (if category.name is Some {
        assigned(Seq::empty(), CATEGORIES_NAME@)
    } else {
        Seq::empty()
    }) + CATEGORIES_UPDATED_AT@ + " = CURRENT_TIMESTAMP WHERE "@ + CATEGORIES_ID@ + " = ?"@
        + returning(Table::Categories)
}

/// The query that edits the category `id` and hands it back.
pub fn update_category_query(id: i64, category: &UpdateCategory) -> (r: Query)
    ensures
        r.text@ == update_category_text(*category),
        r.binds@ == text_binds(category.name) + seq![Bind::Integer(id)],
{
    let mut text = String::new();
    let mut binds: Vec<Bind> = Vec::new();
    text.append("UPDATE ");
    text.append(TABLE_NAME_CATEGORIES);
    text.append(" SET ");
    let mut edits = String::new();
    assign_text(&mut edits, &mut binds, CATEGORIES_NAME, &category.name);
    text.append(edits.as_str());
    text.append(CATEGORIES_UPDATED_AT);
    text.append(" = CURRENT_TIMESTAMP WHERE ");
    text.append(CATEGORIES_ID);
    text.append(" = ?");
    binds.push(Bind::Integer(id));
    append_returning(&mut text, Table::Categories);
    assert(binds@ =~= text_binds(category.name) + seq![Bind::Integer(id)]);
    Query { text, binds }
}

} // verus!
