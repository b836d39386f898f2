//! The reorder engine: moving one item to a new position, possibly in another
//! scope, by statements that never let two rows share a place, not even
//! between two row writes of one statement.
//!
//! A move is a plan of six statements: the item is set to the reserved
//! position 0; the rows above the place it leaves are lifted over the
//! legitimate range by the parking offset less one, then set down by the
//! whole offset, which leaves each one lower; the rows from the place it goes
//! to are lifted by the whole offset, then set down by the offset less one,
//! which leaves each one higher; the item is set to its new place.
//!
//! A position below 1 is refused before anything is written: position 0 is
//! for the item on its way, and no item holds it once a move is through.
//!
//! [`lemma_move_runs`] shows that the store carries such a plan out wherever
//! the scope that the item leaves and the scope that it enters hold
//! legitimate positions. A table is any sequence of rows: nothing
//! is asked of the order of its rows, which is the order in which the store
//! writes them, so what is shown holds whatever that order is.

use crate::constants::MAX_NUM_POSITIONED_GROCERY_ITEMS;
use crate::constants::ORDERABLE_LIST_MINIMUM_PERMANENT_POSITION;
use crate::constants::ORDERABLE_LIST_REORDER_TEMPORARY_POSITION;
use crate::ledger::{
    accepted, blocked, effect, held_at_write, holds, index_of, lemma_effect_valid, places_unique,
    rewritten, run, selects, storable, taken, target, valid, Ledger,
    Slot, Statement, StoreError,
};
use crate::density::{
    dense_in, in_range, law_move_keeps_scope_dense, law_removal_keeps_scope_dense,
    lemma_count_bounds, lemma_dense_is_legitimate,
};
use vstd::prelude::*;

verus! {

/// A position that a positioned item may hold: at least 1, and so far below
/// the parking offset that its successor is below it too.
pub open spec fn legitimate(position: int) -> bool {
    1 <= position < MAX_NUM_POSITIONED_GROCERY_ITEMS - 1
}

/// Every row of `scope` holds a legitimate position.
pub open spec fn scope_legitimate(rows: Seq<Slot>, scope: i64) -> bool {
    forall|i: int|
        0 <= i < rows.len() && (#[trigger] rows[i]).scope == scope ==> legitimate(
            rows[i].position as int,
        )
}

/// The statements that close the gap above `position` in `scope`: every row
/// above it is lifted over the legitimate range, then set down one below
/// where it was.
pub open spec fn close_gap_plan(position: i64, scope: i64) -> Seq<Statement> {
    seq![
        Statement::ShiftAfter {
            scope,
            after: position,
            delta: (MAX_NUM_POSITIONED_GROCERY_ITEMS - 1) as i64,
        },
        Statement::ShiftAfter {
            scope,
            after: position,
            delta: (-MAX_NUM_POSITIONED_GROCERY_ITEMS) as i64,
        },
    ]
}

/// The statements that open a gap at `position` in `scope`: every row from it
/// on is lifted over the legitimate range, then set down one above where it
/// was.
pub open spec fn open_gap_plan(position: i64, scope: i64) -> Seq<Statement> {
    seq![
        Statement::ShiftFrom { scope, from: position, delta: MAX_NUM_POSITIONED_GROCERY_ITEMS },
        Statement::ShiftFrom {
            scope,
            from: position,
            delta: (-(MAX_NUM_POSITIONED_GROCERY_ITEMS - 1)) as i64,
        },
    ]
}

/// The statements of one move, in the order in which they must run:
/// quarantine the item, close the gap it leaves, open the gap it goes to,
/// land it.
pub open spec fn move_plan(
    id: i64,
    old_position: i64,
    old_scope: i64,
    new_position: i64,
    new_scope: i64,
) -> Seq<Statement> {
    seq![
        Statement::SetPosition { id, position: ORDERABLE_LIST_REORDER_TEMPORARY_POSITION },
    ] + close_gap_plan(old_position, old_scope) + open_gap_plan(new_position, new_scope)
        + seq![Statement::SetLocation { id, position: new_position, scope: new_scope }]
}

/// The statements that take the item `id` out of the table and close the
/// gap that it leaves at `position` in `scope`.
pub open spec fn removal_plan(id: i64, position: i64, scope: i64) -> Seq<Statement> {
    seq![Statement::Delete { id }] + close_gap_plan(position, scope)
}

/// The position of a row once the gap at `position` in `scope` is closed.
pub open spec fn closed_position(slot: Slot, position: i64, scope: i64) -> int {
    if slot.scope == scope && slot.position > position {
        slot.position - 1
    } else {
        slot.position as int
    }
}

/// The position of a row of `scope` at `position` once a gap is opened at
/// `new_position` in `new_scope`.
pub open spec fn opened_position(
    scope: i64,
    position: int,
    new_position: i64,
    new_scope: i64,
) -> int {
    if scope == new_scope && position >= new_position {
        position + 1
    } else {
        position
    }
}

/// A row after the item that stood at `from` has moved to `new_position` in
/// `new_scope`: the item itself stands there; every other row that was above
/// it in its old scope is one lower, and every other row that then stands at
/// `new_position` or above in the new scope is one higher.
pub open spec fn moved_slot(slot: Slot, from: Slot, new_position: i64, new_scope: i64) -> Slot {
    if slot.id == from.id {
        Slot { id: slot.id, scope: new_scope, position: new_position }
    } else {
        Slot {
            id: slot.id,
            scope: slot.scope,
            position: opened_position(
                slot.scope,
                closed_position(slot, from.position, from.scope),
                new_position,
                new_scope,
            ) as i64,
        }
    }
}

/// The table after the item `id` has moved to `new_position` in `new_scope`.
pub open spec fn moved(rows: Seq<Slot>, id: i64, new_position: i64, new_scope: i64) -> Seq<Slot> {
    let from = rows[index_of(rows, id)];
    Seq::new(rows.len(), |i: int| moved_slot(rows[i], from, new_position, new_scope))
}

/// The table after the gap at `position` in `scope` is closed.
pub open spec fn gap_closed(rows: Seq<Slot>, position: i64, scope: i64) -> Seq<Slot> {
    Seq::new(
        rows.len(),
        |i: int|
            Slot {
                id: rows[i].id,
                scope: rows[i].scope,
                position: closed_position(rows[i], position, scope) as i64,
            },
    )
}

/// The table after a gap is opened at `position` in `scope`.
pub open spec fn gap_opened(rows: Seq<Slot>, position: i64, scope: i64) -> Seq<Slot> {
    Seq::new(
        rows.len(),
        |i: int|
            Slot {
                id: rows[i].id,
                scope: rows[i].scope,
                position: opened_position(
                    rows[i].scope,
                    rows[i].position as int,
                    position,
                    scope,
                ) as i64,
            },
    )
}

/// The table after the item `id` is taken out: its row is gone, and every
/// row that was above it in its scope is one lower.
pub open spec fn removed(rows: Seq<Slot>, id: i64) -> Seq<Slot> {
    let from = rows[index_of(rows, id)];
    gap_closed(rows.remove(index_of(rows, id)), from.position, from.scope)
}

/// What comes of the move of the item `id`, which the table holds, to
/// `new_position` in `new_scope`: the table after it; `None` where the
/// position is below 1, which no item may hold once a move is through, or
/// where the store refuses one of the statements.
pub open spec fn move_outcome(rows: Seq<Slot>, id: i64, new_position: i64, new_scope: i64) -> Option<
    Seq<Slot>,
> {
    if new_position < ORDERABLE_LIST_MINIMUM_PERMANENT_POSITION {
        None
    } else {
        run(
            rows,
            move_plan(
                id,
                rows[index_of(rows, id)].position,
                rows[index_of(rows, id)].scope,
                new_position,
                new_scope,
            ),
        )
    }
}

/// What the store makes of the removal of the item `id`, which the table
/// holds: the table after it, or `None` where the store refuses one of its
/// statements.
pub open spec fn removal_outcome(rows: Seq<Slot>, id: i64) -> Option<Seq<Slot>> {
    run(rows, removal_plan(id, rows[index_of(rows, id)].position, rows[index_of(rows, id)].scope))
}

/// The statements that close the gap above `position` in `scope`.
pub fn plan_close_gap(position: i64, scope: i64) -> (plan: Vec<Statement>)
    ensures
        plan@ == close_gap_plan(position, scope),
{
    let mut plan: Vec<Statement> = Vec::new();
    plan.push(
        Statement::ShiftAfter {
            scope,
            after: position,
            delta: MAX_NUM_POSITIONED_GROCERY_ITEMS - 1,
        },
    );
    plan.push(
        Statement::ShiftAfter { scope, after: position, delta: -MAX_NUM_POSITIONED_GROCERY_ITEMS },
    );
    assert(plan@ =~= close_gap_plan(position, scope));
    plan
}

/// The statements that open a gap at `position` in `scope`.
pub fn plan_open_gap(position: i64, scope: i64) -> (plan: Vec<Statement>)
    ensures
        plan@ == open_gap_plan(position, scope),
{
    let mut plan: Vec<Statement> = Vec::new();
    plan.push(
        Statement::ShiftFrom { scope, from: position, delta: MAX_NUM_POSITIONED_GROCERY_ITEMS },
    );
    plan.push(
        Statement::ShiftFrom {
            scope,
            from: position,
            delta: -(MAX_NUM_POSITIONED_GROCERY_ITEMS - 1),
        },
    );
    assert(plan@ =~= open_gap_plan(position, scope));
    plan
}

/// The statements that move the item `id` from where it stands to
/// `new_position` in `new_scope`.
pub fn plan_move(
    id: i64,
    old_position: i64,
    old_scope: i64,
    new_position: i64,
    new_scope: i64,
) -> (plan: Vec<Statement>)
    ensures
        plan@ == move_plan(id, old_position, old_scope, new_position, new_scope),
{
    let mut plan: Vec<Statement> = Vec::new();
    plan.push(Statement::SetPosition { id, position: ORDERABLE_LIST_REORDER_TEMPORARY_POSITION });
    let mut closing = plan_close_gap(old_position, old_scope);
    plan.append(&mut closing);
    let mut opening = plan_open_gap(new_position, new_scope);
    plan.append(&mut opening);
    plan.push(Statement::SetLocation { id, position: new_position, scope: new_scope });
    assert(plan@ =~= move_plan(id, old_position, old_scope, new_position, new_scope));
    plan
}

/// The statements that take the item `id` out of the table and close the
/// gap that it leaves at `position` in `scope`.
pub fn plan_removal(id: i64, position: i64, scope: i64) -> (plan: Vec<Statement>)
    ensures
        plan@ == removal_plan(id, position, scope),
{
    let mut plan: Vec<Statement> = Vec::new();
    plan.push(Statement::Delete { id });
    let mut closing = plan_close_gap(position, scope);
    plan.append(&mut closing);
    assert(plan@ =~= removal_plan(id, position, scope));
    plan
}

/// Whether `position` lies within a list of `size` items to which an item is
/// moved that is already in it (`stays`) or comes from another list: from 1
/// to the number of items that the list has with it.
pub fn lies_within(position: i64, size: usize, stays: bool) -> (r: bool)
    ensures
        r == (1 <= position <= size + (if stays {
            0int
        } else {
            1int
        })),
{
    if position < 1 {
        false
    } else if stays {
        position as u128 <= size as u128
    } else {
        position as u128 <= size as u128 + 1
    }
}

impl Ledger {
    /// Takes the item `id` out of the table and closes the gap that it
    /// leaves, as one transaction.
    ///
    /// An id that no row has is `NotFound`. Otherwise the outcome is that of
    /// the plan in the store. The store never refuses it where the rows of
    /// the item's scope hold legitimate positions, as they do in a dense
    /// scope, which is dense again afterwards.
    pub fn remove_item(&mut self, id: i64) -> (r: Result<(), StoreError>)
        requires
            old(self).wf(),
        ensures
            final(self).wf(),
            !holds(old(self)@, id) ==> r == Err::<(), StoreError>(StoreError::NotFound) && final(self)@ == old(self)@,
            holds(old(self)@, id) ==> match removal_outcome(old(self)@, id) {
                Some(next) => r is Ok && final(self)@ == next,
                None => r == Err::<(), StoreError>(StoreError::ConstraintViolation) && final(self)@
                    == old(self)@,
            },
            holds(old(self)@, id) && scope_legitimate(
                old(self)@,
                old(self)@[index_of(old(self)@, id)].scope,
            ) ==> r is Ok && final(self)@ == removed(old(self)@, id),
            holds(old(self)@, id) && dense_in(
                old(self)@,
                old(self)@[index_of(old(self)@, id)].scope,
            ) ==> r is Ok && final(self)@ == removed(old(self)@, id) && dense_in(
                final(self)@,
                old(self)@[index_of(old(self)@, id)].scope,
            ),
    {
        match self.current_location(id) {
            None => Err(StoreError::NotFound),
            Some((position, scope)) => {
                proof {
                    if dense_in(self@, scope) {
                        lemma_dense_is_legitimate(self@, scope);
                        law_removal_keeps_scope_dense(self@, id, scope);
                    }
                    if scope_legitimate(self@, scope) {
                        lemma_removal_runs(self@, id);
                    }
                }
                let plan = plan_removal(id, position, scope);
                self.execute(&plan)
            },
        }
    }

    /// Moves the item `id` to `new_position` in `new_scope` as one
    /// transaction: the item is taken out of the ordering, the gap it leaves
    /// is closed, a gap is opened where it goes, and it is set down there.
    ///
    /// An id that no row has is `NotFound`. A position below 1 is refused
    /// with `ConstraintViolation` before anything is written. Otherwise the
    /// outcome is that of the plan in the store. The store never refuses it
    /// where the rows of the scope that the item leaves and of the scope
    /// that it enters hold legitimate positions, as they do in dense
    /// scopes, which are dense again afterwards if the position lies within
    /// the list that the item goes to.
    pub fn move_to_position(&mut self, id: i64, new_position: i64, new_scope: i64) -> (r: Result<
        (),
        StoreError,
    >)
        requires
            old(self).wf(),
        ensures
            final(self).wf(),
            !holds(old(self)@, id) ==> r == Err::<(), StoreError>(StoreError::NotFound) && final(self)@ == old(self)@,
            holds(old(self)@, id) ==> match move_outcome(old(self)@, id, new_position, new_scope) {
                Some(next) => r is Ok && final(self)@ == next,
                None => r == Err::<(), StoreError>(StoreError::ConstraintViolation) && final(self)@
                    == old(self)@,
            },
            holds(old(self)@, id) && scope_legitimate(
                old(self)@,
                old(self)@[index_of(old(self)@, id)].scope,
            ) && scope_legitimate(old(self)@, new_scope) && 1 <= new_position < i64::MAX ==> r
                is Ok && final(self)@ == moved(old(self)@, id, new_position, new_scope),
            holds(old(self)@, id) && dense_in(
                old(self)@,
                old(self)@[index_of(old(self)@, id)].scope,
            ) && dense_in(old(self)@, new_scope) && in_range(
                old(self)@,
                id,
                new_position,
                new_scope,
            ) ==> r is Ok && final(self)@ == moved(old(self)@, id, new_position, new_scope)
                && dense_in(final(self)@, old(self)@[index_of(old(self)@, id)].scope) && dense_in(
                final(self)@,
                new_scope,
            ),
    {
        match self.current_location(id) {
            None => Err(StoreError::NotFound),
            Some((old_position, old_scope)) => {
                if new_position < ORDERABLE_LIST_MINIMUM_PERMANENT_POSITION {
                    return Err(StoreError::ConstraintViolation);
                }
                proof {
                    if dense_in(self@, old_scope) && dense_in(self@, new_scope) && in_range(
                        self@,
                        id,
                        new_position,
                        new_scope,
                    ) {
                        lemma_dense_is_legitimate(self@, old_scope);
                        lemma_dense_is_legitimate(self@, new_scope);
                        lemma_count_bounds(self@, new_scope, self@.len() as int);
                        law_move_keeps_scope_dense(self@, id, new_position, new_scope, old_scope);
                        law_move_keeps_scope_dense(self@, id, new_position, new_scope, new_scope);
                    }
                    if scope_legitimate(self@, old_scope) && scope_legitimate(self@, new_scope)
                        && new_position < i64::MAX {
                        lemma_move_runs(self@, id, new_position, new_scope);
                    }
                }
                let plan = plan_move(id, old_position, old_scope, new_position, new_scope);
                self.execute(&plan)
            },
        }
    }
}

/// A plan in two parts runs as its first part and then, from where that
/// ended, its second part.
pub proof fn lemma_run_concat(rows: Seq<Slot>, first: Seq<Statement>, second: Seq<Statement>)
    ensures
        run(rows, first + second) == match run(rows, first) {
            Some(mid) => run(mid, second),
            None => None,
        },
    decreases first.len(),
{
    if first.len() == 0 {
        assert(first + second =~= second);
    } else {
        assert((first + second)[0] == first[0]);
        assert((first + second).skip(1) =~= first.skip(1) + second);
        match effect(rows, first[0]) {
            Some(next) => {
                lemma_run_concat(next, first.skip(1), second);
            },
            None => {},
        }
    }
}

/// A plan of one statement runs as that statement.
pub proof fn lemma_run_one(rows: Seq<Slot>, stmt: Statement)
    ensures
        run(rows, seq![stmt]) == effect(rows, stmt),
{
    let plan = seq![stmt];
    assert(plan[0] == stmt);
    assert(plan.skip(1).len() == 0);
    match effect(rows, stmt) {
        Some(next) => {
            assert(run(next, plan.skip(1)) == Some(next));
        },
        None => {},
    }
}

/// A plan of two statements runs as the one and then the other.
pub proof fn lemma_run_two(rows: Seq<Slot>, a: Statement, b: Statement)
    ensures
        run(rows, seq![a, b]) == match effect(rows, a) {
            Some(mid) => effect(mid, b),
            None => None,
        },
{
    assert(seq![a, b] =~= seq![a] + seq![b]);
    lemma_run_concat(rows, seq![a], seq![b]);
    lemma_run_one(rows, a);
    match effect(rows, a) {
        Some(mid) => {
            lemma_run_one(mid, b);
        },
        None => {},
    }
}

/// A plan that the store carries out leaves the table in a state that the
/// store can be in.
pub proof fn lemma_run_valid(rows: Seq<Slot>, plan: Seq<Statement>)
    requires
        valid(rows),
    ensures
        run(rows, plan) is Some ==> valid(run(rows, plan).unwrap()),
    decreases plan.len(),
{
    if plan.len() > 0 {
        lemma_effect_valid(rows, plan[0]);
        match effect(rows, plan[0]) {
            Some(next) => {
                lemma_run_valid(next, plan.skip(1));
            },
            None => {},
        }
    }
}

/// Every row is in `scope`.
pub open spec fn all_in(rows: Seq<Slot>, scope: i64) -> bool {
    forall|i: int| 0 <= i < rows.len() ==> (#[trigger] rows[i]).scope == scope
}

/// Every row of `scope` stands at 0 or at a legitimate position.
pub open spec fn scope_parkable(rows: Seq<Slot>, scope: i64) -> bool {
    forall|i: int|
        0 <= i < rows.len() && (#[trigger] rows[i]).scope == scope ==> 0 <= rows[i].position
            < MAX_NUM_POSITIONED_GROCERY_ITEMS - 1
}

/// The store accepts a shift whenever every new position fits the column and
/// no row that it moves is sent to the position that another row of its scope
/// holds before the statement: then no order of the row writes can collide.
pub proof fn lemma_shift_accepted(rows: Seq<Slot>, stmt: Statement)
    requires
        stmt is ShiftAfter || stmt is ShiftFrom,
        places_unique(rows),
        forall|i: int|
            0 <= i < rows.len() && selects(stmt, #[trigger] rows[i]) ==> storable(
                target(stmt, rows[i]).position,
            ),
        forall|i: int, j: int|
            #![trigger rows[i], rows[j]]
            0 <= i < rows.len() && 0 <= j < rows.len() && i != j && selects(stmt, rows[i])
                && rows[j].scope == rows[i].scope ==> rows[j].position != target(
                stmt,
                rows[i],
            ).position,
    ensures
        accepted(rows, stmt),
{
    assert forall|i: int| 0 <= i < rows.len() && selects(stmt, #[trigger] rows[i]) implies !blocked(
        rows,
        stmt,
        i,
    ) by {
        let t = target(stmt, rows[i]);
        assert forall|j: int| 0 <= j < rows.len() && j != i implies !((#[trigger] held_at_write(
            rows,
            stmt,
            i,
            j,
        )).scope == t.scope && held_at_write(rows, stmt, i, j).position == t.position) by {
            if j < i {
                assert(!(rows[j].scope == rows[i].scope && rows[j].position == rows[i].position));
            } else {
                assert(!(rows[i].scope == rows[j].scope && rows[i].position == rows[j].position));
            }
        }
    }
}

/// Closing a gap never collides: where nothing stands at `position` in
/// `scope` and every row of the scope stands at 0 or at a legitimate
/// position, the store carries the two passes out, and every row above the
/// gap ends one lower.
pub proof fn lemma_close_gap_runs(rows: Seq<Slot>, position: i64, scope: i64)
    requires
        valid(rows),
        scope_parkable(rows, scope),
        0 <= position,
        !taken(rows, scope, position as int),
    ensures
        run(rows, close_gap_plan(position, scope)) == Some(gap_closed(rows, position, scope)),
{
    let lift = close_gap_plan(position, scope)[0];
    let land = close_gap_plan(position, scope)[1];
    assert(close_gap_plan(position, scope) =~= seq![lift, land]);
    lemma_run_two(rows, lift, land);
    lemma_shift_accepted(rows, lift);
    let mid = rewritten(rows, lift);
    assert(effect(rows, lift) == Some(mid));
    lemma_effect_valid(rows, lift);
    assert forall|i: int| 0 <= i < mid.len() && selects(land, #[trigger] mid[i]) implies selects(
        lift,
        rows[i],
    ) by {}
    assert forall|i: int, j: int|
        #![trigger mid[i], mid[j]]
        0 <= i < mid.len() && 0 <= j < mid.len() && i != j && selects(land, mid[i])
            && mid[j].scope == mid[i].scope implies mid[j].position != target(
        land,
        mid[i],
    ).position by {
        assert(selects(lift, rows[i]));
        if !selects(lift, rows[j]) && rows[j].position == rows[i].position - 1 {
            assert(rows[j].scope == scope && rows[j].position == position);
        }
    }
    lemma_shift_accepted(mid, land);
    assert(rewritten(mid, land) =~= gap_closed(rows, position, scope));
}

/// Opening a gap never collides: where every row of `scope` stands at 0 or at
/// a legitimate position, the store carries the two passes out, and every
/// row at `position` or above ends one higher.
pub proof fn lemma_open_gap_runs(rows: Seq<Slot>, position: i64, scope: i64)
    requires
        valid(rows),
        scope_parkable(rows, scope),
    ensures
        run(rows, open_gap_plan(position, scope)) == Some(gap_opened(rows, position, scope)),
{
    let lift = open_gap_plan(position, scope)[0];
    let land = open_gap_plan(position, scope)[1];
    assert(open_gap_plan(position, scope) =~= seq![lift, land]);
    lemma_run_two(rows, lift, land);
    lemma_shift_accepted(rows, lift);
    let mid = rewritten(rows, lift);
    assert(effect(rows, lift) == Some(mid));
    lemma_effect_valid(rows, lift);
    assert forall|i: int| 0 <= i < mid.len() && selects(land, #[trigger] mid[i]) implies selects(
        lift,
        rows[i],
    ) by {}
    assert forall|i: int, j: int|
        #![trigger mid[i], mid[j]]
        0 <= i < mid.len() && 0 <= j < mid.len() && i != j && selects(land, mid[i])
            && mid[j].scope == mid[i].scope implies mid[j].position != target(
        land,
        mid[i],
    ).position by {
        assert(selects(lift, rows[i]));
    }
    lemma_shift_accepted(mid, land);
    assert(rewritten(mid, land) =~= gap_opened(rows, position, scope));
}

/// The move never collides: on a table whose rows all hold legitimate
/// positions, the store carries the whole plan out, and the table ends as
/// [`moved`] says.
pub proof fn lemma_move_runs(rows: Seq<Slot>, id: i64, new_position: i64, new_scope: i64)
    requires
        valid(rows),
        holds(rows, id),
        scope_legitimate(rows, rows[index_of(rows, id)].scope),
        scope_legitimate(rows, new_scope),
        1 <= new_position < i64::MAX,
    ensures
        move_outcome(rows, id, new_position, new_scope) == Some(
            moved(rows, id, new_position, new_scope),
        ),
{
    let o = index_of(rows, id);
    let from = rows[o];
    let quarantine = Statement::SetPosition {
        id,
        position: ORDERABLE_LIST_REORDER_TEMPORARY_POSITION,
    };
    let land = Statement::SetLocation { id, position: new_position, scope: new_scope };
    let closing = close_gap_plan(from.position, from.scope);
    let opening = open_gap_plan(new_position, new_scope);

    assert forall|i: int| 0 <= i < rows.len() && i != o implies (#[trigger] rows[i]).id != id by {
        if i < o {
            assert(rows[i].id != rows[o].id);
        } else {
            assert(rows[o].id != rows[i].id);
        }
    }
    assert forall|i: int| 0 <= i < rows.len() && i != o implies !((#[trigger] rows[i]).scope
        == from.scope && rows[i].position == from.position) by {
        if i < o {
            assert(!(rows[i].scope == rows[o].scope && rows[i].position == rows[o].position));
        } else {
            assert(!(rows[o].scope == rows[i].scope && rows[o].position == rows[i].position));
        }
    }

    // quarantine
    let s1 = rewritten(rows, quarantine);
    assert forall|i: int|
        0 <= i < rows.len() && selects(quarantine, #[trigger] rows[i]) implies !blocked(
        rows,
        quarantine,
        i,
    ) by {
        assert(i == o);
        assert forall|j: int| 0 <= j < rows.len() && j != i implies !((#[trigger] held_at_write(
            rows,
            quarantine,
            i,
            j,
        )).scope == from.scope && held_at_write(rows, quarantine, i, j).position == 0) by {
            assert(rows[j].id != id);
            assert(rows[j].scope == from.scope || rows[j].scope == new_scope ==> legitimate(
                rows[j].position as int,
            ));
        }
    }
    assert(effect(rows, quarantine) == Some(s1));
    lemma_run_one(rows, quarantine);
    lemma_effect_valid(rows, quarantine);
    assert forall|i: int| 0 <= i < s1.len() implies #[trigger] s1[i] == (if i == o {
        Slot { id, scope: from.scope, position: 0 }
    } else {
        rows[i]
    }) by {
        if i != o {
            assert(rows[i].id != id);
        }
    }

    // close the old gap
    assert(scope_parkable(s1, from.scope)) by {
        assert forall|i: int| 0 <= i < s1.len() && (#[trigger] s1[i]).scope
            == from.scope implies 0 <= s1[i].position < MAX_NUM_POSITIONED_GROCERY_ITEMS - 1 by {
            assert(rows[i].scope == from.scope || rows[i].scope == new_scope ==> legitimate(
                rows[i].position as int,
            ));
        }
    }
    assert(rows[o].scope == from.scope || rows[o].scope == new_scope ==> legitimate(
                rows[o].position as int,
            ));
    assert(!taken(s1, from.scope, from.position as int)) by {
        assert forall|i: int| 0 <= i < s1.len() implies !((#[trigger] s1[i]).scope == from.scope
            && s1[i].position == from.position) by {
            if i != o {
                assert(!(rows[i].scope == from.scope && rows[i].position == from.position));
            }
        }
    }
    lemma_close_gap_runs(s1, from.position, from.scope);
    let s3 = gap_closed(s1, from.position, from.scope);
    lemma_run_valid(s1, closing);

    // open the new gap
    assert(scope_parkable(s3, new_scope)) by {
        assert forall|i: int| 0 <= i < s3.len() && (#[trigger] s3[i]).scope
            == new_scope implies 0 <= s3[i].position < MAX_NUM_POSITIONED_GROCERY_ITEMS - 1 by {
            assert(rows[i].scope == from.scope || rows[i].scope == new_scope ==> legitimate(
                rows[i].position as int,
            ));
            assert(s1[i].position == if i == o {
                0
            } else {
                rows[i].position
            });
        }
    }
    lemma_open_gap_runs(s3, new_position, new_scope);
    let s5 = gap_opened(s3, new_position, new_scope);
    lemma_run_valid(s3, opening);

    // land
    let s6 = rewritten(s5, land);
    assert forall|i: int| 0 <= i < s5.len() implies (#[trigger] s5[i]).id == rows[i].id by {
        assert(s1[i].id == rows[i].id);
        assert(s3[i].id == s1[i].id);
    }
    assert forall|i: int| 0 <= i < s5.len() && selects(land, #[trigger] s5[i]) implies !blocked(
        s5,
        land,
        i,
    ) by {
        assert(s5[i].id == rows[i].id);
        assert(i == o);
        assert forall|j: int| 0 <= j < s5.len() && j != i implies !((#[trigger] held_at_write(
            s5,
            land,
            i,
            j,
        )).scope == new_scope && held_at_write(s5, land, i, j).position == new_position) by {
            assert(s5[j].id == rows[j].id);
            assert(rows[j].id != id);
            assert(rows[j].scope == from.scope || rows[j].scope == new_scope ==> legitimate(
                rows[j].position as int,
            ));
            assert(s1[j] == rows[j]);
            assert(s3[j].position == closed_position(s1[j], from.position, from.scope));
        }
    }
    assert(effect(s5, land) == Some(s6));
    lemma_run_one(s5, land);
    assert(s6 =~= moved(rows, id, new_position, new_scope)) by {
        assert forall|i: int| 0 <= i < s6.len() implies s6[i] == moved_slot(
            rows[i],
            from,
            new_position,
            new_scope,
        ) by {
            assert(s5[i].id == rows[i].id);
            assert(rows[i].scope == from.scope || rows[i].scope == new_scope ==> legitimate(
                rows[i].position as int,
            ));
            if i != o {
                assert(rows[i].id != id);
                assert(s1[i] == rows[i]);
                assert(s3[i].position == closed_position(s1[i], from.position, from.scope));
            }
        }
    }

    // the plan as a whole
    let head = seq![quarantine];
    let tail = seq![land];
    assert(move_plan(id, from.position, from.scope, new_position, new_scope) == ((head + closing)
        + opening) + tail);
    lemma_run_concat(rows, head, closing);
    lemma_run_concat(rows, head + closing, opening);
    lemma_run_concat(rows, (head + closing) + opening, tail);
}

/// The removal never collides: on a table whose rows all hold legitimate
/// positions, the store carries the whole plan out, and the table ends as
/// [`removed`] says.
pub proof fn lemma_removal_runs(rows: Seq<Slot>, id: i64)
    requires
        valid(rows),
        holds(rows, id),
        scope_legitimate(rows, rows[index_of(rows, id)].scope),
    ensures
        removal_outcome(rows, id) == Some(removed(rows, id)),
{
    let o = index_of(rows, id);
    let from = rows[o];
    let delete = Statement::Delete { id };
    let s1 = rows.remove(o);
    assert(effect(rows, delete) == Some(s1));
    lemma_run_one(rows, delete);
    lemma_effect_valid(rows, delete);
    assert forall|i: int| 0 <= i < s1.len() implies #[trigger] s1[i] == rows[if i < o {
        i
    } else {
        i + 1
    }] by {}
    assert(scope_parkable(s1, from.scope)) by {
        assert forall|i: int| 0 <= i < s1.len() && (#[trigger] s1[i]).scope
            == from.scope implies 0 <= s1[i].position < MAX_NUM_POSITIONED_GROCERY_ITEMS - 1 by {
            let k = if i < o {
                i
            } else {
                i + 1
            };
            assert(rows[k].scope == from.scope ==> legitimate(rows[k].position as int));
        }
    }
    assert(rows[o].scope == from.scope ==> legitimate(rows[o].position as int));
    assert(!taken(s1, from.scope, from.position as int)) by {
        assert forall|i: int| 0 <= i < s1.len() implies !((#[trigger] s1[i]).scope == from.scope
            && s1[i].position == from.position) by {
            let k = if i < o {
                i
            } else {
                i + 1
            };
            if k < o {
                assert(!(rows[k].scope == rows[o].scope && rows[k].position == rows[o].position));
            } else {
                assert(!(rows[o].scope == rows[k].scope && rows[o].position == rows[k].position));
            }
        }
    }
    lemma_close_gap_runs(s1, from.position, from.scope);
    lemma_run_concat(rows, seq![delete], close_gap_plan(from.position, from.scope));
}

} // verus!
