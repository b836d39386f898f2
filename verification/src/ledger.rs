//! The position ledger: ordered collections keyed by scope, held in a store
//! that checks the uniqueness of (scope, position) at every single row write.
//!
//! A [`Ledger`] is the table of ordering columns. A [`Statement`] is one
//! conditional update of that table. The store rewrites the rows that a
//! statement selects one after the other, in row order, and refuses the whole
//! statement as soon as one row would land on a place that another row holds
//! at that moment.

use crate::constants::MAX_NUM_POSITIONED_GROCERY_ITEMS;
use vstd::prelude::*;

verus! {

/// The ordering columns of one row: which item, in which scope, at which position.
#[derive(Clone, Copy, Debug, PartialEq, Eq, Structural)]
pub struct Slot {
    pub id: i64,
    pub scope: i64,
    pub position: i64,
}

/// Why the store turned an operation down.
#[derive(Clone, Copy, Debug, PartialEq, Eq, Structural)]
pub enum StoreError {
    /// The operation named an id that no row has. Nothing was written.
    NotFound,
    /// The request asks for a place that the ordering does not allow, or a
    /// row write was refused by the store. Nothing was written, or everything
    /// was rolled back.
    ConstraintViolation,
}

/// One write statement against the ordering columns.
#[derive(Clone, Copy, Debug, PartialEq, Eq, Structural)]
pub enum Statement {
    /// Give the row `id` the position `position`, leaving its scope.
    SetPosition { id: i64, position: i64 },
    /// Give the row `id` the position `position` in the scope `scope`.
    SetLocation { id: i64, position: i64, scope: i64 },
    /// Add `delta` to the position of every row of `scope` whose position is above `after`.
    ShiftAfter { scope: i64, after: i64, delta: i64 },
    /// Add `delta` to the position of every row of `scope` whose position is `from` or more.
    ShiftFrom { scope: i64, from: i64, delta: i64 },
    /// Add a row.
    Insert { id: i64, position: i64, scope: i64 },
    /// Remove the row `id`, if there is one.
    Delete { id: i64 },
}

/// A scope and a position, as mathematical integers.
pub struct Place {
    pub scope: int,
    pub position: int,
}

/// No two rows share an id.
pub open spec fn ids_unique(rows: Seq<Slot>) -> bool {
    forall|i: int, j: int|
        #![trigger rows[i], rows[j]]
        0 <= i < j < rows.len() ==> rows[i].id != rows[j].id
}

/// No two rows share a scope and a position: the store's uniqueness constraint.
pub open spec fn places_unique(rows: Seq<Slot>) -> bool {
    forall|i: int, j: int|
        #![trigger rows[i], rows[j]]
        0 <= i < j < rows.len() ==> !(rows[i].scope == rows[j].scope && rows[i].position
            == rows[j].position)
}

/// The position column holds 64-bit integers; the largest one is kept free,
/// so that every stored position has a successor.
pub open spec fn storable(position: int) -> bool {
    i64::MIN <= position < i64::MAX
}

/// The table has so few rows that the positions 1, 2, .., N of all of them
/// lie below the parking offset, and the successor of each does too.
pub open spec fn within_capacity(rows: Seq<Slot>) -> bool {
    rows.len() < MAX_NUM_POSITIONED_GROCERY_ITEMS - 1
}

/// What every state of the table satisfies, whatever was asked of it: ids
/// and places are unique, positions fit the column, and the table is within
/// its capacity.
pub open spec fn valid(rows: Seq<Slot>) -> bool {
    &&& ids_unique(rows)
    &&& places_unique(rows)
    &&& forall|i: int| 0 <= i < rows.len() ==> storable(#[trigger] rows[i].position as int)
    &&& within_capacity(rows)
}

/// Some row has the id `id`.
pub open spec fn holds(rows: Seq<Slot>, id: i64) -> bool {
    exists|i: int| 0 <= i < rows.len() && #[trigger] rows[i].id == id
}

/// The index of the row with the id `id`, where there is one.
pub open spec fn index_of(rows: Seq<Slot>, id: i64) -> int {
    choose|i: int| 0 <= i < rows.len() && #[trigger] rows[i].id == id
}

/// Some row of `scope` stands at `position`.
pub open spec fn taken(rows: Seq<Slot>, scope: i64, position: int) -> bool {
    exists|i: int|
        0 <= i < rows.len() && #[trigger] rows[i].scope == scope && rows[i].position == position
}

/// The statement rewrites rows in place (it neither adds nor removes one).
pub open spec fn rewrites(stmt: Statement) -> bool {
    match stmt {
        Statement::Insert { .. } => false,
        Statement::Delete { .. } => false,
        _ => true,
    }
}

/// The rows that a rewriting statement picks.
pub open spec fn selects(stmt: Statement, slot: Slot) -> bool {
    match stmt {
        Statement::SetPosition { id, .. } => slot.id == id,
        Statement::SetLocation { id, .. } => slot.id == id,
        Statement::ShiftAfter { scope, after, .. } => slot.scope == scope && slot.position
            > after,
        Statement::ShiftFrom { scope, from, .. } => slot.scope == scope && slot.position >= from,
        _ => false,
    }
}

/// Where a rewriting statement sends a row that it picks.
pub open spec fn target(stmt: Statement, slot: Slot) -> Place {
    match stmt {
        Statement::SetPosition { position, .. } => Place {
            scope: slot.scope as int,
            position: position as int,
        },
        Statement::SetLocation { position, scope, .. } => Place {
            scope: scope as int,
            position: position as int,
        },
        Statement::ShiftAfter { delta, .. } => Place {
            scope: slot.scope as int,
            position: slot.position + delta,
        },
        Statement::ShiftFrom { delta, .. } => Place {
            scope: slot.scope as int,
            position: slot.position + delta,
        },
        _ => Place { scope: slot.scope as int, position: slot.position as int },
    }
}

/// What a row holds once a rewriting statement is through with it.
pub open spec fn rewritten_slot(stmt: Statement, slot: Slot) -> Slot {
    if selects(stmt, slot) {
        Slot {
            id: slot.id,
            scope: target(stmt, slot).scope as i64,
            position: target(stmt, slot).position as i64,
        }
    } else {
        slot
    }
}

/// The table after a rewriting statement that the store accepted.
pub open spec fn rewritten(rows: Seq<Slot>, stmt: Statement) -> Seq<Slot> {
    Seq::new(rows.len(), |i: int| rewritten_slot(stmt, rows[i]))
}

/// What row `j` holds at the moment the store writes row `i`: rows before `i`
/// are through, rows after it are still to come.
pub open spec fn held_at_write(rows: Seq<Slot>, stmt: Statement, i: int, j: int) -> Slot {
    if j < i {
        rewritten_slot(stmt, rows[j])
    } else {
        rows[j]
    }
}

/// The store refuses the write of row `i`: the value does not fit the column,
/// or another row holds the place at that moment.
pub open spec fn blocked(rows: Seq<Slot>, stmt: Statement, i: int) -> bool {
    let t = target(stmt, rows[i]);
    ||| !storable(t.position)
    ||| exists|j: int|
        0 <= j < rows.len() && j != i && (#[trigger] held_at_write(rows, stmt, i, j)).scope
            == t.scope && held_at_write(rows, stmt, i, j).position == t.position
}

/// The store carries the statement out.
pub open spec fn accepted(rows: Seq<Slot>, stmt: Statement) -> bool {
    match stmt {
        Statement::Insert { id, position, scope } => {
            &&& !holds(rows, id)
            &&& !taken(rows, scope, position as int)
            &&& storable(position as int)
            &&& within_capacity(rows.push(Slot { id, scope, position }))
        },
        Statement::Delete { .. } => true,
        _ => forall|i: int|
            0 <= i < rows.len() && selects(stmt, #[trigger] rows[i]) ==> !blocked(rows, stmt, i),
    }
}

/// The table after one statement, or `None` where the store refuses it.
pub open spec fn effect(rows: Seq<Slot>, stmt: Statement) -> Option<Seq<Slot>> {
    if !accepted(rows, stmt) {
        None
    } else {
        match stmt {
            Statement::Insert { id, position, scope } => Some(
                rows.push(Slot { id, scope, position }),
            ),
            Statement::Delete { id } => if holds(rows, id) {
                Some(rows.remove(index_of(rows, id)))
            } else {
                Some(rows)
            },
            _ => Some(rewritten(rows, stmt)),
        }
    }
}

/// The table after a sequence of statements run as one transaction, or `None`
/// where the store refuses one of them.
pub open spec fn run(rows: Seq<Slot>, plan: Seq<Statement>) -> Option<Seq<Slot>>
    decreases plan.len(),
{
    if plan.len() == 0 {
        Some(rows)
    } else {
        match effect(rows, plan[0]) {
            Some(next) => run(next, plan.skip(1)),
            None => None,
        }
    }
}

/// The largest position in `scope` among the first `n` rows, or `None` where
/// none of them is in that scope.
pub open spec fn top_position(rows: Seq<Slot>, scope: i64, n: int) -> Option<int>
    decreases n,
{
    if n <= 0 {
        None
    } else if rows[n - 1].scope != scope {
        top_position(rows, scope, n - 1)
    } else {
        match top_position(rows, scope, n - 1) {
            Some(m) if m >= rows[n - 1].position => Some(m),
            _ => Some(rows[n - 1].position as int),
        }
    }
}

/// The position at which an item is appended to `scope`: one more than the
/// largest position there, or 1 where the scope is empty.
pub open spec fn next_position(rows: Seq<Slot>, scope: i64) -> int {
    match top_position(rows, scope, rows.len() as int) {
        Some(m) => m + 1,
        None => 1,
    }
}

/// The number of rows of `scope` among the first `n` rows.
pub open spec fn count_in(rows: Seq<Slot>, scope: i64, n: int) -> int
    decreases n,
{
    if n <= 0 {
        0
    } else if rows[n - 1].scope == scope {
        count_in(rows, scope, n - 1) + 1
    } else {
        count_in(rows, scope, n - 1)
    }
}

/// The number of rows, among the first `n`, that `keep` marks.
pub open spec fn count_kept(keep: Seq<bool>, n: int) -> int
    decreases n,
{
    if n <= 0 {
        0
    } else if keep[n - 1] {
        count_kept(keep, n - 1) + 1
    } else {
        count_kept(keep, n - 1)
    }
}

/// Row `a` comes before row `b` in a listing by position: it stands at a
/// lower position, or at the same position and earlier in the table.
pub open spec fn listed_before(rows: Seq<Slot>, a: int, b: int) -> bool {
    rows[a].position < rows[b].position || (rows[a].position == rows[b].position && a < b)
}

/// `order` lists the rows that `keep` marks among the first `n`, each once,
/// by position.
pub open spec fn lists(rows: Seq<Slot>, keep: Seq<bool>, n: int, order: Seq<usize>) -> bool {
    &&& order.len() == count_kept(keep, n)
    &&& forall|k: int| 0 <= k < order.len() ==> (#[trigger] order[k]) < n && keep[order[k] as int]
    &&& forall|i: int|
        0 <= i < n && #[trigger] keep[i] ==> exists|k: int|
            0 <= k < order.len() && #[trigger] order[k] == i
    &&& forall|a: int, b: int|
        #![trigger order[a], order[b]]
        0 <= a < b < order.len() ==> listed_before(rows, order[a] as int, order[b] as int)
}

/// The table while a statement runs: the first rows as `done` has them, the
/// others as `rows` has them.
pub open spec fn mixed(done: Seq<Slot>, rows: Seq<Slot>, j: int) -> Slot {
    if j < done.len() {
        done[j]
    } else {
        rows[j]
    }
}

/// The number of rows that a table can hold.
pub const CAPACITY: usize = 99998;

/// The ordering columns of a table, with the uniqueness of ids and of
/// (scope, position) that the store enforces.
pub struct Ledger {
    rows: Vec<Slot>,
}

impl View for Ledger {
    type V = Seq<Slot>;

    closed spec fn view(&self) -> Seq<Slot> {
        self.rows@
    }
}

/// The statement picks the row.
fn picks(stmt: Statement, slot: Slot) -> (r: bool)
    ensures
        r == selects(stmt, slot),
{
    match stmt {
        Statement::SetPosition { id, .. } => slot.id == id,
        Statement::SetLocation { id, .. } => slot.id == id,
        Statement::ShiftAfter { scope, after, .. } => slot.scope == scope && slot.position
            > after,
        Statement::ShiftFrom { scope, from, .. } => slot.scope == scope && slot.position >= from,
        _ => false,
    }
}

/// The row as the statement leaves it, or `None` where the new position does
/// not fit the column.
fn aim(stmt: Statement, slot: Slot) -> (r: Option<Slot>)
    requires
        rewrites(stmt),
        selects(stmt, slot),
    ensures
        r is Some <==> storable(target(stmt, slot).position),
        r is Some ==> r == Some(rewritten_slot(stmt, slot)),
{
    let moved: Option<Slot> = match stmt {
        Statement::SetPosition { position, .. } => Some(
            Slot { id: slot.id, scope: slot.scope, position },
        ),
        Statement::SetLocation { position, scope, .. } => Some(
            Slot { id: slot.id, scope, position },
        ),
        Statement::ShiftAfter { delta, .. } => match slot.position.checked_add(delta) {
            Some(position) => Some(Slot { id: slot.id, scope: slot.scope, position }),
            None => None,
        },
        Statement::ShiftFrom { delta, .. } => match slot.position.checked_add(delta) {
            Some(position) => Some(Slot { id: slot.id, scope: slot.scope, position }),
            None => None,
        },
        _ => None,
    };
    match moved {
        Some(s) => if s.position == i64::MAX {
            None
        } else {
            Some(s)
        },
        None => None,
    }
}

impl Ledger {
    /// The state is one that the store can be in.
    pub open spec fn wf(&self) -> bool {
        valid(self@)
    }

    /// An empty table.
    pub fn new() -> (r: Ledger)
        ensures
            r@ == Seq::<Slot>::empty(),
            r.wf(),
    {
        Ledger { rows: Vec::new() }
    }

    /// The number of rows.
    pub fn len(&self) -> (r: usize)
        ensures
            r == self@.len(),
    {
        self.rows.len()
    }

    /// The row at index `i`.
    pub fn slot(&self, i: usize) -> (r: Slot)
        requires
            i < self@.len(),
        ensures
            r == self@[i as int],
    {
        self.rows[i]
    }

    /// The index of the row with the id `id`.
    pub fn find(&self, id: i64) -> (r: Option<usize>)
        ensures
            r is Some <==> holds(self@, id),
            r is Some ==> r.unwrap() < self@.len() && self@[r.unwrap() as int].id == id,
            r is Some && ids_unique(self@) ==> r.unwrap() == index_of(self@, id),
    {
        let mut i: usize = 0;
        while i < self.rows.len()
            invariant
                i <= self.rows.len(),
                forall|k: int| 0 <= k < i ==> (#[trigger] self.rows@[k]).id != id,
            decreases self.rows.len() - i,
        {
            if self.rows[i].id == id {
                return Some(i);
            }
            i += 1;
        }
        None
    }

    /// Whether another row than `done.len()` holds the place of `slot`, in the
    /// table made of `done` for the first rows and of `self` for the others.
    fn place_held(&self, done: &Vec<Slot>, slot: Slot) -> (r: bool)
        requires
            done@.len() < self@.len(),
        ensures
            r == exists|j: int|
                0 <= j < self@.len() && j != done@.len() && (#[trigger] mixed(
                    done@,
                    self@,
                    j,
                )).scope == slot.scope && mixed(done@, self@, j).position == slot.position,
    {
        let skip = done.len();
        let mut j: usize = 0;
        while j < self.rows.len()
            invariant
                j <= self.rows.len(),
                skip == done@.len(),
                skip < self.rows.len(),
                forall|k: int|
                    0 <= k < j && k != skip ==> !((#[trigger] mixed(done@, self@, k)).scope
                        == slot.scope && mixed(done@, self@, k).position == slot.position),
            decreases self.rows.len() - j,
        {
            if j != skip {
                let held = if j < skip {
                    done[j]
                } else {
                    self.rows[j]
                };
                assert(held == mixed(done@, self@, j as int));
                if held.scope == slot.scope && held.position == slot.position {
                    return true;
                }
            }
            j += 1;
        }
        false
    }

    /// Whether some row of `scope` stands at `position`.
    pub fn occupied(&self, scope: i64, position: i64) -> (r: bool)
        ensures
            r == taken(self@, scope, position as int),
    {
        let mut j: usize = 0;
        while j < self.rows.len()
            invariant
                j <= self.rows.len(),
                forall|k: int|
                    0 <= k < j ==> !((#[trigger] self@[k]).scope == scope && self@[k].position
                        == position),
            decreases self.rows.len() - j,
        {
            if self.rows[j].scope == scope && self.rows[j].position == position {
                return true;
            }
            j += 1;
        }
        false
    }

    /// The table after a rewriting statement, row by row as the store writes
    /// it; `None` as soon as one write is refused.
    fn rewrite(&self, stmt: Statement) -> (r: Option<Vec<Slot>>)
        requires
            rewrites(stmt),
        ensures
            r is Some <==> accepted(self@, stmt),
            r is Some ==> r.unwrap()@ == rewritten(self@, stmt),
    {
        let mut done: Vec<Slot> = Vec::new();
        let mut i: usize = 0;
        while i < self.rows.len()
            invariant
                rewrites(stmt),
                i == done@.len(),
                i <= self@.len(),
                self@.len() == self.rows.len(),
                forall|k: int| 0 <= k < i ==> #[trigger] done@[k] == rewritten_slot(stmt, self@[k]),
                forall|k: int|
                    0 <= k < i && selects(stmt, #[trigger] self@[k]) ==> !blocked(self@, stmt, k),
            decreases self.rows.len() - i,
        {
            let slot = self.rows[i];
            if picks(stmt, slot) {
                match aim(stmt, slot) {
                    None => {
                        assert(blocked(self@, stmt, i as int));
                        assert(selects(stmt, self@[i as int]));
                        return None;
                    },
                    Some(next) => {
                        let held = self.place_held(&done, next);
                        proof {
                            assert forall|j: int| 0 <= j < self@.len() && j != i implies mixed(
                                done@,
                                self@,
                                j,
                            ) == #[trigger] held_at_write(self@, stmt, i as int, j) by {}
                        }
                        if held {
                            proof {
                                let j = choose|j: int|
                                    0 <= j < self@.len() && j != done@.len() && (#[trigger] mixed(
                                        done@,
                                        self@,
                                        j,
                                    )).scope == next.scope && mixed(done@, self@, j).position
                                        == next.position;
                                assert(held_at_write(self@, stmt, i as int, j) == mixed(
                                    done@,
                                    self@,
                                    j,
                                ));
                                assert(blocked(self@, stmt, i as int));
                                assert(selects(stmt, self@[i as int]));
                            }
                            return None;
                        }
                        proof {
                            assert forall|j: int|
                                0 <= j < self@.len() && j != i implies !((
                            #[trigger] held_at_write(self@, stmt, i as int, j)).scope
                                == next.scope && held_at_write(self@, stmt, i as int, j).position
                                == next.position) by {
                                assert(mixed(done@, self@, j) == held_at_write(
                                    self@,
                                    stmt,
                                    i as int,
                                    j,
                                ));
                            }
                            assert(!blocked(self@, stmt, i as int));
                        }
                        done.push(next);
                    },
                }
            } else {
                done.push(slot);
            }
            i += 1;
        }
        assert(done@ =~= rewritten(self@, stmt));
        Some(done)
    }

    /// Carries one statement out, as the store does: wholly or not at all.
    pub fn apply(&mut self, stmt: Statement) -> (r: Result<(), StoreError>)
        requires
            old(self).wf(),
        ensures
            final(self).wf(),
            match effect(old(self)@, stmt) {
                Some(next) => r is Ok && final(self)@ == next,
                None => r == Err::<(), StoreError>(StoreError::ConstraintViolation) && final(self)@
                    == old(self)@,
            },
    {
        proof {
            lemma_effect_valid(self@, stmt);
        }
        match stmt {
            Statement::Insert { id, position, scope } => {
                if self.find(id).is_some() || self.occupied(scope, position) || position
                    == i64::MAX || self.rows.len() >= CAPACITY {
                    return Err(StoreError::ConstraintViolation);
                }
                self.rows.push(Slot { id, scope, position });
                Ok(())
            },
            Statement::Delete { id } => {
                match self.find(id) {
                    Some(i) => {
                        self.rows.remove(i);
                    },
                    None => {},
                }
                Ok(())
            },
            _ => {
                match self.rewrite(stmt) {
                    Some(rows) => {
                        self.rows = rows;
                        Ok(())
                    },
                    None => Err(StoreError::ConstraintViolation),
                }
            },
        }
    }

    /// A copy of the rows, in row order.
    pub fn slots(&self) -> (r: Vec<Slot>)
        ensures
            r@ == self@,
    {
        let mut out: Vec<Slot> = Vec::new();
        let mut i: usize = 0;
        while i < self.rows.len()
            invariant
                i <= self.rows.len(),
                out@ == self.rows@.take(i as int),
            decreases self.rows.len() - i,
        {
            out.push(self.rows[i]);
            assert(self.rows@.take(i + 1) =~= self.rows@.take(i as int).push(self.rows@[i as int]));
            i += 1;
        }
        assert(self.rows@.take(i as int) =~= self.rows@);
        out
    }

    /// Carries a sequence of statements out as one transaction: all of them,
    /// or, where the store refuses one, none.
    pub fn execute(&mut self, plan: &Vec<Statement>) -> (r: Result<(), StoreError>)
        requires
            old(self).wf(),
        ensures
            final(self).wf(),
            match run(old(self)@, plan@) {
                Some(next) => r is Ok && final(self)@ == next,
                None => r == Err::<(), StoreError>(StoreError::ConstraintViolation) && final(self)@
                    == old(self)@,
            },
    {
        let mut work = Ledger { rows: self.slots() };
        let mut k: usize = 0;
        assert(plan@.skip(0) =~= plan@);
        while k < plan.len()
            invariant
                k <= plan.len(),
                self.wf(),
                work.wf(),
                run(self@, plan@) == run(work@, plan@.skip(k as int)),
            decreases plan.len() - k,
        {
            let step = work.apply(plan[k]);
            proof {
                assert(plan@.skip(k as int)[0] == plan@[k as int]);
                assert(plan@.skip(k as int).skip(1) =~= plan@.skip(k + 1));
            }
            if step.is_err() {
                return Err(StoreError::ConstraintViolation);
            }
            k += 1;
        }
        self.rows = work.rows;
        Ok(())
    }

    /// Where the item `id` stands: its position and its scope.
    pub fn current_location(&self, id: i64) -> (r: Option<(i64, i64)>)
        ensures
            r is Some <==> holds(self@, id),
            r is Some ==> exists|i: int|
                0 <= i < self@.len() && (#[trigger] self@[i]).id == id && r.unwrap().0
                    == self@[i].position && r.unwrap().1 == self@[i].scope,
            r is Some && ids_unique(self@) ==> r.unwrap().0 == self@[index_of(self@, id)].position
                && r.unwrap().1 == self@[index_of(self@, id)].scope,
    {
        match self.find(id) {
            Some(i) => Some((self.rows[i].position, self.rows[i].scope)),
            None => None,
        }
    }

    /// The position at which an item is appended to `scope`.
    pub fn next_position(&self, scope: i64) -> (r: i64)
        requires
            self.wf(),
        ensures
            r == next_position(self@, scope),
            taken(self@, scope, r - 1) || (r == 1 && forall|i: int|
                0 <= i < self@.len() ==> (#[trigger] self@[i]).scope != scope),
            forall|i: int|
                0 <= i < self@.len() && (#[trigger] self@[i]).scope == scope ==> self@[i].position
                    < r,
    {
        proof {
            lemma_top_position(self@, scope, self@.len() as int);
        }
        let mut top: Option<i64> = None;
        let mut i: usize = 0;
        while i < self.rows.len()
            invariant
                i <= self.rows.len(),
                self.wf(),
                match top {
                    Some(m) => top_position(self@, scope, i as int) == Some(m as int) && m
                        < i64::MAX,
                    None => top_position(self@, scope, i as int) is None,
                },
            decreases self.rows.len() - i,
        {
            let slot = self.rows[i];
            assert(storable(self@[i as int].position as int));
            if slot.scope == scope {
                top =
                match top {
                    Some(m) if m >= slot.position => Some(m),
                    _ => Some(slot.position),
                };
            }
            i += 1;
        }
        match top {
            Some(m) => m + 1,
            None => 1,
        }
    }

    /// The rows that `keep` marks, listed by position; rows at the same
    /// position, which are of different scopes, come in table order.
    pub fn in_order(&self, keep: &Vec<bool>) -> (order: Vec<usize>)
        requires
            keep@.len() == self@.len(),
        ensures
            lists(self@, keep@, self@.len() as int, order@),
    {
        let mut order: Vec<usize> = Vec::new();
        let mut i: usize = 0;
        while i < self.rows.len()
            invariant
                i <= self.rows.len(),
                keep@.len() == self@.len(),
                self@.len() == self.rows.len(),
                lists(self@, keep@, i as int, order@),
            decreases self.rows.len() - i,
        {
            if keep[i] {
                let position = self.rows[i].position;
                let mut p: usize = order.len();
                while p > 0 && self.rows[order[p - 1]].position > position
                    invariant
                        p <= order.len(),
                        i < self.rows.len(),
                        self@.len() == self.rows.len(),
                        position == self@[i as int].position,
                        forall|k: int|
                            0 <= k < order.len() ==> (#[trigger] order@[k]) < i,
                        forall|k: int|
                            p <= k < order.len() ==> self@[(#[trigger] order@[k]) as int].position
                                > position,
                    decreases p,
                {
                    p -= 1;
                }
                let ghost before = order@;
                order.insert(p, i);
                proof {
                    let after = order@;
                    assert forall|k: int| 0 <= k < after.len() implies #[trigger] after[k] == (if k
                        < p {
                        before[k]
                    } else if k == p {
                        i
                    } else {
                        before[k - 1]
                    }) by {}
                    assert forall|j: int| 0 <= j < i + 1 && #[trigger] keep@[j] implies exists|
                        k: int,
                    |
                        0 <= k < after.len() && #[trigger] after[k] == j by {
                        if j == i {
                            assert(after[p as int] == j);
                        } else {
                            let k0 = choose|k: int| 0 <= k < before.len() && #[trigger] before[k] == j;
                            let k1 = if k0 < p {
                                k0
                            } else {
                                k0 + 1
                            };
                            assert(after[k1] == j);
                        }
                    }
                    assert forall|a: int, b: int|
                        #![trigger after[a], after[b]]
                        0 <= a < b < after.len() implies listed_before(
                        self@,
                        after[a] as int,
                        after[b] as int,
                    ) by {
                        let a0 = if a < p {
                            a
                        } else {
                            a - 1
                        };
                        let b0 = if b < p {
                            b
                        } else {
                            b - 1
                        };
                        if a != p && b != p {
                            assert(listed_before(self@, before[a0] as int, before[b0] as int));
                        } else if a == p {
                            assert(self@[before[b0] as int].position > position);
                        } else {
                            assert(before[a0] < i);
                            if p > 0 {
                                if a0 < p - 1 {
                                    assert(listed_before(
                                        self@,
                                        before[a0] as int,
                                        before[p - 1] as int,
                                    ));
                                }
                            }
                        }
                    }
                }
            }
            i += 1;
        }
        order
    }

    /// The number of rows of `scope`.
    pub fn count(&self, scope: i64) -> (r: usize)
        ensures
            r == count_in(self@, scope, self@.len() as int),
    {
        let mut n: usize = 0;
        let mut i: usize = 0;
        while i < self.rows.len()
            invariant
                i <= self.rows.len(),
                n <= i,
                n == count_in(self@, scope, i as int),
            decreases self.rows.len() - i,
        {
            if self.rows[i].scope == scope {
                n += 1;
            }
            i += 1;
        }
        n
    }
}

/// The largest position of a scope is held by one of its rows and is below
/// none of them; there is none exactly where the scope has no row.
pub proof fn lemma_top_position(rows: Seq<Slot>, scope: i64, n: int)
    requires
        0 <= n <= rows.len(),
    ensures
        match top_position(rows, scope, n) {
            Some(m) => {
                &&& exists|i: int|
                    0 <= i < n && (#[trigger] rows[i]).scope == scope && rows[i].position == m
                &&& forall|i: int|
                    0 <= i < n && (#[trigger] rows[i]).scope == scope ==> rows[i].position <= m
            },
            None => forall|i: int| 0 <= i < n ==> (#[trigger] rows[i]).scope != scope,
        },
    decreases n,
{
    if n > 0 {
        lemma_top_position(rows, scope, n - 1);
        match top_position(rows, scope, n - 1) {
            Some(m) => {
                let w = choose|i: int|
                    0 <= i < n - 1 && (#[trigger] rows[i]).scope == scope && rows[i].position
                        == m;
                assert(rows[w].scope == scope && rows[w].position == m);
            },
            None => {},
        }
    }
}

/// Where no two rows share an id, the row of an id is the only row with it.
pub proof fn lemma_index_of(rows: Seq<Slot>, i: int)
    requires
        ids_unique(rows),
        0 <= i < rows.len(),
    ensures
        holds(rows, rows[i].id),
        index_of(rows, rows[i].id) == i,
{
    let k = index_of(rows, rows[i].id);
    assert(rows[i].id == rows[i].id);
    if k < i {
        assert(rows[k].id != rows[i].id);
    } else if i < k {
        assert(rows[i].id != rows[k].id);
    }
}

/// A statement that the store accepts leaves the table in a state that the
/// store can be in.
pub proof fn lemma_effect_valid(rows: Seq<Slot>, stmt: Statement)
    requires
        valid(rows),
    ensures
        effect(rows, stmt) is Some ==> valid(effect(rows, stmt).unwrap()),
{
    if effect(rows, stmt) is Some {
        let next = effect(rows, stmt).unwrap();
        match stmt {
            Statement::Insert { id, position, scope } => {
                assert forall|i: int, j: int| 0 <= i < j < next.len() implies next[i].id
                    != next[j].id && !(next[i].scope == next[j].scope && next[i].position
                    == next[j].position) by {
                    if j == rows.len() {
                        assert(rows[i].id != id);
                        assert(!(rows[i].scope == scope && rows[i].position == position));
                    } else {
                        assert(next[i] == rows[i] && next[j] == rows[j]);
                    }
                }
            },
            Statement::Delete { id } => {
                if holds(rows, id) {
                    let k = index_of(rows, id);
                    assert forall|i: int, j: int| 0 <= i < j < next.len() implies next[i].id
                        != next[j].id && !(next[i].scope == next[j].scope && next[i].position
                        == next[j].position) by {
                        let a = if i < k {
                            i
                        } else {
                            i + 1
                        };
                        let b = if j < k {
                            j
                        } else {
                            j + 1
                        };
                        assert(next[i] == rows[a] && next[j] == rows[b]);
                    }
                    assert forall|i: int| 0 <= i < next.len() implies storable(
                        #[trigger] next[i].position as int,
                    ) by {
                        let a = if i < k {
                            i
                        } else {
                            i + 1
                        };
                        assert(next[i] == rows[a]);
                    }
                }
            },
            _ => {
                assert forall|i: int, j: int| 0 <= i < j < next.len() implies next[i].id
                    != next[j].id && !(next[i].scope == next[j].scope && next[i].position
                    == next[j].position) by {
                    assert(rows[i].id != rows[j].id);
                    assert(!(rows[i].scope == rows[j].scope && rows[i].position
                        == rows[j].position));
                    if selects(stmt, rows[j]) {
                        assert(!blocked(rows, stmt, j));
                        assert(held_at_write(rows, stmt, j, i) == next[i]);
                    } else if selects(stmt, rows[i]) {
                        assert(!blocked(rows, stmt, i));
                        assert(held_at_write(rows, stmt, i, j) == next[j]);
                    }
                }
                assert forall|i: int| 0 <= i < next.len() implies storable(
                    #[trigger] next[i].position as int,
                ) by {
                    if selects(stmt, rows[i]) {
                        assert(!blocked(rows, stmt, i));
                    } else {
                        assert(next[i] == rows[i]);
                    }
                }
            },
        }
    }
}

} // verus!
