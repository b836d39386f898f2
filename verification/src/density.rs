//! The ordering invariant: within every scope the positions are exactly
//! 1, 2, .., N, where N is the number of rows of the scope. The laws of this
//! file say how a move, an append and a removal keep it.

use crate::ledger::{
    count_in, holds, ids_unique, index_of, lemma_top_position, next_position, places_unique,
    taken, top_position, valid, within_capacity, Slot,
};
use crate::reorder::{moved, moved_slot, scope_legitimate};
use vstd::prelude::*;

verus! {

/// The number of rows of `scope`.
pub open spec fn scope_size(rows: Seq<Slot>, scope: i64) -> int {
    count_in(rows, scope, rows.len() as int)
}

/// The positions of the rows of `scope` are exactly 1, 2, .., N, where N is
/// the number of those rows.
pub open spec fn dense_in(rows: Seq<Slot>, scope: i64) -> bool {
    &&& forall|i: int|
        0 <= i < rows.len() && (#[trigger] rows[i]).scope == scope ==> 1 <= rows[i].position
            <= scope_size(rows, scope)
    &&& forall|p: int| 1 <= p <= scope_size(rows, scope) ==> #[trigger] taken(rows, scope, p)
}

/// Every scope is dense.
pub open spec fn dense(rows: Seq<Slot>) -> bool {
    forall|scope: i64| #[trigger] dense_in(rows, scope)
}

/// No row stands at the reserved position 0, or below it.
pub open spec fn positioned(rows: Seq<Slot>) -> bool {
    forall|i: int| 0 <= i < rows.len() ==> (#[trigger] rows[i]).position >= 1
}

/// In a dense table no row stands at the reserved position 0.
pub proof fn lemma_dense_is_positioned(rows: Seq<Slot>)
    requires
        dense(rows),
    ensures
        positioned(rows),
{
    assert forall|i: int| 0 <= i < rows.len() implies (#[trigger] rows[i]).position >= 1 by {
        assert(dense_in(rows, rows[i].scope));
    }
}

/// In a table within capacity every row of a dense scope holds a legitimate
/// position.
pub proof fn lemma_dense_is_legitimate(rows: Seq<Slot>, scope: i64)
    requires
        dense_in(rows, scope),
        within_capacity(rows),
    ensures
        scope_legitimate(rows, scope),
{
    lemma_count_bounds(rows, scope, rows.len() as int);
}

/// A count is at least 0 and at most the number of rows counted over.
pub proof fn lemma_count_bounds(rows: Seq<Slot>, scope: i64, n: int)
    requires
        0 <= n <= rows.len(),
    ensures
        0 <= count_in(rows, scope, n) <= n,
    decreases n,
{
    if n > 0 {
        lemma_count_bounds(rows, scope, n - 1);
    }
}

/// A table whose rows are all in one scope has that many rows in it.
pub proof fn lemma_all_in_size(rows: Seq<Slot>, scope: i64)
    requires
        crate::reorder::all_in(rows, scope),
    ensures
        scope_size(rows, scope) == rows.len(),
{
    lemma_all_in_count(rows, scope, rows.len() as int);
}

proof fn lemma_all_in_count(rows: Seq<Slot>, scope: i64, n: int)
    requires
        crate::reorder::all_in(rows, scope),
        0 <= n <= rows.len(),
    ensures
        count_in(rows, scope, n) == n,
    decreases n,
{
    if n > 0 {
        lemma_all_in_count(rows, scope, n - 1);
        assert(rows[n - 1].scope == scope);
    }
}

/// Two tables that agree on the scope of every row but the one at `o` differ
/// in their counts by that row alone.
pub proof fn lemma_count_change(a: Seq<Slot>, b: Seq<Slot>, o: int, scope: i64, n: int)
    requires
        a.len() == b.len(),
        0 <= o < a.len(),
        0 <= n <= a.len(),
        forall|i: int| 0 <= i < a.len() && i != o ==> (#[trigger] a[i]).scope == b[i].scope,
    ensures
        count_in(b, scope, n) == count_in(a, scope, n) + (if n > o {
            (if b[o].scope == scope {
                1int
            } else {
                0int
            }) - (if a[o].scope == scope {
                1int
            } else {
                0int
            })
        } else {
            0int
        }),
    decreases n,
{
    if n > 0 {
        lemma_count_change(a, b, o, scope, n - 1);
        if n - 1 != o {
            assert(a[n - 1].scope == b[n - 1].scope);
        }
    }
}

/// Two tables that agree on the scope of each of their first `n` rows have
/// the same counts over those rows.
pub proof fn lemma_count_same(a: Seq<Slot>, b: Seq<Slot>, scope: i64, n: int)
    requires
        0 <= n <= a.len(),
        n <= b.len(),
        forall|i: int| 0 <= i < n ==> (#[trigger] a[i]).scope == b[i].scope,
    ensures
        count_in(b, scope, n) == count_in(a, scope, n),
    decreases n,
{
    if n > 0 {
        lemma_count_same(a, b, scope, n - 1);
        assert(a[n - 1].scope == b[n - 1].scope);
    }
}

/// A table without its row `o` counts as the table does, less that row.
pub proof fn lemma_count_remove(rows: Seq<Slot>, o: int, scope: i64, n: int)
    requires
        0 <= o < rows.len(),
        0 <= n <= rows.len() - 1,
    ensures
        count_in(rows.remove(o), scope, n) == (if n <= o {
            count_in(rows, scope, n)
        } else {
            count_in(rows, scope, n + 1) - (if rows[o].scope == scope {
                1int
            } else {
                0int
            })
        }),
    decreases n,
{
    if n > 0 {
        lemma_count_remove(rows, o, scope, n - 1);
        let cut = rows.remove(o);
        let here = if cut[n - 1].scope == scope {
            1int
        } else {
            0int
        };
        assert(count_in(cut, scope, n) == count_in(cut, scope, n - 1) + here);
        if n - 1 < o {
            assert(cut[n - 1] == rows[n - 1]);
            assert(count_in(rows, scope, n) == count_in(rows, scope, n - 1) + here);
        } else {
            assert(cut[n - 1] == rows[n]);
            assert(count_in(rows, scope, n + 1) == count_in(rows, scope, n) + here);
            if n - 1 == o {
                assert(count_in(rows, scope, n) == count_in(rows, scope, n - 1) + (if rows[o].scope
                    == scope {
                    1int
                } else {
                    0int
                }));
            }
        }
    }
}

/// A move changes the size of two scopes at most: the one that the item
/// leaves has one row less, the one that it enters one more.
pub proof fn lemma_moved_size(
    rows: Seq<Slot>,
    id: i64,
    new_position: i64,
    new_scope: i64,
    scope: i64,
)
    requires
        ids_unique(rows),
        holds(rows, id),
    ensures
        scope_size(moved(rows, id, new_position, new_scope), scope) == scope_size(rows, scope) + (
        if new_scope == scope {
            1int
        } else {
            0int
        }) - (if rows[index_of(rows, id)].scope == scope {
            1int
        } else {
            0int
        }),
{
    let o = index_of(rows, id);
    let after = moved(rows, id, new_position, new_scope);
    assert forall|i: int| 0 <= i < rows.len() && i != o implies (#[trigger] rows[i]).scope
        == after[i].scope by {
        if i < o {
            assert(rows[i].id != rows[o].id);
        } else {
            assert(rows[o].id != rows[i].id);
        }
    }
    lemma_count_change(rows, after, o, scope, rows.len() as int);
}

/// The position asked for lies within the list that the item goes to: from 1
/// to the number of rows that the list will have once the item is in it.
pub open spec fn in_range(rows: Seq<Slot>, id: i64, new_position: i64, new_scope: i64) -> bool {
    1 <= new_position <= scope_size(rows, new_scope) + (if rows[index_of(rows, id)].scope
        == new_scope {
        0int
    } else {
        1int
    })
}

/// No row but the one at `index_of(rows, id)` has the id `id` or stands at
/// its place.
proof fn lemma_item_alone(rows: Seq<Slot>, id: i64)
    requires
        valid(rows),
        holds(rows, id),
    ensures
        forall|i: int|
            0 <= i < rows.len() && i != index_of(rows, id) ==> (#[trigger] rows[i]).id != id && !(
            rows[i].scope == rows[index_of(rows, id)].scope && rows[i].position
                == rows[index_of(rows, id)].position),
{
    let o = index_of(rows, id);
    assert forall|i: int| 0 <= i < rows.len() && i != o implies (#[trigger] rows[i]).id != id && !(
    rows[i].scope == rows[o].scope && rows[i].position == rows[o].position) by {
        if i < o {
            assert(rows[i].id != rows[o].id);
            assert(!(rows[i].scope == rows[o].scope && rows[i].position == rows[o].position));
        } else {
            assert(rows[o].id != rows[i].id);
            assert(!(rows[o].scope == rows[i].scope && rows[o].position == rows[i].position));
        }
    }
}

/// A move keeps a dense scope dense: the scope that the item leaves closes
/// up, the scope that it enters holds it at the position asked for, with
/// exactly one slot opened for it, and every other scope stays as it is.
pub proof fn law_move_keeps_scope_dense(
    rows: Seq<Slot>,
    id: i64,
    new_position: i64,
    new_scope: i64,
    scope: i64,
)
    requires
        valid(rows),
        holds(rows, id),
        dense_in(rows, scope),
        scope == new_scope ==> in_range(rows, id, new_position, new_scope),
    ensures
        dense_in(moved(rows, id, new_position, new_scope), scope),
{
    let o = index_of(rows, id);
    let from = rows[o];
    let after = moved(rows, id, new_position, new_scope);
    let n = scope_size(rows, scope);
    let m = scope_size(after, scope);
    lemma_item_alone(rows, id);
    lemma_moved_size(rows, id, new_position, new_scope, scope);
    lemma_count_bounds(rows, scope, rows.len() as int);
    if from.scope == scope {
        assert(1 <= rows[o].position <= n);
    }
    assert forall|i: int| 0 <= i < after.len() && (#[trigger] after[i]).scope == scope implies 1
        <= after[i].position <= m by {
        if i != o {
            assert(rows[i].id != id);
            assert(rows[i].scope == scope);
            assert(1 <= rows[i].position <= n);
            assert(!(rows[i].scope == from.scope && rows[i].position == from.position));
        }
    }
    assert forall|q: int| 1 <= q <= m implies #[trigger] taken(after, scope, q) by {
        if scope == new_scope && q == new_position {
            assert(after[o].scope == scope && after[o].position == q);
        } else {
            let c = if scope == new_scope && q > new_position {
                q - 1
            } else {
                q
            };
            let p = if scope == from.scope && c >= from.position {
                c + 1
            } else {
                c
            };
            assert(1 <= p <= n);
            assert(taken(rows, scope, p));
            let i = choose|i: int|
                0 <= i < rows.len() && (#[trigger] rows[i]).scope == scope && rows[i].position
                    == p;
            assert(i != o);
            assert(rows[i].id != id);
            assert(after[i] == moved_slot(rows[i], from, new_position, new_scope));
            assert(after[i].scope == scope && after[i].position == q);
        }
    }
}

/// A move to a position within the list that the item goes to keeps the
/// ordering invariant: afterwards, as before, no two rows share an id or a
/// place, and the positions of every scope are exactly 1, 2, .., N.
pub proof fn law_move_keeps_dense(rows: Seq<Slot>, id: i64, new_position: i64, new_scope: i64)
    requires
        valid(rows),
        dense(rows),
        holds(rows, id),
        in_range(rows, id, new_position, new_scope),
    ensures
        dense(moved(rows, id, new_position, new_scope)),
        ids_unique(moved(rows, id, new_position, new_scope)),
        places_unique(moved(rows, id, new_position, new_scope)),
{
    let o = index_of(rows, id);
    let from = rows[o];
    let after = moved(rows, id, new_position, new_scope);
    lemma_item_alone(rows, id);
    assert forall|scope: i64| #[trigger] dense_in(after, scope) by {
        assert(dense_in(rows, scope));
        law_move_keeps_scope_dense(rows, id, new_position, new_scope, scope);
    }
    assert forall|i: int, j: int| 0 <= i < j < after.len() implies after[i].id != after[j].id && !(
    after[i].scope == after[j].scope && after[i].position == after[j].position) by {
        assert(rows[i].id != rows[j].id);
        assert(!(rows[i].scope == rows[j].scope && rows[i].position == rows[j].position));
        assert(dense_in(rows, rows[i].scope));
        assert(dense_in(rows, rows[j].scope));
        assert(1 <= rows[i].position);
        assert(1 <= rows[j].position);
    }
}

/// Moving an item down its own list, from position p to a position q above
/// p, sets it at q, shifts every other item of the list that stood at a
/// position k with p < k <= q down to k - 1, and leaves every item outside
/// that stretch, and every item of another list, where it was.
pub proof fn law_move_towards_the_end(rows: Seq<Slot>, id: i64, new_position: i64)
    requires
        valid(rows),
        holds(rows, id),
        rows[index_of(rows, id)].position < new_position,
    ensures
        ({
            let from = rows[index_of(rows, id)];
            let after = moved(rows, id, new_position, from.scope);
            &&& after.len() == rows.len()
            &&& after[index_of(rows, id)] == Slot {
                id,
                scope: from.scope,
                position: new_position,
            }
            &&& forall|i: int|
                0 <= i < rows.len() && i != index_of(rows, id) ==> #[trigger] after[i] == (if rows[i].scope
                    == from.scope && from.position < rows[i].position <= new_position {
                    Slot {
                        id: rows[i].id,
                        scope: rows[i].scope,
                        position: (rows[i].position - 1) as i64,
                    }
                } else {
                    rows[i]
                })
        }),
{
    lemma_item_alone(rows, id);
    let from = rows[index_of(rows, id)];
    let after = moved(rows, id, new_position, from.scope);
    assert forall|i: int| 0 <= i < rows.len() && i != index_of(rows, id) implies #[trigger] after[i]
        == (if rows[i].scope == from.scope && from.position < rows[i].position <= new_position {
        Slot { id: rows[i].id, scope: rows[i].scope, position: (rows[i].position - 1) as i64 }
    } else {
        rows[i]
    }) by {
        assert(rows[i].id != id);
        assert(crate::ledger::storable(rows[i].position as int));
    }
}

/// Moving an item from one scope to another leaves both contiguous: the
/// scope that it leaves has one row less and its gap closed, the scope that
/// it enters has one row more, with the item at the position asked for.
pub proof fn law_move_across_scopes(rows: Seq<Slot>, id: i64, new_position: i64, new_scope: i64)
    requires
        valid(rows),
        holds(rows, id),
        rows[index_of(rows, id)].scope != new_scope,
        dense_in(rows, rows[index_of(rows, id)].scope),
        dense_in(rows, new_scope),
        1 <= new_position <= scope_size(rows, new_scope) + 1,
    ensures
        ({
            let old_scope = rows[index_of(rows, id)].scope;
            let after = moved(rows, id, new_position, new_scope);
            &&& dense_in(after, old_scope)
            &&& dense_in(after, new_scope)
            &&& scope_size(after, old_scope) == scope_size(rows, old_scope) - 1
            &&& scope_size(after, new_scope) == scope_size(rows, new_scope) + 1
            &&& after[index_of(rows, id)] == Slot { id, scope: new_scope, position: new_position }
        }),
{
    let old_scope = rows[index_of(rows, id)].scope;
    law_move_keeps_scope_dense(rows, id, new_position, new_scope, old_scope);
    law_move_keeps_scope_dense(rows, id, new_position, new_scope, new_scope);
    lemma_moved_size(rows, id, new_position, new_scope, old_scope);
    lemma_moved_size(rows, id, new_position, new_scope, new_scope);
}

/// Moving an item to the position and the scope that it has leaves the
/// table as it was.
pub proof fn law_move_to_own_place(rows: Seq<Slot>, id: i64)
    requires
        valid(rows),
        holds(rows, id),
    ensures
        moved(rows, id, rows[index_of(rows, id)].position, rows[index_of(rows, id)].scope)
            == rows,
{
    lemma_item_alone(rows, id);
    let from = rows[index_of(rows, id)];
    let after = moved(rows, id, from.position, from.scope);
    assert forall|i: int| 0 <= i < rows.len() implies after[i] == rows[i] by {
        assert(crate::ledger::storable(rows[i].position as int));
        if i != index_of(rows, id) {
            assert(rows[i].id != id);
            assert(!(rows[i].scope == from.scope && rows[i].position == from.position));
        }
    }
    assert(after =~= rows);
}

/// Nothing stands at the next position of a scope.
pub proof fn lemma_next_position_free(rows: Seq<Slot>, scope: i64)
    ensures
        !taken(rows, scope, next_position(rows, scope)),
{
    lemma_top_position(rows, scope, rows.len() as int);
    assert forall|i: int| 0 <= i < rows.len() implies !((#[trigger] rows[i]).scope == scope
        && rows[i].position == next_position(rows, scope)) by {}
}

/// In a dense scope the next position is one more than the number of rows.
pub proof fn law_next_position_appends(rows: Seq<Slot>, scope: i64)
    requires
        dense_in(rows, scope),
    ensures
        next_position(rows, scope) == scope_size(rows, scope) + 1,
{
    let n = scope_size(rows, scope);
    lemma_top_position(rows, scope, rows.len() as int);
    lemma_count_bounds(rows, scope, rows.len() as int);
    match top_position(rows, scope, rows.len() as int) {
        Some(m) => {
            let w = choose|i: int|
                0 <= i < rows.len() && (#[trigger] rows[i]).scope == scope && rows[i].position
                    == m;
            assert(1 <= rows[w].position <= n);
            assert(taken(rows, scope, n));
            let t = choose|i: int|
                0 <= i < rows.len() && (#[trigger] rows[i]).scope == scope && rows[i].position
                    == n;
            assert(rows[t].position <= m);
        },
        None => {
            if n >= 1 {
                assert(taken(rows, scope, 1));
                let t = choose|i: int|
                    0 <= i < rows.len() && (#[trigger] rows[i]).scope == scope
                        && rows[i].position == 1;
                assert(rows[t].scope != scope);
            }
        },
    }
}

/// Appending keeps a dense scope dense: a new row at the next position of
/// its scope extends that scope by one, and leaves every other scope as it
/// is.
pub proof fn law_append_keeps_scope_dense(rows: Seq<Slot>, id: i64, into: i64, scope: i64)
    requires
        dense_in(rows, scope),
        next_position(rows, into) <= i64::MAX,
    ensures
        dense_in(
            rows.push(Slot { id, scope: into, position: next_position(rows, into) as i64 }),
            scope,
        ),
        scope_size(
            rows.push(Slot { id, scope: into, position: next_position(rows, into) as i64 }),
            scope,
        ) == scope_size(rows, scope) + (if into == scope {
            1int
        } else {
            0int
        }),
{
    let slot = Slot { id, scope: into, position: next_position(rows, into) as i64 };
    let after = rows.push(slot);
    let n = scope_size(rows, scope);
    lemma_count_same(rows, after, scope, rows.len() as int);
    lemma_count_bounds(rows, scope, rows.len() as int);
    lemma_top_position(rows, into, rows.len() as int);
    if into == scope {
        law_next_position_appends(rows, scope);
    }
    assert forall|i: int| 0 <= i < after.len() && (#[trigger] after[i]).scope == scope implies 1
        <= after[i].position <= scope_size(after, scope) by {
        if i < rows.len() {
            assert(after[i] == rows[i]);
        }
    }
    assert forall|q: int| 1 <= q <= scope_size(after, scope) implies #[trigger] taken(
        after,
        scope,
        q,
    ) by {
        if q <= n {
            assert(taken(rows, scope, q));
            let i = choose|i: int|
                0 <= i < rows.len() && (#[trigger] rows[i]).scope == scope && rows[i].position
                    == q;
            assert(after[i] == rows[i]);
        } else {
            assert(after[rows.len() as int] == slot);
        }
    }
}

/// A removal keeps a dense scope dense: the scope that loses the item closes
/// up, and every other scope stays as it is.
pub proof fn law_removal_keeps_scope_dense(rows: Seq<Slot>, id: i64, scope: i64)
    requires
        valid(rows),
        holds(rows, id),
        dense_in(rows, scope),
    ensures
        dense_in(crate::reorder::removed(rows, id), scope),
        scope_size(crate::reorder::removed(rows, id), scope) == scope_size(rows, scope) - (
        if rows[index_of(rows, id)].scope == scope {
            1int
        } else {
            0int
        }),
{
    let o = index_of(rows, id);
    let from = rows[o];
    let cut = rows.remove(o);
    let after = crate::reorder::removed(rows, id);
    let n = scope_size(rows, scope);
    lemma_item_alone(rows, id);
    lemma_count_remove(rows, o, scope, rows.len() - 1);
    lemma_count_same(cut, after, scope, cut.len() as int);
    lemma_count_bounds(rows, scope, rows.len() as int);
    let m = scope_size(after, scope);
    if from.scope == scope {
        assert(1 <= rows[o].position <= n);
    }
    assert forall|i: int| 0 <= i < after.len() && (#[trigger] after[i]).scope == scope implies 1
        <= after[i].position <= m by {
        let k = if i < o {
            i
        } else {
            i + 1
        };
        assert(cut[i] == rows[k]);
        assert(rows[k].scope == scope);
        assert(1 <= rows[k].position <= n);
        assert(!(rows[k].scope == from.scope && rows[k].position == from.position));
    }
    assert forall|q: int| 1 <= q <= m implies #[trigger] taken(after, scope, q) by {
        let p = if scope == from.scope && q >= from.position {
            q + 1
        } else {
            q
        };
        assert(taken(rows, scope, p));
        let k = choose|k: int|
            0 <= k < rows.len() && (#[trigger] rows[k]).scope == scope && rows[k].position == p;
        assert(k != o);
        let i = if k < o {
            k
        } else {
            k - 1
        };
        assert(cut[i] == rows[k]);
        assert(after[i].scope == scope && after[i].position == q);
    }
}

/// A removal keeps the ordering invariant.
pub proof fn law_removal_keeps_dense(rows: Seq<Slot>, id: i64)
    requires
        valid(rows),
        dense(rows),
        holds(rows, id),
    ensures
        dense(crate::reorder::removed(rows, id)),
{
    assert forall|scope: i64| #[trigger] dense_in(crate::reorder::removed(rows, id), scope) by {
        assert(dense_in(rows, scope));
        law_removal_keeps_scope_dense(rows, id, scope);
    }
}

/// An append keeps the ordering invariant.
pub proof fn law_append_keeps_dense(rows: Seq<Slot>, id: i64, into: i64)
    requires
        dense(rows),
        next_position(rows, into) <= i64::MAX,
    ensures
        dense(rows.push(Slot { id, scope: into, position: next_position(rows, into) as i64 })),
{
    assert forall|scope: i64| #[trigger]
        dense_in(
            rows.push(Slot { id, scope: into, position: next_position(rows, into) as i64 }),
            scope,
        ) by {
        assert(dense_in(rows, scope));
        law_append_keeps_scope_dense(rows, id, into, scope);
    }
}

/// A move to a position of 1 or more leaves no row at the reserved position
/// 0 where there was none: the item that was taken out of the ordering is
/// back in it, and no other row is sent below 1.
pub proof fn law_move_leaves_none_unpositioned(
    rows: Seq<Slot>,
    id: i64,
    new_position: i64,
    new_scope: i64,
)
    requires
        valid(rows),
        holds(rows, id),
        1 <= new_position,
        forall|i: int| 0 <= i < rows.len() ==> (#[trigger] rows[i]).position >= 1,
    ensures
        forall|i: int|
            0 <= i < rows.len() ==> (#[trigger] moved(
                rows,
                id,
                new_position,
                new_scope,
            )[i]).position >= 1,
{
    let from = rows[index_of(rows, id)];
    assert(from.position >= 1);
    assert forall|i: int| 0 <= i < rows.len() implies (#[trigger] moved(
        rows,
        id,
        new_position,
        new_scope,
    )[i]).position >= 1 by {
        assert(rows[i].position >= 1);
        assert(crate::ledger::storable(rows[i].position as int));
    }
}

} // verus!
