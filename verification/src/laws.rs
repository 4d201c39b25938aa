//! Properties of the order book that span its operations: order numbers
//! stay unique, a read gives back what was added, and removing a freshly
//! added order restores the table.

use vstd::prelude::*;
use crate::store::{
    is_first_with_id, new_records, removed_by_id, with_added, Record, States, TableRequest,
};

verus! {

/// `(t, i)` names an order of `tables`.
pub open spec fn is_slot(tables: Seq<Seq<Record>>, t: int, i: int) -> bool {
    0 <= t < tables.len() && 0 <= i < tables[t].len()
}

/// Every order of `tables` carries a number from 1 to `last`, and no two
/// orders carry the same number.
pub open spec fn numbers_issued(tables: Seq<Seq<Record>>, last: usize) -> bool {
    &&& forall|t: int, i: int| #[trigger]
        is_slot(tables, t, i) ==> 1 <= tables[t][i].id <= last
    &&& forall|t1: int, i1: int, t2: int, i2: int|
        #![trigger is_slot(tables, t1, i1), is_slot(tables, t2, i2)]
        is_slot(tables, t1, i1) && is_slot(tables, t2, i2) && (t1 != t2 || i1 != i2)
            ==> tables[t1][i1].id != tables[t2][i2].id
}

/// A restaurant whose tables are all empty has issued no number.
pub proof fn lemma_empty_tables_issue_nothing(num: nat)
    ensures
        numbers_issued(Seq::new(num, |i: int| Seq::<Record>::empty()), 0),
{
}

/// Reading a table after orders were added to a table gives back the
/// table's earlier orders followed by the added ones when it is the table
/// written to, and its earlier orders otherwise.
pub proof fn lemma_read_after_add(
    tables: Seq<Seq<Record>>,
    table: int,
    recs: Seq<Record>,
    other: int,
)
    requires
        0 <= table < tables.len(),
        0 <= other < tables.len(),
    ensures
        with_added(tables, table, recs).len() == tables.len(),
        with_added(tables, table, recs)[other] == if other == table {
            tables[table] + recs
        } else {
            tables[other]
        },
{
}

/// Adding requested items under fresh numbers keeps every number unique
/// and within the counter.
pub proof fn lemma_add_keeps_numbers_unique(
    tables: Seq<Seq<Record>>,
    table: int,
    reqs: Seq<TableRequest>,
    last: usize,
)
    requires
        numbers_issued(tables, last),
        0 <= table < tables.len(),
        last + reqs.len() <= usize::MAX,
    ensures
        numbers_issued(with_added(tables, table, new_records(reqs, last)), (last + reqs.len()) as usize),
{
    let recs = new_records(reqs, last);
    let after = with_added(tables, table, recs);
    let top = (last + reqs.len()) as usize;
    let n0 = tables[table].len();
    // The number of each order of the new tables.
    assert forall|t: int, i: int| #[trigger] is_slot(after, t, i) implies (if t == table && i
        >= n0 {
        after[t][i].id == last + (i - n0) + 1
    } else {
        is_slot(tables, t, i) && after[t][i] == tables[t][i]
    }) by {
        if t == table && i >= n0 {
            assert(after[t][i] == recs[i - n0]);
        } else if t == table {
            assert(after[t][i] == tables[t][i]);
        }
    }
    assert forall|t: int, i: int| #[trigger] is_slot(after, t, i) implies 1 <= after[t][i].id
        <= top by {
        if !(t == table && i >= n0) {
            assert(is_slot(tables, t, i));
        }
    }
    assert forall|t1: int, i1: int, t2: int, i2: int|
        is_slot(after, t1, i1) && is_slot(after, t2, i2) && (t1 != t2 || i1 != i2) implies after[t1][i1].id
        != after[t2][i2].id by {
        assert(is_slot(after, t1, i1));
        assert(is_slot(after, t2, i2));
        let new1 = t1 == table && i1 >= n0;
        let new2 = t2 == table && i2 >= n0;
        if !new1 && !new2 {
            assert(is_slot(tables, t1, i1) && is_slot(tables, t2, i2));
        } else if !new1 {
            assert(is_slot(tables, t1, i1));
        } else if !new2 {
            assert(is_slot(tables, t2, i2));
        }
    }
}

/// Removing the first order with a given number keeps every number unique
/// and within the counter.
pub proof fn lemma_remove_keeps_numbers_unique(
    tables: Seq<Seq<Record>>,
    table: int,
    id: usize,
    last: usize,
)
    requires
        numbers_issued(tables, last),
        0 <= table < tables.len(),
    ensures
        numbers_issued(tables.update(table, removed_by_id(tables[table], id)), last),
{
    let t0 = tables[table];
    let after = tables.update(table, removed_by_id(t0, id));
    if exists|k: int| is_first_with_id(t0, id, k) {
        let k = choose|k: int| is_first_with_id(t0, id, k);
        // Each order of the new tables, and where it was before.
        assert forall|t: int, i: int| #[trigger] is_slot(after, t, i) implies (if t == table
            && i >= k {
            is_slot(tables, t, i + 1) && after[t][i] == tables[t][i + 1]
        } else {
            is_slot(tables, t, i) && after[t][i] == tables[t][i]
        }) by {}
        assert forall|t: int, i: int| #[trigger] is_slot(after, t, i) implies 1 <= after[t][i].id
            <= last by {
            if t == table && i >= k {
                assert(is_slot(tables, t, i + 1));
            } else {
                assert(is_slot(tables, t, i));
            }
        }
        assert forall|t1: int, i1: int, t2: int, i2: int|
            is_slot(after, t1, i1) && is_slot(after, t2, i2) && (t1 != t2 || i1 != i2) implies after[t1][i1].id
            != after[t2][i2].id by {
            assert(is_slot(after, t1, i1));
            assert(is_slot(after, t2, i2));
            let j1 = if t1 == table && i1 >= k { i1 + 1 } else { i1 };
            let j2 = if t2 == table && i2 >= k { i2 + 1 } else { i2 };
            assert(is_slot(tables, t1, j1) && is_slot(tables, t2, j2));
        }
    } else {
        assert(after =~= tables);
    }
}

/// Adding one item and then removing the order with the number it was
/// given leaves the tables as they were.
pub proof fn lemma_remove_undoes_add(
    tables: Seq<Seq<Record>>,
    table: int,
    req: TableRequest,
    last: usize,
)
    requires
        numbers_issued(tables, last),
        0 <= table < tables.len(),
        last < usize::MAX,
    ensures
        ({
            let added = with_added(tables, table, new_records(seq![req], last));
            added.update(table, removed_by_id(added[table], (last + 1) as usize)) == tables
        }),
{
    let recs = new_records(seq![req], last);
    let added = with_added(tables, table, recs);
    let t1 = added[table];
    let n0 = tables[table].len();
    let id = (last + 1) as usize;
    assert(t1 == tables[table] + recs);
    assert(t1[n0 as int] == recs[0]);
    assert(is_first_with_id(t1, id, n0 as int)) by {
        assert forall|j: int| 0 <= j < n0 implies #[trigger] t1[j].id != id by {
            assert(t1[j] == tables[table][j]);
            assert(is_slot(tables, table, j));
        }
    }
    let k = choose|k: int| is_first_with_id(t1, id, k);
    assert(k == n0) by {
        if k < n0 {
            assert(t1[k] == tables[table][k]);
            assert(is_slot(tables, table, k));
        }
    }
    assert(t1.remove(n0 as int) =~= tables[table]);
    assert(added.update(table, removed_by_id(t1, id)) =~= tables);
}

/// While numbers are unique, removing an order by its number leaves no order
/// with that number on the table, takes away exactly one order when there
/// was one, and keeps the others in their order.
pub proof fn lemma_removed_number_gone(
    tables: Seq<Seq<Record>>,
    table: int,
    id: usize,
    last: usize,
)
    requires
        numbers_issued(tables, last),
        0 <= table < tables.len(),
    ensures
        forall|i: int|
            0 <= i < removed_by_id(tables[table], id).len() ==> #[trigger] removed_by_id(
                tables[table],
                id,
            )[i].id != id,
        removed_by_id(tables[table], id).len() == if exists|j: int|
            0 <= j < tables[table].len() && #[trigger] tables[table][j].id == id {
            tables[table].len() - 1
        } else {
            tables[table].len() as int
        },
{
    let t0 = tables[table];
    let r = removed_by_id(t0, id);
    if exists|j: int| 0 <= j < t0.len() && #[trigger] t0[j].id == id {
        let j = choose|j: int| 0 <= j < t0.len() && #[trigger] t0[j].id == id;
        // The first order with the number is the only one.
        assert(is_first_with_id(t0, id, j)) by {
            assert forall|m: int| 0 <= m < j implies #[trigger] t0[m].id != id by {
                assert(is_slot(tables, table, m) && is_slot(tables, table, j));
            }
        }
        let k = choose|k: int| is_first_with_id(t0, id, k);
        assert forall|i: int| 0 <= i < r.len() implies #[trigger] r[i].id != id by {
            let src = if i >= k { i + 1 } else { i };
            assert(r[i] == t0[src]);
            assert(is_slot(tables, table, src) && is_slot(tables, table, k));
        }
    } else {
        assert forall|i: int| 0 <= i < r.len() implies #[trigger] r[i].id != id by {
            assert(!is_first_with_id(t0, id, i));
            assert(r[i] == t0[i]);
        }
    }
}

/// Removing the first order numbered `id`, found at position `k`, deletes
/// exactly that order: the orders before it stay where they were, and the
/// orders after it move up one place, in their previous order.
pub proof fn lemma_remove_keeps_order(t: Seq<Record>, id: usize, k: int)
    requires
        0 <= k < t.len(),
        t[k].id == id,
        forall|j: int| 0 <= j < k ==> #[trigger] t[j].id != id,
    ensures
        removed_by_id(t, id).len() == t.len() - 1,
        forall|i: int| 0 <= i < k ==> #[trigger] removed_by_id(t, id)[i] == t[i],
        forall|i: int| k <= i < t.len() - 1 ==> #[trigger] removed_by_id(t, id)[i] == t[i + 1],
{
    assert(is_first_with_id(t, id, k));
    let c = choose|c: int| is_first_with_id(t, id, c);
    assert(c == k) by {
        if c < k {
            assert(t[c].id != id);
        } else if c > k {
            assert(t[k].id != id);
        }
    }
}

/// Removing a number that no order of the table carries leaves the table
/// as it is.
pub proof fn lemma_remove_absent_number(t: Seq<Record>, id: usize)
    requires
        forall|j: int| 0 <= j < t.len() ==> #[trigger] t[j].id != id,
    ensures
        removed_by_id(t, id) == t,
{
    assert(!exists|k: int| is_first_with_id(t, id, k));
}

/// Storing requested items on table `table` with the counter at `last`
/// keeps every other table and the table's earlier orders as they were,
/// and appends one order per requested item, in the requested order: the
/// `i`-th carries that item's name, quantity and time, is pending, and is
/// numbered `last + i + 1`.
pub proof fn lemma_store_items_effect(
    tables: Seq<Seq<Record>>,
    table: int,
    reqs: Seq<TableRequest>,
    last: usize,
)
    requires
        0 <= table < tables.len(),
        last + reqs.len() <= usize::MAX,
    ensures
        ({
            let after = with_added(tables, table, new_records(reqs, last));
            let n0 = tables[table].len();
            &&& after.len() == tables.len()
            &&& forall|u: int| 0 <= u < tables.len() && u != table ==> #[trigger] after[u] == tables[u]
            &&& after[table].len() == n0 + reqs.len()
            &&& forall|i: int| 0 <= i < n0 ==> #[trigger] after[table][i] == tables[table][i]
            &&& forall|i: int|
                0 <= i < reqs.len() ==> {
                    &&& (#[trigger] after[table][n0 + i]).itemname == reqs[i].itemname
                    &&& after[table][n0 + i].qty == reqs[i].qty
                    &&& after[table][n0 + i].eta == reqs[i].eta
                    &&& after[table][n0 + i].state == States::PENDING
                    &&& after[table][n0 + i].id == last + i + 1
                }
        }),
{
    let recs = new_records(reqs, last);
    let after = with_added(tables, table, recs);
    let n0 = tables[table].len();
    assert forall|i: int| 0 <= i < reqs.len() implies after[table][n0 + i] == recs[i] by {}
}

} // verus!
