//! The tables of the restaurant and the orders on them.

use vstd::prelude::*;
use crate::decimal::{decimal, parse_usize, parse_usize_spec, usize_to_decimal};
use crate::errors::{intoTeketekeError, ApiResult, TeketekeError};

verus! {

/// The state of an order.
#[allow(non_camel_case_types)]
#[derive(Clone, Copy, Debug, PartialEq, Eq, Structural)]
pub enum States {
    PENDING,
    DELIVERD,
    EMPTY,
}

/// An order on a table.
#[derive(Debug)]
pub struct Record {
    pub itemname: String,
    pub id: usize,
    pub state: States,
    pub qty: i32,
    pub eta: u64,
}

impl Record {
    /// A copy of the order.
    pub fn duplicate(&self) -> (r: Record)
        ensures
            r == *self,
    {
        Record {
            itemname: self.itemname.clone(),
            id: self.id,
            state: self.state,
            qty: self.qty,
            eta: self.eta,
        }
    }
}

/// An item that a customer asks for.
#[derive(Debug)]
pub struct TableRequest {
    pub itemname: String,
    pub qty: i32,
    pub eta: u64,
}

/// The items of one request.
#[derive(Debug)]
pub struct TableRequestVec {
    pub tab: Vec<TableRequest>,
}

/// The tables, each with its orders in the order they were placed.
pub struct Datastore {
    vault: Vec<Vec<Record>>,
}

impl View for Datastore {
    type V = Seq<Seq<Record>>;

    closed spec fn view(&self) -> Seq<Seq<Record>> {
        Seq::new(self.vault@.len(), |i: int| self.vault@[i]@)
    }
}

/// The order that `req` becomes under the order number `id`: pending, with
/// the item, quantity and time that were asked for.
pub open spec fn new_record(req: TableRequest, id: usize) -> Record {
    Record { itemname: req.itemname, id, state: States::PENDING, qty: req.qty, eta: req.eta }
}

/// The orders that `reqs` become, numbered on from `last`.
pub open spec fn new_records(reqs: Seq<TableRequest>, last: usize) -> Seq<Record> {
    Seq::new(reqs.len(), |i: int| new_record(reqs[i], (last + i + 1) as usize))
}

/// The tables after `recs` were added at the end of table `table`.
pub open spec fn with_added(tables: Seq<Seq<Record>>, table: int, recs: Seq<Record>) -> Seq<
    Seq<Record>,
> {
    tables.update(table, tables[table] + recs)
}

/// `i` is the position of the first order numbered `id` in `t`.
pub open spec fn is_first_with_id(t: Seq<Record>, id: usize, i: int) -> bool {
    &&& 0 <= i < t.len()
    &&& t[i].id == id
    &&& forall|j: int| 0 <= j < i ==> #[trigger] t[j].id != id
}

/// `t` without its first order numbered `id` (unchanged when there is none).
pub open spec fn removed_by_id(t: Seq<Record>, id: usize) -> Seq<Record> {
    if exists|i: int| is_first_with_id(t, id, i) {
        t.remove(choose|i: int| is_first_with_id(t, id, i))
    } else {
        t
    }
}

/// Message of a read of an unknown table.
pub const UNALLOCATED_READ: &'static str = "I am a tea pot Error: this table is not allocate - build a bigger restaurant";

/// Message of a write to an unknown table.
pub const UNALLOCATED_WRITE: &'static str = "I am a tea pot Error: this table is not allocated - build a bigger restaurant";

/// Message of a removal whose order number is not a number.
pub const ILLEGAL_NUMBER: &'static str = "Illegal table number";

/// Message of a request that added nothing.
pub const NOTHING_MODIFIED: &'static str = "Nothing modified";

/// A restaurant with `num` tables, all empty.
pub fn new_datastore(num: usize) -> (d: Datastore)
    ensures
        d@ == Seq::new(num as nat, |i: int| Seq::<Record>::empty()),
{
    let mut v: Vec<Vec<Record>> = Vec::new();
    let mut i: usize = 0;
    while i < num
        invariant
            i <= num,
            v@.len() == i,
            forall|j: int| 0 <= j < i ==> (#[trigger] v@[j])@ == Seq::<Record>::empty(),
        decreases num - i,
    {
        v.push(Vec::new());
        i = i + 1;
    }
    let d = Datastore { vault: v };
    assert(d@ =~= Seq::new(num as nat, |i: int| Seq::<Record>::empty()));
    d
}

impl Datastore {
    /// The number of tables.
    pub fn len(&self) -> (n: usize)
        ensures
            n == self@.len(),
    {
        self.vault.len()
    }
}

/// The next order number: the counter goes up by one and its new value is
/// the number.
pub fn get_global_num(itemnum: &mut usize) -> (r: usize)
    requires
        *old(itemnum) < usize::MAX,
    ensures
        r == *old(itemnum) + 1,
        *final(itemnum) == r,
{
    *itemnum = *itemnum + 1;
    *itemnum
}

/// The orders of table `table`, or 418 when there is no such table.
pub fn table_get_all(store: &Datastore, table: usize) -> (r: ApiResult<Vec<Record>>)
    ensures
        table < store@.len() ==> (r matches ApiResult::Success(v) && v@ == store@[table as int]),
        table >= store@.len() ==> (r matches ApiResult::Failure(code, msg) && code == 418
            && msg@ == UNALLOCATED_READ@),
{
    if table >= store.vault.len() {
        return ApiResult::Failure(418, String::from_str(UNALLOCATED_READ));
    }
    let t = &store.vault[table];
    let mut out: Vec<Record> = Vec::new();
    let mut i: usize = 0;
    while i < t.len()
        invariant
            i <= t@.len(),
            out@ == t@.take(i as int),
        decreases t@.len() - i,
    {
        out.push(t[i].duplicate());
        i = i + 1;
        assert(out@ =~= t@.take(i as int));
    }
    assert(t@.take(t@.len() as int) =~= t@);
    ApiResult::Success(out)
}

/// Adds the requested items to table `table` as pending orders numbered on
/// from the counter, and answers how many there were (as a `u32`).
pub fn table_store_new_items(
    store: &mut Datastore,
    itemnum: &mut usize,
    table: usize,
    v: Vec<TableRequest>,
) -> (r: u32)
    requires
        table < old(store)@.len(),
        *old(itemnum) + v@.len() <= usize::MAX,
    ensures
        final(store)@ == with_added(old(store)@, table as int, new_records(v@, *old(itemnum))),
        *final(itemnum) == *old(itemnum) + v@.len(),
        r == v@.len() as u32,
{
    let ghost start = *itemnum;
    let mut target: Vec<Record> = Vec::new();
    let mut i: usize = 0;
    while i < v.len()
        invariant
            i <= v@.len(),
            start + v@.len() <= usize::MAX,
            *itemnum == start + i,
            target@ == new_records(v@.take(i as int), start),
        decreases v@.len() - i,
    {
        let req = &v[i];
        let id = get_global_num(itemnum);
        target.push(
            Record {
                itemname: req.itemname.clone(),
                id: id,
                qty: req.qty,
                state: States::PENDING,
                eta: req.eta,
            },
        );
        i = i + 1;
        assert(target@ =~= new_records(v@.take(i as int), start));
    }
    assert(v@.take(v@.len() as int) =~= v@);
    let retval = target.len();
    store.vault[table].append(&mut target);
    assert(store@ =~= with_added(old(store)@, table as int, new_records(v@, start)));
    retval as u32
}

/// Removes the first order numbered by `path` from table `table` and
/// answers with an empty text; a `path` that is no number is answered
/// with 503 and changes nothing, whatever the table.
pub fn table_remove_item(store: &mut Datastore, table: usize, path: String) -> (r: ApiResult<
    String,
>)
    requires
        parse_usize_spec(path@) is Some ==> table < old(store)@.len(),
    ensures
        match parse_usize_spec(path@) {
            None => {
                &&& r matches ApiResult::Failure(code, msg) && code == 503 && msg@ == ILLEGAL_NUMBER@
                &&& final(store)@ == old(store)@
            },
            Some(id) => {
                &&& r matches ApiResult::Success(s) && s@ == Seq::<char>::empty()
                &&& final(store)@ == old(store)@.update(
                    table as int,
                    removed_by_id(old(store)@[table as int], id),
                )
            },
        },
{
    let removethis = match parse_usize(path.as_str()) {
        Some(x) => x,
        None => return ApiResult::Failure(503, String::from_str(ILLEGAL_NUMBER)),
    };
    let ghost t = store@[table as int];
    let n = store.vault[table].len();
    let mut i: usize = 0;
    while i < n
        invariant
            n == t.len(),
            parse_usize_spec(path@) == Some(removethis),
            t == old(store)@[table as int],
            t == store.vault@[table as int]@,
            store@ == old(store)@,
            table < store.vault@.len(),
            i <= n,
            forall|j: int| 0 <= j < i ==> #[trigger] t[j].id != removethis,
        decreases n - i,
    {
        if store.vault[table][i].id == removethis {
            assert(is_first_with_id(t, removethis, i as int));
            let ghost k = choose|k: int| is_first_with_id(t, removethis, k);
            assert(k == i) by {
                if k < i {
                    assert(t[k].id != removethis);
                } else if k > i {
                    assert(t[i as int].id != removethis);
                }
            }
            store.vault[table].remove(i);
            assert(store.vault@[table as int]@ =~= t.remove(i as int));
            assert(removed_by_id(t, removethis) == t.remove(i as int));
            assert(store@ =~= old(store)@.update(table as int, removed_by_id(t, removethis)));
            return ApiResult::Success(String::new());
        }
        i = i + 1;
    }
    assert(!exists|k: int| is_first_with_id(t, removethis, k));
    assert(store@ =~= old(store)@.update(table as int, removed_by_id(t, removethis)));
    ApiResult::Success(String::new())
}

/// The outcome of a request to add items to table `table`: a body that
/// could not be read is passed on as an outside error; otherwise the
/// items are stored and their count is the answer, or, when the count is
/// zero, the service's error "Nothing modified".
pub fn table_add_items(
    store: &mut Datastore,
    itemnum: &mut usize,
    table: usize,
    parsed: Result<TableRequestVec, std::io::Error>,
) -> (r: Result<String, TeketekeError<std::io::Error>>)
    requires
        parsed matches Ok(reqs) ==> table < old(store)@.len() && *old(itemnum) + reqs.tab@.len()
            <= usize::MAX,
    ensures
        match parsed {
            Err(e) => {
                &&& r == Err::<String, TeketekeError<std::io::Error>>(TeketekeError::ExternalError(e))
                &&& final(store)@ == old(store)@
                &&& *final(itemnum) == *old(itemnum)
            },
            Ok(reqs) => {
                &&& final(store)@ == with_added(
                    old(store)@,
                    table as int,
                    new_records(reqs.tab@, *old(itemnum)),
                )
                &&& *final(itemnum) == *old(itemnum) + reqs.tab@.len()
                &&& if reqs.tab@.len() as u32 == 0 {
                    r matches Err(TeketekeError::InternalError(msg)) && msg@ == NOTHING_MODIFIED@
                } else {
                    r matches Ok(s) && s@ == decimal((reqs.tab@.len() as u32) as nat)
                }
            },
        },
{
    match parsed {
        Err(e) => Err(intoTeketekeError(e)),
        Ok(t) => {
            let x = table_store_new_items(store, itemnum, table, t.tab);
            if x == 0 {
                Err(TeketekeError::InternalError(String::from_str(NOTHING_MODIFIED)))
            } else {
                Ok(usize_to_decimal(x as usize))
            }
        },
    }
}

} // verus!
