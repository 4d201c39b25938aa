//! The answers that the service sends: status codes, messages, and the
//! body listing every table.

use vstd::prelude::*;
use crate::decimal::{decimal, usize_to_decimal};
use crate::errors::{ApiResult, TeketekeError};
use crate::store::UNALLOCATED_WRITE;

verus! {

/// An answer: an HTTP status and a body text.
#[derive(Debug)]
pub struct Reply {
    pub status: u16,
    pub body: String,
}

/// Message of a refused file.
pub const FORBIDDEN_FILE: &'static str = "Thou shalt not read forbidden files";

/// Message of a request that the service does not handle.
pub const NOT_IMPLEMENTED: &'static str = "Not implemented";

/// Message of a failure that the service does not describe.
pub const UNKNOWN_ERROR: &'static str = "Unknown error";

/// The answer to a target that is neither a table path nor a client file.
pub fn forbidden_reply() -> (r: Reply)
    ensures
        r.status == 403,
        r.body@ == FORBIDDEN_FILE@,
{
    Reply { status: 403, body: String::from_str(FORBIDDEN_FILE) }
}

/// The answer to a request that the service does not handle.
pub fn not_implemented_reply() -> (r: Reply)
    ensures
        r.status == 501,
        r.body@ == NOT_IMPLEMENTED@,
{
    Reply { status: 501, body: String::from_str(NOT_IMPLEMENTED) }
}

/// The answer to a request to add orders to a table that does not exist.
pub fn unallocated_table_reply() -> (r: Reply)
    ensures
        r.status == 418,
        r.body@ == UNALLOCATED_WRITE@,
{
    Reply { status: 418, body: String::from_str(UNALLOCATED_WRITE) }
}

/// The answer carrying a table operation's result: 200 and the text, or
/// the operation's status and message.
pub fn api_reply(res: ApiResult<String>) -> (r: Reply)
    ensures
        match res {
            ApiResult::Success(s) => r.status == 200 && r.body == s,
            ApiResult::Failure(code, msg) => r.status == code && r.body == msg,
        },
{
    match res {
        ApiResult::Success(s) => Reply { status: 200, body: s },
        ApiResult::Failure(code, msg) => Reply { status: code, body: msg },
    }
}

/// The answer to a request that added orders: 200 and the count, 417 and
/// the service's message, or 418 "Unknown error" when the body could not
/// be read.
pub fn post_items_reply<E>(outcome: Result<String, TeketekeError<E>>) -> (r: Reply)
    ensures
        match outcome {
            Ok(s) => r.status == 200 && r.body == s,
            Err(TeketekeError::InternalError(msg)) => r.status == 417 && r.body == msg,
            Err(TeketekeError::ExternalError(_)) => r.status == 418 && r.body@ == UNKNOWN_ERROR@,
        },
{
    match outcome {
        Ok(s) => Reply { status: 200, body: s },
        Err(TeketekeError::InternalError(s)) => Reply { status: 417, body: s },
        _ => Reply { status: 418, body: String::from_str(UNKNOWN_ERROR) },
    }
}

/// The answer to a request to add orders to table `table` of a restaurant
/// with `tables` tables: 418 when there is no such table (nothing was
/// attempted), otherwise the answer to the adding's outcome.
pub fn post_table_reply<E>(
    tables: usize,
    table: usize,
    outcome: Option<Result<String, TeketekeError<E>>>,
) -> (r: Reply)
    requires
        table < tables ==> outcome is Some,
    ensures
        table >= tables ==> r.status == 418 && r.body@ == UNALLOCATED_WRITE@,
        table < tables ==> match outcome->0 {
            Ok(s) => r.status == 200 && r.body == s,
            Err(TeketekeError::InternalError(msg)) => r.status == 417 && r.body == msg,
            Err(TeketekeError::ExternalError(_)) => r.status == 418 && r.body@ == UNKNOWN_ERROR@,
        },
{
    if table < tables {
        match outcome {
            Some(o) => post_items_reply(o),
            None => unallocated_table_reply(),
        }
    } else {
        unallocated_table_reply()
    }
}

/// `{"tables":{`
pub open spec fn tables_open() -> Seq<char> {
    seq!['{', '"', 't', 'a', 'b', 'l', 'e', 's', '"', ':', '{']
}

/// `}}`
pub open spec fn tables_close() -> Seq<char> {
    seq!['}', '}']
}

/// `,`
pub open spec fn comma() -> Seq<char> {
    seq![',']
}

/// The key of table `i`: `"<i>":`.
pub open spec fn table_key(i: nat) -> Seq<char> {
    seq!['"'] + decimal(i) + seq!['"', ':']
}

/// For each table in order its key, its orders' text and a comma.
pub open spec fn table_entries(tables: Seq<Seq<char>>) -> Seq<Seq<char>>
    decreases tables.len(),
{
    if tables.len() == 0 {
        Seq::empty()
    } else {
        table_entries(tables.drop_last()) + seq![
            table_key((tables.len() - 1) as nat),
            tables.last(),
            comma(),
        ]
    }
}

/// The pieces of the body listing every table, given each table's orders as
/// text: the opening, the entries without the last comma, and the closing.
pub open spec fn all_tables_chunks_spec(tables: Seq<Seq<char>>) -> Seq<Seq<char>> {
    if tables.len() == 0 {
        seq![tables_open(), tables_close()]
    } else {
        seq![tables_open()] + table_entries(tables).drop_last() + seq![tables_close()]
    }
}

/// The characters of a list of strings.
pub open spec fn chars_of(v: Seq<String>) -> Seq<Seq<char>> {
    Seq::new(v.len(), |i: int| v[i]@)
}

proof fn lemma_table_entries_len(tables: Seq<Seq<char>>)
    ensures
        table_entries(tables).len() == 3 * tables.len(),
    decreases tables.len(),
{
    if tables.len() > 0 {
        lemma_table_entries_len(tables.drop_last());
    }
}

fn tables_open_text() -> (s: String)
    ensures
        s@ == tables_open(),
{
    proof {
        reveal_strlit("{\"tables\":{");
        assert("{\"tables\":{"@ =~= tables_open());
    }
    String::from_str("{\"tables\":{")
}

fn tables_close_text() -> (s: String)
    ensures
        s@ == tables_close(),
{
    proof {
        reveal_strlit("}}");
        assert("}}"@ =~= tables_close());
    }
    String::from_str("}}")
}

fn comma_text() -> (s: String)
    ensures
        s@ == comma(),
{
    proof {
        reveal_strlit(",");
        assert(","@ =~= comma());
    }
    String::from_str(",")
}

fn table_key_text(i: usize) -> (s: String)
    ensures
        s@ == table_key(i as nat),
{
    proof {
        reveal_strlit("\"");
        reveal_strlit("\":");
        assert("\""@ =~= seq!['"']);
        assert("\":"@ =~= seq!['"', ':']);
    }
    let s = String::from_str("\"").concat(usize_to_decimal(i).as_str()).concat("\":");
    assert(s@ =~= table_key(i as nat));
    s
}

/// Entry `i` of the table entries is at positions `3i`, `3i + 1`, `3i + 2`.
proof fn lemma_table_entry(tables: Seq<Seq<char>>, i: int)
    requires
        0 <= i < tables.len(),
    ensures
        table_entries(tables).len() == 3 * tables.len(),
        table_entries(tables)[3 * i] == table_key(i as nat),
        table_entries(tables)[3 * i + 1] == tables[i],
        table_entries(tables)[3 * i + 2] == comma(),
    decreases tables.len(),
{
    let front = tables.drop_last();
    let n = tables.len() - 1;
    let fe = table_entries(front);
    let e = table_entries(tables);
    lemma_table_entries_len(front);
    assert(e == fe + seq![table_key(n as nat), tables.last(), comma()]);
    if i < n {
        lemma_table_entry(front, i);
        assert(e[3 * i] == fe[3 * i]);
        assert(e[3 * i + 1] == fe[3 * i + 1]);
        assert(e[3 * i + 2] == fe[3 * i + 2]);
    }
}

/// The body listing `n` tables names every one of them: with no table it
/// is the opening and the closing; otherwise it is `3n + 1` pieces, the
/// opening, then for each table `i` in order its key `"<i>":` and its
/// text, with a comma after every table but the last, then the closing.
pub proof fn lemma_all_tables_listing(tables: Seq<Seq<char>>)
    ensures
        tables.len() == 0 ==> all_tables_chunks_spec(tables) == seq![
            tables_open(),
            tables_close(),
        ],
        tables.len() > 0 ==> {
            let c = all_tables_chunks_spec(tables);
            let n = tables.len() as int;
            &&& c.len() == 3 * n + 1
            &&& c[0] == tables_open()
            &&& c[3 * n] == tables_close()
            &&& forall|i: int|
                0 <= i < n ==> c[3 * i + 1] == (seq!['"'] + #[trigger] decimal(i as nat)).push(
                    '"',
                ).push(':')
            &&& forall|i: int| 0 <= i < n ==> c[3 * i + 2] == #[trigger] tables[i]
            &&& forall|i: int| 0 <= i < n - 1 ==> #[trigger] c[3 * i + 3] == seq![',']
        },
{
    lemma_table_entries_len(tables);
    if tables.len() > 0 {
        let c = all_tables_chunks_spec(tables);
        let e = table_entries(tables);
        let n = tables.len() as int;
        assert forall|i: int| 0 <= i < n implies c[3 * i + 1] == (seq!['"'] + #[trigger] decimal(
            i as nat,
        )).push('"').push(':') && c[3 * i + 2] == tables[i] && (i < n - 1 ==> c[3 * i + 3]
            == seq![',']) by {
            lemma_table_entry(tables, i);
            assert(table_key(i as nat) =~= (seq!['"'] + decimal(i as nat)).push('"').push(':'));
            assert(c[3 * i + 1] == e[3 * i]);
            assert(c[3 * i + 2] == e[3 * i + 1]);
            if i < n - 1 {
                assert(c[3 * i + 3] == e[3 * i + 2]);
            }
        }
        assert forall|i: int| 0 <= i < n implies c[3 * i + 2] == #[trigger] tables[i] by {
            assert(decimal(i as nat) == decimal(i as nat));
        }
        assert forall|i: int| 0 <= i < n - 1 implies #[trigger] c[3 * i + 3] == seq![','] by {
            assert(decimal(i as nat) == decimal(i as nat));
        }
    }
}

/// The pieces of the body listing every table, where `tables[i]` is the
/// text of table `i`'s orders.
pub fn all_tables_chunks(tables: &Vec<String>) -> (r: Vec<String>)
    ensures
        chars_of(r@) == all_tables_chunks_spec(chars_of(tables@)),
{
    let ghost ts = chars_of(tables@);
    let mut chunks: Vec<String> = Vec::new();
    chunks.push(tables_open_text());
    assert(chars_of(chunks@) =~= seq![tables_open()] + table_entries(ts.take(0)));
    let mut i: usize = 0;
    while i < tables.len()
        invariant
            i <= tables@.len(),
            ts == chars_of(tables@),
            chars_of(chunks@) == seq![tables_open()] + table_entries(ts.take(i as int)),
        decreases tables@.len() - i,
    {
        let ghost prev = chars_of(chunks@);
        let key = table_key_text(i);
        let ghost k = key@;
        chunks.push(key);
        chunks.push(tables[i].clone());
        chunks.push(comma_text());
        assert(chars_of(chunks@) =~= prev + seq![k, ts[i as int], comma()]);
        i = i + 1;
        assert(ts.take(i as int).drop_last() =~= ts.take(i - 1));
        assert(chars_of(chunks@) =~= seq![tables_open()] + table_entries(ts.take(i as int)));
    }
    assert(ts.take(tables@.len() as int) =~= ts);
    if tables.len() > 0 {
        proof {
            lemma_table_entries_len(ts);
        }
        let ghost prev = chars_of(chunks@);
        chunks.pop();
        assert(chars_of(chunks@) =~= prev.drop_last());
        assert(chars_of(chunks@) =~= seq![tables_open()] + table_entries(ts).drop_last());
    }
    let ghost prev = chars_of(chunks@);
    chunks.push(tables_close_text());
    assert(chars_of(chunks@) =~= prev.push(tables_close()));
    proof {
        if ts.len() == 0 {
            assert(table_entries(ts) =~= Seq::<Seq<char>>::empty());
        }
    }
    assert(chars_of(chunks@) =~= all_tables_chunks_spec(ts));
    chunks
}

} // verus!
