//! What the service does with a request, decided from its method and target.

use vstd::prelude::*;
use crate::decimal::{all_digits, digits_value, is_digit, parse_usize, parse_usize_spec, unsigned_digits};
use crate::grammar::{
    choose_unique, download_file_captures, download_match, matches_table, no_newline, opt_chars,
    starts_with_table, table_num_captures, table_num_match, table_path_form, table_slash,
    table_word, index_html, button_js,
};

verus! {

/// The handling chosen for a request.
#[derive(Debug)]
pub enum Route {
    /// Stream the file at this path (`client/` and the requested name).
    ServeFile(String),
    /// Refuse a target that is neither a table path nor a client file.
    Forbidden,
    /// Send the orders of one table.
    GetTable(usize),
    /// Send the orders of every table.
    GetAllTables,
    /// Answer "not implemented", sending the request's body back.
    EchoPost,
    /// Add the orders in the request's body to a table.
    PostTable(usize),
    /// Remove an order, named by the text after the table number, from a table.
    DeleteItem(usize, String),
    /// Answer "not implemented".
    NotImplemented,
}

/// A `Route` with its texts as character sequences.
pub enum RouteView {
    ServeFile(Seq<char>),
    Forbidden,
    GetTable(usize),
    GetAllTables,
    EchoPost,
    PostTable(usize),
    DeleteItem(usize, Seq<char>),
    NotImplemented,
}

impl View for Route {
    type V = RouteView;

    open spec fn view(&self) -> RouteView {
        match self {
            Route::ServeFile(f) => RouteView::ServeFile(f@),
            Route::Forbidden => RouteView::Forbidden,
            Route::GetTable(t) => RouteView::GetTable(*t),
            Route::GetAllTables => RouteView::GetAllTables,
            Route::EchoPost => RouteView::EchoPost,
            Route::PostTable(t) => RouteView::PostTable(*t),
            Route::DeleteItem(t, p) => RouteView::DeleteItem(*t, p@),
            Route::NotImplemented => RouteView::NotImplemented,
        }
    }
}

/// `client/`, the directory that client files are served from.
pub open spec fn client_dir() -> Seq<char> {
    seq!['c', 'l', 'i', 'e', 'n', 't', '/']
}

/// The file route for a target that is not a table target.
pub open spec fn serve_file_spec(u: Seq<char>) -> RouteView {
    match download_match(u) {
        Some(f) => RouteView::ServeFile(client_dir() + f),
        None => RouteView::Forbidden,
    }
}

/// The table number of a table path fits in a `usize` (trivially true of a
/// target that is no table path).
pub open spec fn table_number_parses(u: Seq<char>) -> bool {
    match table_num_match(u) {
        Some((d, _)) => parse_usize_spec(d) is Some,
        None => true,
    }
}

/// The table number of a table target, if it is a table path.
pub open spec fn route_table(u: Seq<char>) -> Option<usize> {
    match table_num_match(u) {
        Some((d, _)) => parse_usize_spec(d),
        None => None,
    }
}

/// The text after the table number's `/`, if there is one.
pub open spec fn route_path(u: Seq<char>) -> Option<Seq<char>> {
    match table_num_match(u) {
        Some((_, r)) => r,
        None => None,
    }
}

/// The handling of method `m` on target `u`: targets outside `/table` are
/// files; under `/table`, GET reads a table or all of them, POST adds to a
/// table named with or without a trailing `/` (or, without a table, is not
/// implemented), DELETE removes an order, and everything else is not
/// implemented.
pub open spec fn route_spec(m: Seq<char>, u: Seq<char>) -> RouteView {
    if !starts_with_table(u) {
        serve_file_spec(u)
    } else {
        let table = route_table(u);
        let path = route_path(u);
        if m == seq!['G', 'E', 'T'] && table is Some && path is None {
            RouteView::GetTable(table->0)
        } else if m == seq!['G', 'E', 'T'] && table is None && path is None {
            RouteView::GetAllTables
        } else if m == seq!['P', 'O', 'S', 'T'] && table is None && path is None {
            RouteView::EchoPost
        } else if m == seq!['P', 'O', 'S', 'T'] && table is Some && (path is None || path
            == Some(Seq::<char>::empty())) {
            RouteView::PostTable(table->0)
        } else if m == seq!['D', 'E', 'L', 'E', 'T', 'E'] && table is Some && path is Some {
            RouteView::DeleteItem(table->0, path->0)
        } else {
            RouteView::NotImplemented
        }
    }
}

/// Whether the two strings are equal.
fn str_eq(a: &str, b: &str) -> (r: bool)
    ensures
        r == (a@ == b@),
{
    let n = a.unicode_len();
    let m = b.unicode_len();
    if n != m {
        return false;
    }
    let mut i: usize = 0;
    while i < n
        invariant
            n == a@.len(),
            m == b@.len(),
            n == m,
            i <= n,
            forall|j: int| 0 <= j < i ==> a@[j] == b@[j],
        decreases n - i,
    {
        if a.get_char(i) != b.get_char(i) {
            return false;
        }
        i = i + 1;
    }
    assert(a@ =~= b@);
    true
}

/// The route for a target that is not a table target: a client file, or a
/// refusal.
pub fn serve_file(path: &str) -> (r: Route)
    ensures
        r@ == serve_file_spec(path@),
{
    match download_file_captures(path) {
        Some(name) => {
            proof {
                reveal_strlit("client/");
                assert("client/"@ =~= client_dir());
            }
            let dir = String::from_str("client/");
            Route::ServeFile(dir.concat(name.as_str()))
        },
        None => Route::Forbidden,
    }
}

/// Decides how to handle a request with method `method` and target `uri`.
///
/// The target is ASCII, as every request target is, and a table number in
/// it fits in a `usize`.
pub fn route(method: &str, uri: &str) -> (r: Route)
    requires
        uri.is_ascii(),
        table_number_parses(uri@),
    ensures
        r@ == route_spec(method@, uri@),
{
    if !matches_table(uri) {
        return serve_file(uri);
    }
    let mut table: Option<usize> = None;
    let mut path: Option<String> = None;
    match table_num_captures(uri) {
        Some(c) => {
            let t = parse_usize(c.table.as_str());
            match t {
                Some(v) => {
                    table = Some(v);
                },
                None => {
                    assert(false);
                },
            }
            path = c.arg;
        },
        None => {},
    }
    assert(table == route_table(uri@));
    assert(opt_chars(path) == route_path(uri@));
    proof {
        reveal_strlit("GET");
        reveal_strlit("POST");
        reveal_strlit("DELETE");
        assert("GET"@ =~= seq!['G', 'E', 'T']);
        assert("POST"@ =~= seq!['P', 'O', 'S', 'T']);
        assert("DELETE"@ =~= seq!['D', 'E', 'L', 'E', 'T', 'E']);
    }
    let is_get = str_eq(method, "GET");
    let is_post = str_eq(method, "POST");
    let is_delete = str_eq(method, "DELETE");
    match (table, path) {
        (Some(t), None) => {
            if is_get {
                Route::GetTable(t)
            } else if is_post {
                Route::PostTable(t)
            } else {
                Route::NotImplemented
            }
        },
        (None, None) => {
            if is_get {
                Route::GetAllTables
            } else if is_post {
                Route::EchoPost
            } else {
                Route::NotImplemented
            }
        },
        (Some(t), Some(p)) => {
            if is_delete {
                Route::DeleteItem(t, p)
            } else if is_post && p.as_str().is_empty() {
                assert(p@ =~= Seq::<char>::empty());
                Route::PostTable(t)
            } else {
                Route::NotImplemented
            }
        },
        (None, Some(_)) => Route::NotImplemented,
    }
}

/// Decides how to handle a request, or gives `None` where no handling is
/// defined: a target that is not ASCII, or a table number too large for a
/// `usize`.
pub fn checked_route(method: &str, uri: &str) -> (r: Option<Route>)
    ensures
        r is None <==> !(uri.is_ascii() && table_number_parses(uri@)),
        r matches Some(x) ==> x@ == route_spec(method@, uri@),
{
    if !uri.is_ascii() {
        return None;
    }
    let fits = match table_num_captures(uri) {
        Some(c) => parse_usize(c.table.as_str()).is_some(),
        None => true,
    };
    if fits {
        Some(route(method, uri))
    } else {
        None
    }
}

/// The table path `/table/<d>` with the optional rest `r`.
proof fn lemma_table_target(d: Seq<char>, r: Option<Seq<char>>)
    requires
        d.len() > 0,
        all_digits(d),
        digits_value(d) <= usize::MAX,
        r matches Some(p) ==> no_newline(p),
    ensures
        ({
            let u = match r {
                None => table_slash() + d,
                Some(p) => table_slash() + d + seq!['/'] + p,
            };
            &&& starts_with_table(u)
            &&& route_table(u) == Some(digits_value(d) as usize)
            &&& route_path(u) == r
        }),
{
    let u = match r {
        None => table_slash() + d,
        Some(p) => table_slash() + d + seq!['/'] + p,
    };
    assert(table_path_form(u, d, r));
    choose_unique(u, d, r);
    assert(u.take(6) =~= table_word());
    assert(is_digit(d[0]));
    assert(unsigned_digits(d) == d);
}

/// Requests on the table path of a number `t` (the digits `d`): GET
/// `/table/<d>` reads table `t`; POST `/table/<d>` or `/table/<d>/` adds
/// orders to table `t`; DELETE `/table/<d>/<p>` removes the order named by
/// the whole text `p` from table `t`, whatever `t` and `p` are.
pub proof fn lemma_route_table_requests(d: Seq<char>, p: Seq<char>)
    requires
        d.len() > 0,
        all_digits(d),
        digits_value(d) <= usize::MAX,
        no_newline(p),
    ensures
        route_spec(seq!['G', 'E', 'T'], table_slash() + d) == RouteView::GetTable(
            digits_value(d) as usize,
        ),
        route_spec(seq!['P', 'O', 'S', 'T'], table_slash() + d) == RouteView::PostTable(
            digits_value(d) as usize,
        ),
        route_spec(seq!['P', 'O', 'S', 'T'], table_slash() + d + seq!['/']) == RouteView::PostTable(
            digits_value(d) as usize,
        ),
        route_spec(seq!['D', 'E', 'L', 'E', 'T', 'E'], table_slash() + d + seq!['/'] + p)
            == RouteView::DeleteItem(digits_value(d) as usize, p),
{
    lemma_table_target(d, None);
    lemma_table_target(d, Some(p));
    let e = Seq::<char>::empty();
    assert(no_newline(e));
    lemma_table_target(d, Some(e));
    assert(table_slash() + d + seq!['/'] + e =~= table_slash() + d + seq!['/']);
    assert(seq!['G', 'E', 'T'] != seq!['P', 'O', 'S', 'T']) by {
        assert(seq!['G', 'E', 'T'].len() != seq!['P', 'O', 'S', 'T'].len());
    }
    assert(seq!['D', 'E', 'L', 'E', 'T', 'E'] != seq!['G', 'E', 'T']) by {
        assert(seq!['D', 'E', 'L', 'E', 'T', 'E'].len() != seq!['G', 'E', 'T'].len());
    }
    assert(seq!['D', 'E', 'L', 'E', 'T', 'E'] != seq!['P', 'O', 'S', 'T']) by {
        assert(seq!['D', 'E', 'L', 'E', 'T', 'E'].len() != seq!['P', 'O', 'S', 'T'].len());
    }
}

/// A target outside `/table` is a file request: `/index.html` and
/// `/button.js` are served from `client/`, whatever the method, and every
/// other such target is refused.
pub proof fn lemma_route_files(m: Seq<char>, u: Seq<char>)
    requires
        !(u.len() >= 6 && u.take(6) == table_word()),
    ensures
        u == seq!['/'] + index_html() ==> route_spec(m, u) == RouteView::ServeFile(
            client_dir() + index_html(),
        ),
        u == seq!['/'] + button_js() ==> route_spec(m, u) == RouteView::ServeFile(
            client_dir() + button_js(),
        ),
        u != seq!['/'] + index_html() && u != seq!['/'] + button_js() ==> route_spec(m, u)
            == RouteView::Forbidden,
{
    if u.len() > 0 && u[0] == '/' {
        assert(u =~= seq!['/'] + u.drop_first());
        if u == seq!['/'] + index_html() {
            assert(u.drop_first() =~= index_html());
        }
        if u == seq!['/'] + button_js() {
            assert(u.drop_first() =~= button_js());
        }
    }
}

/// `/table` and `/table/`, with no table number: GET lists every table,
/// POST is answered "not implemented" with the body sent back.
pub proof fn lemma_route_no_table(u: Seq<char>)
    requires
        u == table_word() || u == table_slash(),
    ensures
        route_spec(seq!['G', 'E', 'T'], u) == RouteView::GetAllTables,
        route_spec(seq!['P', 'O', 'S', 'T'], u) == RouteView::EchoPost,
{
    assert(u.take(6) =~= table_word());
    assert forall|d: Seq<char>, r: Option<Seq<char>>| !table_path_form(u, d, r) by {
        if table_path_form(u, d, r) {
            match r {
                None => assert((table_slash() + d).len() > u.len()),
                Some(p) => assert((table_slash() + d + seq!['/'] + p).len() > u.len()),
            }
        }
    }
    assert(seq!['G', 'E', 'T'] != seq!['P', 'O', 'S', 'T']) by {
        assert(seq!['G', 'E', 'T'].len() != seq!['P', 'O', 'S', 'T'].len());
    }
}

} // verus!
