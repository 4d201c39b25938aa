//! The request targets that the service recognises, stated as grammars over
//! characters: table paths (`/table/<digits>` with an optional `/<rest>`),
//! the `/table` prefix, and the two client files.
//!
//! Digits are the ASCII digits `0` to `9`; in the rest of a table path,
//! "any character" is any character
//! but a line feed.

use vstd::prelude::*;
use crate::decimal::{all_digits, is_digit};

verus! {

/// `/table`
pub open spec fn table_word() -> Seq<char> {
    seq!['/', 't', 'a', 'b', 'l', 'e']
}

/// `/table/`
pub open spec fn table_slash() -> Seq<char> {
    table_word().push('/')
}

/// No character of `s` is a line feed.
pub open spec fn no_newline(s: Seq<char>) -> bool {
    forall|i: int| 0 <= i < s.len() ==> #[trigger] s[i] != '\n'
}

/// `u` is `/table/` followed by the digits `d` and, when `r` is `Some(rest)`,
/// by `/` and `rest`, a run of characters without a line feed.
pub open spec fn table_path_form(u: Seq<char>, d: Seq<char>, r: Option<Seq<char>>) -> bool {
    &&& d.len() > 0
    &&& all_digits(d)
    &&& match r {
        None => u == table_slash() + d,
        Some(rest) => no_newline(rest) && u == table_slash() + d + seq!['/'] + rest,
    }
}

/// The table number's digits and the optional rest of a table path, when
/// `u` is one. At most one decomposition exists
/// (see `lemma_table_path_unique`).
pub open spec fn table_num_match(u: Seq<char>) -> Option<(Seq<char>, Option<Seq<char>>)> {
    if exists|d: Seq<char>, r: Option<Seq<char>>| table_path_form(u, d, r) {
        Some(choose|d: Seq<char>, r: Option<Seq<char>>| table_path_form(u, d, r))
    } else {
        None
    }
}

/// `u` begins with `/table`.
pub open spec fn starts_with_table(u: Seq<char>) -> bool {
    u.len() >= 6 && u.take(6) == table_word()
}

/// `index.html`
pub open spec fn index_html() -> Seq<char> {
    seq!['i', 'n', 'd', 'e', 'x', '.', 'h', 't', 'm', 'l']
}

/// `button.js`
pub open spec fn button_js() -> Seq<char> {
    seq!['b', 'u', 't', 't', 'o', 'n', '.', 'j', 's']
}

/// `f` is one of the two client files, `index.html` or `button.js`.
pub open spec fn is_download_name(f: Seq<char>) -> bool {
    f == index_html() || f == button_js()
}

/// The client file named by `u` when `u` is `/` followed by a download name.
pub open spec fn download_match(u: Seq<char>) -> Option<Seq<char>> {
    if u.len() > 0 && u[0] == '/' && is_download_name(u.drop_first()) {
        Some(u.drop_first())
    } else {
        None
    }
}

/// What a table path looks like once it is known to be one.
proof fn lemma_table_path_shape(u: Seq<char>, d: Seq<char>, r: Option<Seq<char>>)
    requires
        table_path_form(u, d, r),
    ensures
        u.len() >= 7 + d.len(),
        u.take(7) == table_slash(),
        u.subrange(7, 7 + d.len() as int) == d,
        forall|j: int| 7 <= j < 7 + d.len() ==> #[trigger] is_digit(u[j]),
        r is None <==> u.len() == 7 + d.len(),
        r is Some ==> u[7 + d.len() as int] == '/' && r->0 == u.skip(8 + d.len() as int) && no_newline(r->0),
{
    let p = table_slash();
    match r {
        None => {
            assert(u.take(7) =~= p);
            assert(u.subrange(7, 7 + d.len() as int) =~= d);
            assert forall|j: int| 7 <= j < 7 + d.len() implies #[trigger] is_digit(u[j]) by {
                assert(u[j] == d[j - 7]);
            }
        },
        Some(rest) => {
            assert(u.take(7) =~= p);
            assert(u.subrange(7, 7 + d.len() as int) =~= d);
            assert forall|j: int| 7 <= j < 7 + d.len() implies #[trigger] is_digit(u[j]) by {
                assert(u[j] == d[j - 7]);
            }
            assert(u[7 + d.len() as int] == '/');
            assert(u.skip(8 + d.len() as int) =~= rest);
        },
    }
}

/// A target is a table path in at most one way.
pub proof fn lemma_table_path_unique(
    u: Seq<char>,
    d1: Seq<char>,
    r1: Option<Seq<char>>,
    d2: Seq<char>,
    r2: Option<Seq<char>>,
)
    requires
        table_path_form(u, d1, r1),
        table_path_form(u, d2, r2),
    ensures
        d1 == d2,
        r1 == r2,
{
    lemma_table_path_shape(u, d1, r1);
    lemma_table_path_shape(u, d2, r2);
    if d1.len() < d2.len() {
        assert(is_digit(u[7 + d1.len() as int]));
    } else if d2.len() < d1.len() {
        assert(is_digit(u[7 + d2.len() as int]));
    }
    assert(d1 =~= d2);
}

/// Whether `s` begins with `p`.
fn starts_with_str(s: &str, p: &str) -> (b: bool)
    ensures
        b == (p@.len() <= s@.len() && s@.take(p@.len() as int) == p@),
{
    let n = s.unicode_len();
    let m = p.unicode_len();
    if m > n {
        return false;
    }
    let mut i: usize = 0;
    while i < m
        invariant
            n == s@.len(),
            m == p@.len(),
            m <= n,
            i <= m,
            forall|j: int| 0 <= j < i ==> s@[j] == p@[j],
        decreases m - i,
    {
        if s.get_char(i) != p.get_char(i) {
            assert(s@.take(m as int)[i as int] != p@[i as int]);
            return false;
        }
        i = i + 1;
    }
    assert(s@.take(m as int) =~= p@);
    true
}

/// Whether no character of `s` from position `from` on is a line feed.
fn no_newline_from(s: &str, from: usize) -> (b: bool)
    requires
        from <= s@.len(),
    ensures
        b == no_newline(s@.skip(from as int)),
{
    let n = s.unicode_len();
    let mut i: usize = from;
    while i < n
        invariant
            n == s@.len(),
            from <= i <= n,
            forall|j: int| from <= j < i ==> s@[j] != '\n',
        decreases n - i,
    {
        if s.get_char(i) == '\n' {
            assert(s@.skip(from as int)[i - from] == '\n');
            return false;
        }
        i = i + 1;
    }
    assert forall|j: int| 0 <= j < s@.skip(from as int).len() implies #[trigger] s@.skip(
        from as int,
    )[j] != '\n' by {
        assert(s@.skip(from as int)[j] == s@[from + j]);
    }
    true
}

/// Whether `uri` begins with `/table` (the pattern `^/table/?`).
pub fn matches_table(uri: &str) -> (b: bool)
    ensures
        b == starts_with_table(uri@),
{
    proof {
        reveal_strlit("/table");
        assert("/table"@ =~= table_word());
    }
    starts_with_str(uri, "/table")
}

/// The groups of a table path (the pattern `^/table/(\d+)(/(.*))?$`).
#[derive(Debug)]
pub struct TableNumCaptures {
    /// Group 0: the whole target.
    pub whole: String,
    /// Group 1: the table number's digits.
    pub table: String,
    /// Group 3: what follows the `/` after the digits, when there is a `/`.
    pub arg: Option<String>,
}

/// The characters of an optional string.
pub open spec fn opt_chars(o: Option<String>) -> Option<Seq<char>> {
    match o {
        Some(s) => Some(s@),
        None => None,
    }
}

impl TableNumCaptures {
    /// The text of group `i`: 0 the whole target, 1 the digits, 2 the `/`
    /// and what follows it, 3 what follows the `/`.
    pub fn get(&self, i: usize) -> (g: Option<String>)
        ensures
            i == 0 ==> opt_chars(g) == Some(self.whole@),
            i == 1 ==> opt_chars(g) == Some(self.table@),
            i == 2 ==> opt_chars(g) == match opt_chars(self.arg) {
                Some(a) => Some(seq!['/'] + a),
                None => None::<Seq<char>>,
            },
            i == 3 ==> opt_chars(g) == opt_chars(self.arg),
            i > 3 ==> g is None,
    {
        if i == 0 {
            Some(self.whole.clone())
        } else if i == 1 {
            Some(self.table.clone())
        } else if i == 2 {
            match &self.arg {
                Some(a) => {
                    proof {
                        reveal_strlit("/");
                    }
                    let s = String::from_str("/");
                    Some(s.concat(a.as_str()))
                },
                None => None,
            }
        } else if i == 3 {
            match &self.arg {
                Some(a) => Some(a.clone()),
                None => None,
            }
        } else {
            None
        }
    }
}

/// Matches `uri` against the table path grammar and gives its groups.
pub fn table_num_captures(uri: &str) -> (r: Option<TableNumCaptures>)
    ensures
        match r {
            None => table_num_match(uri@) is None,
            Some(c) => c.whole@ == uri@ && table_num_match(uri@) == Some((c.table@, opt_chars(c.arg))),
        },
{
    let ghost u = uri@;
    let n = uri.unicode_len();
    proof {
        reveal_strlit("/table/");
        assert("/table/"@ =~= table_slash());
    }
    if n < 8 || !starts_with_str(uri, "/table/") {
        assert forall|d: Seq<char>, r: Option<Seq<char>>| !table_path_form(u, d, r) by {
            if table_path_form(u, d, r) {
                lemma_table_path_shape(u, d, r);
            }
        }
        return None;
    }
    assert(u.take(7) =~= table_slash());
    let mut i: usize = 7;
    while i < n
        invariant
            n == u.len(),
            u == uri@,
            7 <= i <= n,
            forall|j: int| 7 <= j < i ==> #[trigger] is_digit(u[j]),
        ensures
            i == n || !is_digit(u[i as int]),
        decreases n - i,
    {
        let c = uri.get_char(i);
        if !('0' <= c && c <= '9') {
            break;
        }
        i = i + 1;
    }
    // Every table path has its digits exactly where the scan stopped.
    assert forall|d: Seq<char>, r: Option<Seq<char>>| table_path_form(u, d, r) implies d.len()
        == i - 7 by {
        lemma_table_path_shape(u, d, r);
        if d.len() < i - 7 {
            assert(is_digit(u[7 + d.len() as int]));
        } else if d.len() > i - 7 {
            assert(is_digit(u[i as int]));
        }
    }
    if i == 7 {
        assert forall|d: Seq<char>, r: Option<Seq<char>>| !table_path_form(u, d, r) by {
            if table_path_form(u, d, r) {
                lemma_table_path_shape(u, d, r);
            }
        }
        return None;
    }
    let digits = uri.substring_char(7, i);
    let ghost d0 = digits@;
    assert(all_digits(d0)) by {
        assert forall|j: int| 0 <= j < d0.len() implies #[trigger] is_digit(d0[j]) by {
            assert(d0[j] == u[7 + j]);
        }
    }
    if i == n {
        assert(table_path_form(u, d0, None)) by {
            assert(u =~= table_slash() + d0);
        }
        proof {
            choose_unique(u, d0, None);
        }
        return Some(
            TableNumCaptures {
                whole: String::from_str(uri),
                table: String::from_str(digits),
                arg: None,
            },
        );
    }
    if uri.get_char(i) != '/' {
        assert forall|d: Seq<char>, r: Option<Seq<char>>| !table_path_form(u, d, r) by {
            if table_path_form(u, d, r) {
                lemma_table_path_shape(u, d, r);
            }
        }
        return None;
    }
    if !no_newline_from(uri, i + 1) {
        assert forall|d: Seq<char>, r: Option<Seq<char>>| !table_path_form(u, d, r) by {
            if table_path_form(u, d, r) {
                lemma_table_path_shape(u, d, r);
            }
        }
        return None;
    }
    let rest = uri.substring_char(i + 1, n);
    assert(rest@ =~= u.skip(i + 1));
    assert(table_path_form(u, d0, Some(rest@))) by {
        assert(u =~= table_slash() + d0 + seq!['/'] + rest@);
    }
    proof {
        choose_unique(u, d0, Some(rest@));
    }
    Some(
        TableNumCaptures {
            whole: String::from_str(uri),
            table: String::from_str(digits),
            arg: Some(String::from_str(rest)),
        },
    )
}

/// Once one decomposition of a table path is known, it is the one chosen.
pub proof fn choose_unique(u: Seq<char>, d: Seq<char>, r: Option<Seq<char>>)
    requires
        table_path_form(u, d, r),
    ensures
        table_num_match(u) == Some((d, r)),
{
    let (d1, r1) = choose|d1: Seq<char>, r1: Option<Seq<char>>| table_path_form(u, d1, r1);
    lemma_table_path_unique(u, d, r, d1, r1);
}

/// Whether `p` occurs in `s` at position `from`.
fn occurs_at(s: &str, from: usize, p: &str) -> (b: bool)
    ensures
        b == (from + p@.len() <= s@.len() && s@.subrange(from as int, from + p@.len()) == p@),
{
    let n = s.unicode_len();
    let m = p.unicode_len();
    if from > n || m > n - from {
        return false;
    }
    let mut i: usize = 0;
    while i < m
        invariant
            n == s@.len(),
            m == p@.len(),
            from + m <= n,
            i <= m,
            forall|j: int| 0 <= j < i ==> s@[from + j] == p@[j],
        decreases m - i,
    {
        if s.get_char(from + i) != p.get_char(i) {
            assert(s@.subrange(from as int, from + m)[i as int] != p@[i as int]);
            return false;
        }
        i = i + 1;
    }
    assert(s@.subrange(from as int, from + m) =~= p@);
    true
}

/// The client file named by `path`, when `path` is `/index.html` or
/// `/button.js`: the name without its leading `/`.
pub fn download_file_captures(path: &str) -> (r: Option<String>)
    ensures
        opt_chars(r) == download_match(path@),
{
    let ghost u = path@;
    let n = path.unicode_len();
    if n == 0 || path.get_char(0) != '/' {
        return None;
    }
    let ghost f = u.drop_first();
    proof {
        reveal_strlit("index.html");
        reveal_strlit("button.js");
        assert("index.html"@ =~= index_html());
        assert("button.js"@ =~= button_js());
    }
    let found = if n == 11 {
        let a = occurs_at(path, 1, "index.html");
        assert(f =~= u.subrange(1, 11));
        a
    } else if n == 10 {
        let a = occurs_at(path, 1, "button.js");
        assert(f =~= u.subrange(1, 10));
        a
    } else {
        false
    };
    if found {
        let name = path.substring_char(1, n);
        assert(name@ =~= f);
        Some(String::from_str(name))
    } else {
        None
    }
}

} // verus!
