use teketeke::decimal::{parse_usize, usize_to_decimal};
use teketeke::errors::{intoTeketekeError, other, teketeke_to_stdio_err, ApiResult, TeketekeError};
use teketeke::grammar::{download_file_captures, matches_table, table_num_captures};
use teketeke::replies::{
    all_tables_chunks, api_reply, forbidden_reply, not_implemented_reply, post_items_reply,
    post_table_reply, unallocated_table_reply, FORBIDDEN_FILE, NOT_IMPLEMENTED, UNKNOWN_ERROR,
};
use teketeke::routes::{checked_route, route, serve_file, Route};
use teketeke::store::{
    get_global_num, new_datastore, table_add_items, table_get_all, table_remove_item,
    table_store_new_items, Datastore, Record, States, TableRequest, TableRequestVec,
    ILLEGAL_NUMBER, NOTHING_MODIFIED, UNALLOCATED_READ, UNALLOCATED_WRITE,
};

fn req(name: &str, qty: i32, eta: u64) -> TableRequest {
    TableRequest { itemname: name.to_string(), qty, eta }
}

fn records(store: &Datastore, table: usize) -> Vec<Record> {
    match table_get_all(store, table) {
        ApiResult::Success(v) => v,
        ApiResult::Failure(code, msg) => panic!("{} {}", code, msg),
    }
}

fn ids(store: &Datastore, table: usize) -> Vec<usize> {
    records(store, table).iter().map(|r| r.id).collect()
}

// ---- numbers ----

#[test]
fn decimal_text_of_numbers() {
    assert_eq!(usize_to_decimal(0), "0");
    assert_eq!(usize_to_decimal(7), "7");
    assert_eq!(usize_to_decimal(10), "10");
    assert_eq!(usize_to_decimal(12345), "12345");
    assert_eq!(usize_to_decimal(usize::MAX), usize::MAX.to_string());
}

#[test]
fn parse_numbers_like_std() {
    for s in ["", "+", "-", "0", "7", "+7", "-7", "007", "12a", " 1", "1 ", "++1", "٣", "4294967296"] {
        assert_eq!(parse_usize(s), s.parse::<usize>().ok(), "input {:?}", s);
    }
    let max = usize::MAX.to_string();
    assert_eq!(parse_usize(&max), Some(usize::MAX));
    let over = format!("{}0", max);
    assert_eq!(parse_usize(&over), None);
}

#[test]
fn decimal_text_reads_back() {
    for n in [0usize, 1, 9, 10, 99, 100, 65535, usize::MAX] {
        assert_eq!(parse_usize(&usize_to_decimal(n)), Some(n));
    }
}

// ---- grammar ----

#[test]
fn table_captures_groups() {
    let c = table_num_captures("/table/12/item/3").unwrap();
    assert_eq!(c.get(0).as_deref(), Some("/table/12/item/3"));
    assert_eq!(c.get(1).as_deref(), Some("12"));
    assert_eq!(c.get(2).as_deref(), Some("/item/3"));
    assert_eq!(c.get(3).as_deref(), Some("item/3"));
    assert_eq!(c.get(4), None);
    let c = table_num_captures("/table/5/").unwrap();
    assert_eq!(c.get(2).as_deref(), Some("/"));
    assert_eq!(c.get(3).as_deref(), Some(""));
    let c = table_num_captures("/table/5").unwrap();
    assert_eq!(c.get(2), None);
    assert_eq!(c.get(3), None);
}

#[test]
fn table_captures_reject() {
    for u in ["", "/table", "/table/", "/table/x", "/table/1x", "/tables/1", "/table/1/a\nb", "x/table/1"] {
        assert!(table_num_captures(u).is_none(), "input {:?}", u);
    }
}

#[test]
fn grammar_agrees_with_regex() {
    let table_num = regex::Regex::new(r"^/table/(\d+)(/(.*))?$").unwrap();
    let table = regex::Regex::new(r"^/table/?").unwrap();
    let download = regex::Regex::new(r"^/(index\.html|button\.js)$").unwrap();
    let inputs = [
        "", "/", "/table", "/table/", "/tables", "/table/0", "/table/100", "/table/100/open",
        "/table/100/", "/table/1/2/3", "/table/a", "/table/1a", "/table/1/\n", "/table/1\n",
        "/index.html", "/indexXhtml", "/index.htm", "/button.js", "/buttonxjs", "/button.jsx",
        "/index\nhtml", "/index/html", "index.html", "//index.html", "/TABLE/1", "/table//1", "/table/12/x?y=1",
    ];
    for u in inputs {
        let expected = table_num.captures(u).map(|m| {
            (
                m.get(1).unwrap().as_str().to_string(),
                m.get(2).map(|g| g.as_str().to_string()),
                m.get(3).map(|g| g.as_str().to_string()),
            )
        });
        let got = table_num_captures(u).map(|c| (c.get(1).unwrap(), c.get(2), c.get(3)));
        assert_eq!(got, expected, "table number pattern on {:?}", u);
        assert_eq!(matches_table(u), table.is_match(u), "table pattern on {:?}", u);
        let expected = download.captures(u).map(|m| m.get(1).unwrap().as_str().to_string());
        assert_eq!(download_file_captures(u), expected, "download pattern on {:?}", u);
    }
}

// ---- routes ----

#[test]
fn route_files() {
    assert!(matches!(route("GET", "/index.html"), Route::ServeFile(f) if f == "client/index.html"));
    assert!(matches!(route("GET", "/button.js"), Route::ServeFile(f) if f == "client/button.js"));
    assert!(matches!(route("POST", "/index.html"), Route::ServeFile(f) if f == "client/index.html"));
    assert!(matches!(route("GET", "/indexXhtml"), Route::Forbidden));
    assert!(matches!(route("GET", "/index/html"), Route::Forbidden));
    assert!(matches!(route("GET", "/buttonxjs"), Route::Forbidden));
    assert!(matches!(route("GET", "/index.html/"), Route::Forbidden));
    assert!(matches!(route("GET", "/secret.txt"), Route::Forbidden));
    assert!(matches!(route("GET", "/"), Route::Forbidden));
    assert!(matches!(serve_file("/index.html"), Route::ServeFile(f) if f == "client/index.html"));
    assert!(matches!(serve_file("/etc/passwd"), Route::Forbidden));
}

#[test]
fn route_tables() {
    assert!(matches!(route("GET", "/table/3"), Route::GetTable(3)));
    assert!(matches!(route("GET", "/table"), Route::GetAllTables));
    assert!(matches!(route("GET", "/table/"), Route::GetAllTables));
    assert!(matches!(route("GET", "/tables"), Route::GetAllTables));
    assert!(matches!(route("GET", "/table/abc"), Route::GetAllTables));
    assert!(matches!(route("POST", "/table/"), Route::EchoPost));
    assert!(matches!(route("POST", "/table/5"), Route::PostTable(5)));
    assert!(matches!(route("POST", "/table/5/"), Route::PostTable(5)));
    assert!(matches!(route("POST", "/table/5/x"), Route::NotImplemented));
    assert!(matches!(route("DELETE", "/table/5/7"), Route::DeleteItem(5, p) if p == "7"));
    assert!(matches!(route("DELETE", "/table/5/"), Route::DeleteItem(5, p) if p.is_empty()));
    assert!(matches!(route("GET", "/table/5/7"), Route::NotImplemented));
    assert!(matches!(route("DELETE", "/table/5"), Route::NotImplemented));
    assert!(matches!(route("UPDATE", "/table/5/7"), Route::NotImplemented));
    assert!(matches!(route("PUT", "/table/5"), Route::NotImplemented));
    assert!(matches!(route("get", "/table/5"), Route::NotImplemented));
}

#[test]
fn checked_route_refuses_oversized_numbers() {
    assert!(checked_route("GET", "/table/99999999999999999999999").is_none());
    assert!(checked_route("GET", "/tablé").is_none());
    assert!(matches!(checked_route("GET", "/table/42"), Some(Route::GetTable(42))));
    assert!(matches!(checked_route("GET", "/missing"), Some(Route::Forbidden)));
}

// ---- store ----

#[test]
fn new_store_tables_are_empty() {
    let store = new_datastore(3);
    assert_eq!(store.len(), 3);
    for t in 0..3 {
        assert!(records(&store, t).is_empty());
    }
    assert!(matches!(table_get_all(&store, 3), ApiResult::Failure(418, m) if m == UNALLOCATED_READ));
}

#[test]
fn order_numbers_count_up() {
    let mut n: usize = 0;
    assert_eq!(get_global_num(&mut n), 1);
    assert_eq!(get_global_num(&mut n), 2);
    assert_eq!(n, 2);
}

#[test]
fn stored_items_become_pending_orders() {
    let mut store = new_datastore(4);
    let mut n: usize = 10;
    let count = table_store_new_items(&mut store, &mut n, 2, vec![req("Edamame", 3, 100), req("Sake", 1, 5)]);
    assert_eq!(count, 2);
    assert_eq!(n, 12);
    let recs = records(&store, 2);
    assert_eq!(recs.len(), 2);
    assert_eq!(recs[0].itemname, "Edamame");
    assert_eq!(recs[0].id, 11);
    assert_eq!(recs[0].qty, 3);
    assert_eq!(recs[0].eta, 100);
    assert_eq!(recs[0].state, States::PENDING);
    assert_eq!(recs[1].itemname, "Sake");
    assert_eq!(recs[1].id, 12);
    for t in [0, 1, 3] {
        assert!(records(&store, t).is_empty());
    }
    // a second request appends after the first, with fresh numbers
    table_store_new_items(&mut store, &mut n, 2, vec![req("Tofu", 2, 7)]);
    assert_eq!(ids(&store, 2), vec![11, 12, 13]);
}

#[test]
fn order_numbers_unique_across_tables() {
    let mut store = new_datastore(3);
    let mut n: usize = 0;
    table_store_new_items(&mut store, &mut n, 0, vec![req("a", 1, 1), req("b", 1, 1)]);
    table_store_new_items(&mut store, &mut n, 2, vec![req("c", 1, 1)]);
    table_store_new_items(&mut store, &mut n, 0, vec![req("d", 1, 1)]);
    let mut all: Vec<usize> = (0..3).flat_map(|t| ids(&store, t)).collect();
    all.sort();
    assert_eq!(all, vec![1, 2, 3, 4]);
}

#[test]
fn remove_item_by_number() {
    let mut store = new_datastore(2);
    let mut n: usize = 0;
    table_store_new_items(&mut store, &mut n, 1, vec![req("a", 1, 1), req("b", 1, 1), req("c", 1, 1)]);
    let r = table_remove_item(&mut store, 1, "2".to_string());
    assert!(matches!(r, ApiResult::Success(s) if s.is_empty()));
    assert_eq!(ids(&store, 1), vec![1, 3]);
    // an unknown number changes nothing
    let r = table_remove_item(&mut store, 1, "9".to_string());
    assert!(matches!(r, ApiResult::Success(s) if s.is_empty()));
    assert_eq!(ids(&store, 1), vec![1, 3]);
    // a leading plus is part of a number
    table_remove_item(&mut store, 1, "+3".to_string());
    assert_eq!(ids(&store, 1), vec![1]);
}

#[test]
fn remove_item_illegal_number() {
    let mut store = new_datastore(2);
    let mut n: usize = 0;
    table_store_new_items(&mut store, &mut n, 0, vec![req("a", 1, 1)]);
    for bad in ["", "x", "-1", "1/2"] {
        let r = table_remove_item(&mut store, 0, bad.to_string());
        assert!(matches!(r, ApiResult::Failure(503, m) if m == ILLEGAL_NUMBER), "input {:?}", bad);
    }
    assert_eq!(ids(&store, 0), vec![1]);
    // a text that is no number is refused whatever the table
    let r = table_remove_item(&mut store, 7, "x".to_string());
    assert!(matches!(r, ApiResult::Failure(503, m) if m == ILLEGAL_NUMBER));
}

#[test]
fn remove_undoes_add() {
    let mut store = new_datastore(2);
    let mut n: usize = 0;
    table_store_new_items(&mut store, &mut n, 0, vec![req("a", 1, 1), req("b", 2, 2)]);
    let before = ids(&store, 0);
    table_store_new_items(&mut store, &mut n, 0, vec![req("c", 3, 3)]);
    table_remove_item(&mut store, 0, n.to_string());
    assert_eq!(ids(&store, 0), before);
}

#[test]
fn add_items_outcomes() {
    let mut store = new_datastore(2);
    let mut n: usize = 0;
    let r = table_add_items(&mut store, &mut n, 0, Ok(TableRequestVec { tab: vec![] }));
    assert!(matches!(r, Err(TeketekeError::InternalError(m)) if m == NOTHING_MODIFIED));
    let r = table_add_items(&mut store, &mut n, 9, Err(other("bad body".to_string())));
    assert!(matches!(r, Err(TeketekeError::ExternalError(e)) if e.to_string() == "bad body"));
    assert_eq!(n, 0);
    let r = table_add_items(&mut store, &mut n, 1, Ok(TableRequestVec { tab: (0..12).map(|i| req("x", i, 1)).collect() }));
    assert!(matches!(r, Ok(s) if s == "12"));
    assert_eq!(records(&store, 1).len(), 12);
}

// ---- errors and replies ----

#[test]
fn errors_convert() {
    let e = other("boom".to_string());
    assert_eq!(e.kind(), std::io::ErrorKind::Other);
    assert_eq!(e.to_string(), "boom");
    let wrapped = intoTeketekeError(e);
    assert!(matches!(&wrapped, TeketekeError::ExternalError(_)));
    let back = teketeke_to_stdio_err(wrapped);
    assert_eq!(back.kind(), std::io::ErrorKind::Other);
    assert_eq!(back.to_string(), "boom");
    let internal = teketeke_to_stdio_err(TeketekeError::InternalError("Nothing modified".to_string()));
    assert_eq!(internal.kind(), std::io::ErrorKind::NotFound);
}

#[test]
fn replies_carry_status() {
    let r = forbidden_reply();
    assert_eq!((r.status, r.body.as_str()), (403, FORBIDDEN_FILE));
    let r = not_implemented_reply();
    assert_eq!((r.status, r.body.as_str()), (501, NOT_IMPLEMENTED));
    let r = unallocated_table_reply();
    assert_eq!((r.status, r.body.as_str()), (418, UNALLOCATED_WRITE));
    let r = api_reply(ApiResult::Success("".to_string()));
    assert_eq!((r.status, r.body.as_str()), (200, ""));
    let r = api_reply(ApiResult::Failure(503, "Illegal table number".to_string()));
    assert_eq!((r.status, r.body.as_str()), (503, "Illegal table number"));
    let r = post_items_reply::<std::io::Error>(Ok("2".to_string()));
    assert_eq!((r.status, r.body.as_str()), (200, "2"));
    let r = post_items_reply::<std::io::Error>(Err(TeketekeError::InternalError("Nothing modified".to_string())));
    assert_eq!((r.status, r.body.as_str()), (417, "Nothing modified"));
    let r = post_items_reply(Err(TeketekeError::ExternalError(other("x".to_string()))));
    assert_eq!((r.status, r.body.as_str()), (418, UNKNOWN_ERROR));
    let r = post_table_reply::<std::io::Error>(101, 101, None);
    assert_eq!((r.status, r.body.as_str()), (418, UNALLOCATED_WRITE));
    let r = post_table_reply::<std::io::Error>(101, 3, Some(Ok("2".to_string())));
    assert_eq!((r.status, r.body.as_str()), (200, "2"));
    let r = post_table_reply::<std::io::Error>(101, 3, Some(Err(TeketekeError::InternalError("Nothing modified".to_string()))));
    assert_eq!((r.status, r.body.as_str()), (417, "Nothing modified"));
}

#[test]
fn all_tables_body() {
    assert_eq!(all_tables_chunks(&vec![]), vec!["{\"tables\":{", "}}"]);
    let chunks = all_tables_chunks(&vec!["[]".to_string(), "[1]".to_string()]);
    assert_eq!(chunks, vec!["{\"tables\":{", "\"0\":", "[]", ",", "\"1\":", "[1]", "}}"]);
    let twelve: Vec<String> = (0..12).map(|_| "[]".to_string()).collect();
    let body = all_tables_chunks(&twelve).concat();
    assert!(body.starts_with("{\"tables\":{\"0\":[],\"1\":[]"));
    assert!(body.ends_with("\"10\":[],\"11\":[]}}"));
    let parsed: serde_json::Value = serde_json::from_str(&body).unwrap();
    assert_eq!(parsed["tables"].as_object().unwrap().len(), 12);
}
