use teketeke::errors::{other, ApiResult, TeketekeError};
use teketeke::grammar::table_num_captures;
use teketeke::store::{
    new_datastore, table_add_items, table_get_all, table_remove_item, table_store_new_items,
    TableRequest, TableRequestVec,
};

/// Reads a request body the way the service's JSON layer does: an object
/// with a `tab` list of items, each with `itemname`, `qty` and `eta`.
fn requests_from_json(body: &[u8]) -> Result<TableRequestVec, std::io::Error> {
    let value: serde_json::Value =
        serde_json::from_slice(body).map_err(|e| other(e.to_string()))?;
    let tab = value
        .get("tab")
        .and_then(|t| t.as_array())
        .ok_or_else(|| other("missing field `tab`".to_string()))?;
    let mut items = Vec::new();
    for item in tab {
        let itemname = item
            .get("itemname")
            .and_then(|v| v.as_str())
            .ok_or_else(|| other("missing field `itemname`".to_string()))?;
        let qty = item
            .get("qty")
            .and_then(|v| v.as_i64())
            .ok_or_else(|| other("missing field `qty`".to_string()))?;
        let eta = item
            .get("eta")
            .and_then(|v| v.as_u64())
            .ok_or_else(|| other("missing field `eta`".to_string()))?;
        items.push(TableRequest { itemname: itemname.to_string(), qty: qty as i32, eta });
    }
    Ok(TableRequestVec { tab: items })
}

#[test]
fn check_post_ans() {
    let mut store = new_datastore(101);
    let mut itemnum: usize = 0;

    let chunks = vec!["hello", " ", "world"];
    let body: Vec<u8> = chunks.concat().into_bytes();
    let table: usize = 1;
    let ans = table_add_items(&mut store, &mut itemnum, table, requests_from_json(&body));
    match ans {
        Err(TeketekeError::ExternalError(_)) => {}
        Ok(_) => assert!(false, "should have failed"),
        _ => assert!(false, "test case took unexpected path"),
    }

    let order = r#"{"tab":[{"itemname": "Edamame","qty" : 100 ,"eta":100 },{"itemname": "Nama biru","qty" : 5 ,"eta":200} ]}"#;
    let chunks = vec![order];
    let body: Vec<u8> = chunks.concat().into_bytes();
    let table: usize = 1;
    let ans = table_add_items(&mut store, &mut itemnum, table, requests_from_json(&body));
    match ans {
        Ok(x) => assert_eq!(x, 2.to_string()),
        Err(_) => assert!(false, "should not have failed"),
    }
}

#[test]
fn check_store_values() {
    let mut store = new_datastore(101);
    let mut itemnum: usize = 0;
    let mut v: Vec<TableRequest> = Vec::new();
    v.push(TableRequest { itemname: "Something".to_string(), qty: 1, eta: 100 });

    let before = match table_get_all(&store, 10) {
        ApiResult::Success(x) => x,
        _ => panic!(),
    };
    let storednum = table_store_new_items(&mut store, &mut itemnum, 10, v);
    assert_eq!(1, storednum);
    let after = match table_get_all(&store, 10) {
        ApiResult::Success(x) => x,
        _ => panic!(),
    };

    // Should be one more entry
    assert!(after.len() - before.len() == 1);
    table_remove_item(&mut store, 10, "1".to_string());

    let after = match table_get_all(&store, 10) {
        ApiResult::Success(x) => x,
        _ => panic!(),
    };
    assert_eq!(after.len(), before.len());
}

#[test]
fn check_regexp() {
    let ans = table_num_captures("/table/100");

    match ans {
        Some(m) => {
            assert_eq!(m.get(1).as_deref().map_or("Unknown", |m| m), "100");
        }
        _ => {
            assert!(false);
        }
    }
    match table_num_captures("/table/100/open") {
        Some(m) => {
            assert_eq!(m.get(1).as_deref().map_or("Unknown", |m| m), "100");
            assert_eq!(m.get(2).as_deref().map_or("Unknown", |m| m), "/open");
        }
        _ => {
            assert!(false);
        }
    }
}
