use unbrowser::json::{json_number, parse_json, print_json, Json};
use unbrowser::rpc::{
    added_value, body_result, build_error, call_response, code_of_failure, cookie_url, done_value,
    err_response, nav_scope, ok_response, parse_error_response, read_request, Call,
};

fn j(text: &str) -> Json {
    parse_json(text).unwrap()
}

fn call(method: &str, params: &str) -> String {
    match read_request(method, &j(params)) {
        Ok(c) => format!("{c:?}"),
        Err(r) => format!("{} {}", r.code, r.message),
    }
}

#[test]
fn requests_are_read() {
    assert_eq!(call("eval", "{}"), "Eval(\"undefined\")");
    assert_eq!(call("eval", r#"{"code":"1"}"#), "Eval(\"1\")");
    assert_eq!(call("navigate", r#"{"url":"u"}"#), "Navigate(\"u\", false)");
    assert_eq!(call("navigate", r#"{"url":"u","exec_scripts":true}"#), "Navigate(\"u\", true)");
    assert_eq!(call("body", "null"), "Body");
    assert_eq!(call("query", r#"{"selector":"s"}"#), "Query(\"s\")");
    assert_eq!(call("text", "null"), "Text(\"body\")");
    assert_eq!(call("text_main", "null"), "TextMain");
    assert_eq!(call("query_text", r#"{"text":"t"}"#), "QueryText(\"t\", None, false, 20)");
    assert_eq!(
        call("query_text", r#"{"text":"t","selector":"s","exact":true,"limit":4294967297}"#),
        "QueryText(\"t\", Some(\"s\"), true, 1)"
    );
    assert_eq!(call("blockmap", "[]"), "Blockmap");
    assert_eq!(call("extract", "{}"), "Extract(None)");
    assert_eq!(call("extract_table", r#"{"selector":"s"}"#), "ExtractTable(\"s\")");
    assert_eq!(
        call("extract_list", r#"{"item_selector":"i","fields":null}"#),
        "ExtractList(\"i\", Null, 1000)"
    );
    assert_eq!(call("settle", "{}"), "Settle(2000, 50)");
    assert_eq!(call("settle", r#"{"max_ms":1,"max_iters":2}"#), "Settle(1, 2)");
    assert_eq!(call("click", r#"{"ref":"e:1"}"#), "Click(\"e:1\")");
    assert_eq!(call("type", r#"{"ref":"e:1","text":"t"}"#), "Type(\"e:1\", \"t\")");
    assert_eq!(call("submit", r#"{"ref":"e:1"}"#), "Submit(\"e:1\")");
    assert_eq!(call("cookies_set", r#"{"cookies":[],"url":"u"}"#), "CookiesSet([], Some(\"u\"))");
    assert_eq!(call("cookies_get", "{}"), "CookiesGet");
    assert_eq!(call("cookies_clear", "{}"), "CookiesClear");
    assert_eq!(call("report_outcome", "{}"), "ReportOutcome(\"\")");
    assert_eq!(call("network_stores", "{}"), "NetworkStores(20, None, None)");
    assert_eq!(
        call("network_stores", r#"{"limit":1,"host":"h","nav_id":"all"}"#),
        "NetworkStores(1, Some(\"h\"), Some(\"all\"))"
    );
    assert_eq!(call("network_stores_clear", "{}"), "NetworkStoresClear");
    assert_eq!(call("close", "{}"), "Close");
}

#[test]
fn requests_that_lack_something_are_refused() {
    assert_eq!(call("navigate", "{}"), "-32602 missing 'url' param");
    assert_eq!(call("navigate", r#"{"url":1}"#), "-32602 missing 'url' param");
    assert_eq!(call("query", "{}"), "-32602 missing 'selector' param");
    assert_eq!(call("query_text", "{}"), "-32602 missing 'text' param");
    assert_eq!(call("extract_table", "{}"), "-32602 missing 'selector' param");
    assert_eq!(
        call("extract_list", r#"{"item_selector":"i"}"#),
        "-32602 missing 'item_selector' or 'fields' param"
    );
    assert_eq!(call("click", "{}"), "-32602 missing 'ref' param");
    assert_eq!(call("type", r#"{"ref":"r"}"#), "-32602 missing 'ref' or 'text' param");
    assert_eq!(call("submit", "{}"), "-32602 missing 'ref' param");
    assert_eq!(call("cookies_set", "{}"), "-32602 missing 'cookies' param");
    assert_eq!(call("nope", "{}"), "-32601 unknown method: nope");
}

#[test]
fn failures_have_codes() {
    let t = || "x".to_string();
    let codes = [
        (Call::Eval(t()), -1),
        (Call::Navigate(t(), true), -2),
        (Call::Body, -3),
        (Call::Query(t()), -4),
        (Call::Text(t()), -5),
        (Call::TextMain, -5),
        (Call::QueryText(t(), None, false, 1), -5),
        (Call::Blockmap, -6),
        (Call::Extract(None), -6),
        (Call::ExtractTable(t()), -6),
        (Call::ExtractList(t(), Json::Null, 1), -6),
        (Call::Settle(1, 1), -6),
        (Call::Click(t()), -7),
        (Call::Type(t(), t()), -8),
        (Call::Submit(t()), -9),
        (Call::CookiesSet(vec![], None), -10),
        (Call::ReportOutcome(t()), -32602),
    ];
    for (c, code) in codes {
        assert_eq!(code_of_failure(&c), code, "{c:?}");
    }
}

#[test]
fn answers_carry_the_id() {
    assert_eq!(
        print_json(&ok_response(j("\"a\""), json_number(1))),
        r#"{"id":"a","result":1}"#
    );
    assert_eq!(
        print_json(&err_response(j("7"), -5, "m")),
        r#"{"error":{"code":-5,"message":"m"},"id":7}"#
    );
    assert_eq!(print_json(&build_error(-5, "m")), r#"{"code":-5,"message":"m"}"#);
    assert_eq!(
        print_json(&parse_error_response("w")),
        r#"{"error":{"code":-32700,"message":"parse error: w"},"id":null}"#
    );
    assert_eq!(
        print_json(&call_response(j("1"), &Call::Body, Ok(Json::Null))),
        r#"{"id":1,"result":null}"#
    );
    assert_eq!(
        print_json(&call_response(j("1"), &Call::Body, Err("m".to_string()))),
        r#"{"error":{"code":-3,"message":"m"},"id":1}"#
    );
}

#[test]
fn results_are_built() {
    assert_eq!(print_json(&done_value()), r#"{"ok":true}"#);
    assert_eq!(print_json(&added_value(3)), r#"{"added":3}"#);
    assert_eq!(body_result(&Some("b".to_string())).unwrap().as_text().unwrap(), "b");
    assert_eq!(body_result(&None).unwrap_err(), "no body — call navigate first");
}

#[test]
fn scopes_and_pages_are_chosen() {
    let some = |s: &str| Some(s.to_string());
    assert_eq!(nav_scope(&some("all"), &some("nav_1")), None);
    assert_eq!(nav_scope(&some("nav_2"), &some("nav_1")), some("nav_2"));
    assert_eq!(nav_scope(&None, &some("nav_1")), some("nav_1"));
    assert_eq!(nav_scope(&None, &None), None);
    assert_eq!(cookie_url(&some("u"), &some("p")), some("u"));
    assert_eq!(cookie_url(&None, &some("p")), some("p"));
    assert_eq!(cookie_url(&None, &None), None);
}
