use unbrowser::json::{parse_json, print_json, Json};
use unbrowser::mcp::{answer_call, answer_line, answer_message, dispatch_tool, mcp_tools, McpMove, TOOLS};

fn j(text: &str) -> Json {
    parse_json(text).unwrap()
}

fn reply(line: &str) -> String {
    match answer_line(line, "1.2.3") {
        McpMove::Silent => "silent".to_string(),
        McpMove::Reply(r) => print_json(&r),
        McpMove::Call(id, name, args) => {
            format!("call {} {name} {}", id.map(|i| print_json(&i)).unwrap_or_default(), print_json(&args))
        }
    }
}

#[test]
fn the_server_introduces_itself() {
    assert_eq!(
        reply(r#"{"jsonrpc":"2.0","id":1,"method":"initialize"}"#),
        r#"{"id":1,"jsonrpc":"2.0","result":{"capabilities":{"tools":{}},"protocolVersion":"2025-06-18","serverInfo":{"name":"unbrowser","version":"1.2.3"}}}"#
    );
    assert_eq!(reply(r#"{"id":null,"method":"ping"}"#), r#"{"id":null,"jsonrpc":"2.0","result":{}}"#);
    let all = j(&reply(r#"{"id":1,"method":"tools/list"}"#));
    let tools = all.get("result").unwrap().array_at("tools").unwrap();
    assert_eq!(tools.len(), TOOLS.len());
}

#[test]
fn notifications_are_not_answered() {
    assert_eq!(reply(r#"{"id":1,"method":"notifications/initialized"}"#), "silent");
    assert_eq!(reply(r#"{"id":1,"method":"notifications/cancelled"}"#), "silent");
    assert_eq!(reply(r#"{"method":"ping"}"#), "silent");
    assert_eq!(reply(r#"{"method":"nope"}"#), "silent");
    assert!(answer_call(&None, &Ok(Json::Null)).is_none());
}

#[test]
fn odd_messages_are_refused() {
    assert_eq!(
        reply(r#"{"id":1,"method":"nope"}"#),
        r#"{"error":{"code":-32601,"message":"method not found: nope"},"id":1,"jsonrpc":"2.0"}"#
    );
    assert_eq!(
        reply(r#"{"id":1}"#),
        r#"{"error":{"code":-32601,"message":"method not found: "},"id":1,"jsonrpc":"2.0"}"#
    );
    let words = serde_json::from_str::<serde_json::Value>("{").unwrap_err().to_string();
    assert_eq!(
        reply("{"),
        format!(r#"{{"error":{{"code":-32700,"message":"parse error: {words}"}},"id":null,"jsonrpc":"2.0"}}"#)
    );
    assert!(matches!(answer_message(&j("[]"), "v"), McpMove::Silent));
}

#[test]
fn tools_are_called() {
    assert_eq!(
        reply(r#"{"id":1,"method":"tools/call","params":{"name":"text","arguments":{"selector":"p"}}}"#),
        r#"call 1 text {"selector":"p"}"#
    );
    assert_eq!(reply(r#"{"method":"tools/call"}"#), "call   null");
    assert_eq!(
        print_json(&answer_call(&Some(j("1")), &Ok(j("[1]"))).unwrap()),
        r#"{"id":1,"jsonrpc":"2.0","result":{"content":[{"text":"[\n  1\n]","type":"text"}],"isError":false}}"#
    );
    assert_eq!(
        print_json(&answer_call(&Some(j("1")), &Err("e".to_string())).unwrap()),
        r#"{"id":1,"jsonrpc":"2.0","result":{"content":[{"text":"Error: e","type":"text"}],"isError":true}}"#
    );
}

fn call(name: &str, args: &str) -> String {
    match dispatch_tool(name, &j(args)) {
        Ok(c) => format!("{c:?}"),
        Err(e) => e,
    }
}

#[test]
fn calls_are_read() {
    assert_eq!(call("navigate", r#"{"url":"u","exec_scripts":true}"#), "Navigate(\"u\", true)");
    assert_eq!(call("text", "null"), "Text(\"body\")");
    assert_eq!(
        call("query_text", r#"{"text":"t","exact":true,"limit":3}"#),
        "QueryText(\"t\", None, true, 3)"
    );
    assert_eq!(call("settle", "{}"), "Settle(2000, 50)");
    assert_eq!(call("cookies_set", r#"{"cookies":["a=b"]}"#), "CookiesSet([Text(\"a=b\")], None)");
    assert_eq!(call("report_outcome", r#"{"navigation_id":"nav_1"}"#), "ReportOutcome(\"nav_1\")");
    assert_eq!(call("network_stores", r#"{"nav_id":"all"}"#), "NetworkStores(20, None, Some(\"all\"))");
    assert_eq!(call("eval", r#"{"code":"1"}"#), "Eval(\"1\")");
}

#[test]
fn calls_that_lack_something_are_refused() {
    for (name, missing) in [
        ("navigate", "url"),
        ("query", "selector"),
        ("query_text", "text"),
        ("extract_table", "selector"),
        ("extract_list", "item_selector"),
        ("click", "ref"),
        ("type", "ref"),
        ("submit", "ref"),
        ("eval", "code"),
        ("cookies_set", "cookies"),
        ("report_outcome", "navigation_id"),
    ] {
        assert_eq!(call(name, "{}"), format!("missing '{missing}'"));
    }
    assert_eq!(call("extract_list", r#"{"item_selector":"i"}"#), "missing 'fields'");
    assert_eq!(call("type", r#"{"ref":"r"}"#), "missing 'text'");
    assert_eq!(call("close", "{}"), "unknown tool: close");
}

#[test]
fn every_tool_that_is_offered_is_known() {
    for (name, _) in TOOLS {
        let got = call(name, "{}");
        assert!(!got.starts_with("unknown tool"), "{name}");
    }
}

#[test]
fn tools_say_what_they_take() {
    let tools = mcp_tools();
    let all = tools.as_array().unwrap();
    assert_eq!(all[0].text_at("name").unwrap(), "navigate");
    assert_eq!(
        print_json(all[1].get("inputSchema").unwrap()),
        r#"{"properties":{"selector":{"description":"CSS selector","type":"string"}},"required":["selector"],"type":"object"}"#
    );
    assert_eq!(
        print_json(all[2].get("inputSchema").unwrap()),
        r#"{"properties":{"selector":{"description":"CSS selector (default: body)","type":"string"}},"type":"object"}"#
    );
    assert_eq!(
        print_json(all[3].get("inputSchema").unwrap()),
        r#"{"properties":{},"type":"object"}"#
    );
    let outcome = all[18].get("inputSchema").unwrap();
    assert_eq!(
        print_json(outcome.get("properties").unwrap().get("task_class").unwrap().get("enum").unwrap()),
        r#"["extract","query","click","form","visual"]"#
    );
    let stores = all[19].get("inputSchema").unwrap().get("properties").unwrap();
    assert_eq!(
        print_json(stores.get("limit").unwrap()),
        r#"{"description":"Max entries to return (default 20).","maximum":100,"minimum":1,"type":"integer"}"#
    );
    assert_eq!(print_json(outcome.get("required").unwrap()), r#"["navigation_id","success"]"#);
}
