use unbrowser::json::{parse_json, Json};
use unbrowser::page_code::{
    click_code, extract_code, extract_list_code, extract_table_code, form_data_code,
    load_module_code, page_answer, query_code, query_text_code, seed_dom_code, set_location_code,
    text_code, text_main_code, type_code,
};

#[test]
fn texts_are_quoted_in_code() {
    assert_eq!(click_code("e:1\""), "__click(\"e:1\\\"\")");
    assert_eq!(type_code("e:1", "a\nb"), "__type(\"e:1\", \"a\\nb\")");
    assert_eq!(form_data_code("e:1"), "__formData(\"e:1\")");
    assert_eq!(set_location_code("https://a.com/"), "__setLocation(\"https://a.com/\")");
    assert_eq!(load_module_code("x\\y", ""), "__loadModule(\"x\\\\y\", \"\")");
    assert_eq!(extract_code(None), "__extract({})");
    assert_eq!(extract_code(Some("json_ld")), "__extract({ strategy: \"json_ld\" })");
    assert_eq!(extract_table_code("table"), "__extractTable(\"table\")");
    let fields = parse_json(r#"{"b": "x", "a": ["y", "@z"]}"#).unwrap();
    assert_eq!(
        extract_list_code("li", &fields, 7),
        "__extractList(\"li\", {\"a\":[\"y\",\"@z\"],\"b\":\"x\"}, 7)"
    );
}

#[test]
fn trees_are_quoted_twice() {
    let tree = parse_json(r#"{"tag": "a\"b"}"#).unwrap();
    assert_eq!(
        seed_dom_code(&tree),
        r#"__seedDOM(JSON.parse("{\"tag\":\"a\\\"b\"}"))"#
    );
}

#[test]
fn selectors_are_asked_for() {
    assert_eq!(
        query_code("a[b='c']"),
        "(function(){ var els = document.querySelectorAll(\"a[b='c']\"); return els.map(function(e){ return { ref: 'e:' + e._id, tag: e.tagName.toLowerCase(), attrs: e._attributes, text: (e.textContent || '').trim().slice(0, 200) }; }); })()"
    );
    assert_eq!(
        text_code("p"),
        "(function(){ var el = document.querySelector(\"p\"); return el ? (el.textContent || '').trim() : null; })()"
    );
    assert!(text_main_code().starts_with("(function(){"));
    assert!(text_main_code().contains("'main, [role=\"main\"]'"));
}

#[test]
fn texts_are_asked_for() {
    let code = query_text_code("Sign \"in\"", Some("#x"), true, 3);
    assert!(code.contains("var needle = \"Sign \\\"in\\\"\";\n"));
    assert!(code.contains("var sel = \"#x\";\n"));
    assert!(code.contains("var exact = true;\n"));
    assert!(code.contains("var limit = 3;\n"));
    let code = query_text_code("x", None, false, 20);
    assert!(code.contains("var sel = null;\n"));
    assert!(code.contains("var exact = false;\n"));
    assert!(code.ends_with("})()"));
}

#[test]
fn answers_are_read() {
    assert!(matches!(page_answer(None), Json::Null));
    assert_eq!(page_answer(Some("7".to_string())).as_u64(), Some(7));
    let odd = page_answer(Some("nope".to_string()));
    assert_eq!(odd.as_text().unwrap(), "nope");
}

#[test]
fn texts_stay_in_their_literals() {
    assert_eq!(
        click_code("\"); alert(1); (\""),
        "__click(\"\\\"); alert(1); (\\\"\")"
    );
    assert_eq!(click_code("\\"), "__click(\"\\\\\")");
    assert_eq!(click_code("a\nb\u{1}"), "__click(\"a\\nb\\u0001\")");
}
