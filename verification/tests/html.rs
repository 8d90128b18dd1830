use unbrowser::html::{
    child_to_json, collect_scripts, document_tree, fragment_tree, looks_like_module, node_to_json,
    parse_html_fragment_to_json, parse_html_to_tree, script_kind_str, Dom, ScriptItem, ScriptKind,
};
use unbrowser::json::{parse_json, print_json, Json};

#[test]
fn documents_are_parsed() {
    let t = parse_html_to_tree("<!doctype html><title>T</title><!-- c --><p class=a>x<b>y</b>");
    assert_eq!(
        print_json(&t),
        concat_all(&[
            r#"{"attrs":{},"children":["#,
            r#"{"attrs":{},"children":[{"attrs":{},"children":[{"content":"T","type":"text"}],"tag":"title","type":"element"}],"tag":"head","type":"element"},"#,
            r#"{"attrs":{},"children":[{"attrs":{"class":"a"},"children":[{"content":"x","type":"text"},{"attrs":{},"children":[{"content":"y","type":"text"}],"tag":"b","type":"element"}],"tag":"p","type":"element"}],"tag":"body","type":"element"}"#,
            r#"],"tag":"html","type":"element"}"#,
        ])
    );
}

fn concat_all(parts: &[&str]) -> String {
    parts.join("")
}

#[test]
fn fragments_are_parsed_inside_a_body() {
    let text = parse_html_fragment_to_json("<p>a</p>b<!-- c --><td>d</td>");
    let t = parse_json(&text).unwrap();
    assert_eq!(t.text_at("tag").unwrap(), "fragment");
    let children = t.array_at("children").unwrap();
    assert_eq!(children.len(), 3);
    assert_eq!(children[0].text_at("tag").unwrap(), "p");
    assert_eq!(children[1].text_at("content").unwrap(), "b");
    assert_eq!(children[2].text_at("content").unwrap(), "d");
    let empty = parse_json(&parse_html_fragment_to_json("")).unwrap();
    assert_eq!(empty.array_at("children").unwrap().len(), 0);
}

fn element(tag: &str, attrs: &[(&str, &str)], children: Vec<Dom>) -> Dom {
    Dom::Element(
        tag.to_string(),
        attrs.iter().map(|(n, v)| (n.to_string(), v.to_string())).collect(),
        children,
    )
}

#[test]
fn nodes_become_values() {
    assert!(child_to_json(&Dom::Other).is_none());
    assert!(child_to_json(&Dom::Document(vec![])).is_none());
    assert!(matches!(node_to_json(&Dom::Text("x".to_string())), Json::Null));
    // The last of equal attributes counts.
    let e = element("a", &[("x", "1"), ("y", "2"), ("x", "3")], vec![Dom::Other]);
    assert_eq!(
        print_json(&node_to_json(&e)),
        r#"{"attrs":{"x":"3","y":"2"},"children":[],"tag":"a","type":"element"}"#
    );
    assert_eq!(
        print_json(&child_to_json(&Dom::Text("x".to_string())).unwrap()),
        r#"{"content":"x","type":"text"}"#
    );
}

#[test]
fn the_html_element_is_the_page() {
    let d = Dom::Document(vec![Dom::Other, element("html", &[("lang", "en")], vec![])]);
    assert_eq!(
        print_json(&document_tree(&d)),
        r#"{"attrs":{"lang":"en"},"children":[],"tag":"html","type":"element"}"#
    );
    assert_eq!(
        print_json(&document_tree(&Dom::Document(vec![Dom::Other]))),
        r#"{"attrs":{},"children":[],"tag":"html","type":"element"}"#
    );
    let f = Dom::Document(vec![
        Dom::Other,
        element("html", &[], vec![Dom::Text("x".to_string())]),
        element("html", &[], vec![Dom::Text("y".to_string())]),
    ]);
    assert_eq!(
        print_json(&fragment_tree(&f)),
        r#"{"attrs":{},"children":[{"content":"x","type":"text"}],"tag":"fragment","type":"element"}"#
    );
}

fn scripts(html: &str) -> Vec<String> {
    collect_scripts(&parse_html_to_tree(html), "https://a.com/b/")
        .iter()
        .map(|s| match s {
            ScriptItem::Inline(code) => format!("inline {code}"),
            ScriptItem::External { url, kind } => format!("{} {url}", script_kind_str(*kind)),
        })
        .collect()
}

#[test]
fn scripts_are_found_in_order() {
    let got = scripts(
        "<head><script src=x.js></script><script>1</script></head><body><div><script async defer src='//o.com/y.js'></script></div><script defer src=/z.js></script><script type=module>import 'x'</script>",
    );
    assert_eq!(
        got,
        vec![
            "sync https://a.com/b/x.js",
            "inline 1",
            "async https://o.com/y.js",
            "sync https://a.com/z.js",
            "inline import 'x'",
        ]
    );
}

#[test]
fn data_and_empty_scripts_are_passed_over() {
    assert!(scripts("<script type='application/json'>{}</script>").is_empty());
    assert!(scripts("<script type='application/ld+json'>{}</script>").is_empty());
    assert!(scripts("<script type='application/javascript'>f()</script>").is_empty());
    assert!(scripts("<script type='text/x-javascript'>f()</script>").is_empty());
    assert!(scripts("<script> \n </script>").is_empty());
    assert!(scripts("<script src=''></script>").is_empty());
    assert!(scripts("<script src='http://['></script>").is_empty());
    assert_eq!(scripts("<script type='TEXT/JavaScript'>1</script>"), vec!["inline 1"]);
    assert_eq!(scripts("<script type='MODULE'>1</script>"), vec!["inline 1"]);
    let tree = parse_html_to_tree("<script src=x.js></script><script>1</script>");
    let got = collect_scripts(&tree, "nope");
    assert_eq!(got.len(), 1);
    assert!(matches!(&got[0], ScriptItem::Inline(c) if c == "1"));
}

#[test]
fn kinds_have_names() {
    assert_eq!(script_kind_str(ScriptKind::Sync), "sync");
    assert_eq!(script_kind_str(ScriptKind::Async), "async");
}

#[test]
fn modules_import_or_export() {
    for code in [
        "import x from 'y'",
        "// c\n  import{x} from 'y'",
        "import\"y\"",
        "import'y'",
        "import*as x from 'y'",
        "\texport default 1",
        "var x;\r\nexport{x}",
        "export*from 'y'",
    ] {
        assert!(looks_like_module(code), "{code}");
    }
    for code in ["", "import('x')", "importx", "var a; import x", "exports.x = 1"] {
        assert!(!looks_like_module(code), "{code}");
    }
    let far = format!("{}import x", "\n".repeat(50));
    assert!(!looks_like_module(&far));
    let near = format!("{}import x", "\n".repeat(49));
    assert!(looks_like_module(&near));
}
