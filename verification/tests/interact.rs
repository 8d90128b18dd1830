use unbrowser::interact::{click_plan, query_url, submit_plan, ClickPlan, SubmitPlan, FORM_TYPE};
use unbrowser::json::{parse_json, Json};

fn j(text: &str) -> Json {
    parse_json(text).unwrap()
}

fn page(url: &str) -> Option<String> {
    Some(url.to_string())
}

fn pairs(p: &[(&str, &str)]) -> Vec<(String, String)> {
    p.iter().map(|(n, v)| (n.to_string(), v.to_string())).collect()
}

#[test]
fn links_are_followed() {
    let last = page("https://a.com/b");
    let follow = |text: &str| match click_plan(&j(text), &last).unwrap() {
        ClickPlan::Follow(u) => Some(u),
        ClickPlan::Answer => None,
    };
    assert_eq!(follow(r#"{"ok": true, "follow": "c"}"#), page("https://a.com/c"));
    assert_eq!(follow(r#"{"follow": "c"}"#), page("https://a.com/c"));
    assert_eq!(follow(r#"{"ok": false, "follow": "c"}"#), None);
    assert_eq!(follow(r#"{"ok": true, "follow": null}"#), None);
    assert_eq!(follow(r#"{"ok": true, "follow": ""}"#), None);
    assert_eq!(
        follow(r#"{"ok": true, "follow": "https://www.google.com/url?q=https://x.com/"}"#),
        page("https://x.com/")
    );
    assert_eq!(
        click_plan(&j(r#"{"follow": "c"}"#), &None).unwrap_err(),
        "no current page — call navigate first"
    );
}

#[test]
fn forms_are_read() {
    let last = page("https://a.com/b");
    let info = j(
        r#"{"ok": true, "action": "s", "fields": [["q", "x y"], ["n"], ["a", 1], 7, ["r", "ä&"]]}"#,
    );
    match submit_plan(&info, &last).unwrap() {
        SubmitPlan::Get(url, p) => {
            assert_eq!(url, "https://a.com/s");
            assert_eq!(p, pairs(&[("q", "x y"), ("r", "ä&")]));
            assert_eq!(
                query_url(&url, &p),
                Ok("https://a.com/s?q=x+y&r=%C3%A4%26".to_string())
            );
        }
        _ => panic!("no query"),
    }
    let post = j(r#"{"method": "post", "action": "", "fields": [["q", "x y"], ["r", "ä&"]]}"#);
    match submit_plan(&post, &last).unwrap() {
        SubmitPlan::Post(url, body) => {
            assert_eq!(url, "https://a.com/b");
            assert_eq!(body, "q=x+y&r=%C3%A4%26");
        }
        _ => panic!("no body"),
    }
    assert_eq!(FORM_TYPE, "application/x-www-form-urlencoded");
    assert!(matches!(
        submit_plan(&j(r#"{"ok": false}"#), &None).unwrap(),
        SubmitPlan::Answer
    ));
}

#[test]
fn forms_that_cannot_be_sent_are_refused() {
    let last = page("https://a.com/b");
    assert_eq!(
        submit_plan(&j(r#"{"method": "dialog"}"#), &last).unwrap_err(),
        "unsupported form method 'dialog'"
    );
    assert_eq!(
        submit_plan(&j(r#"{"method": "post", "enctype": "multipart/form-data"}"#), &last).unwrap_err(),
        "POST enctype 'multipart/form-data' not supported (only application/x-www-form-urlencoded)"
    );
    assert_eq!(
        submit_plan(&j("{}"), &None).unwrap_err(),
        "no current page — call navigate first"
    );
}

#[test]
fn queries_replace_queries() {
    assert_eq!(
        query_url("https://a.com/s?old=1#f", &pairs(&[("q", "1"), ("q", "2")])),
        Ok("https://a.com/s?q=1&q=2#f".to_string())
    );
    assert_eq!(
        query_url("https://a.com/s#f?g", &pairs(&[("a*b", "-._~/")])),
        Ok("https://a.com/s?a*b=-._%7E%2F#f?g".to_string())
    );
    assert_eq!(query_url("mailto:x@y", &pairs(&[("", "")])), Ok("mailto:x@y?=".to_string()));
    assert_eq!(query_url("https://a.com/s?old=1", &vec![]), Ok("https://a.com/s?".to_string()));
    assert_eq!(
        query_url("nope", &vec![]),
        Err("resolve action url: relative URL without a base".to_string())
    );
}
