use unbrowser::json::{Json, Number};
use unbrowser::json_text::{read_every, MAX_LEVELS};

fn shown(text: &str) -> String {
    format!("{:?}", read_every(text))
}

fn show(j: Json) -> String {
    format!("{j:?}")
}

fn number(n: u64) -> Json {
    Json::Number(Number::Unsigned(n))
}

#[test]
fn objects_keep_all_their_entries() {
    assert_eq!(
        shown(" { \"a\" : 1 , \"b\" : [ 2 , \"x]\" ] , \"\\u0061\" : null } "),
        show(Json::Object(vec![
            ("a".to_string(), number(1)),
            ("b".to_string(), Json::Array(vec![number(2), Json::Text("x]".to_string())])),
            ("a".to_string(), Json::Null),
        ]))
    );
    assert_eq!(shown("[]"), show(Json::Array(vec![])));
    assert_eq!(shown("{}"), show(Json::Object(vec![])));
    assert_eq!(shown("true"), show(Json::Bool(true)));
}

#[test]
fn what_cannot_be_read_spoils_its_own_place() {
    assert_eq!(
        shown("[1e999,\"\\ud800\",{\"\\ud800\":1},3]"),
        show(Json::Array(vec![
            Json::Bool(false),
            Json::Bool(false),
            Json::Bool(false),
            number(3),
        ]))
    );
}

#[test]
fn values_are_read_so_deep() {
    let nested = |n: usize| format!("{}{}", "[".repeat(n), "]".repeat(n));
    assert!(!shown(&nested(MAX_LEVELS)).contains("false"));
    assert!(shown(&nested(MAX_LEVELS + 1)).contains("false"));
    assert!(shown(&nested(10_000)).contains("false"));
}
