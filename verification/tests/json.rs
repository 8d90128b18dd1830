use unbrowser::events::Event;
use unbrowser::json::{
    array, find_entry, json_number, json_optional_text, json_text_of, no_entries, object,
    parse_json, print_json, print_json_pretty, put, set_entry, Json, Number,
};

use unbrowser::json_text::read_every;

fn j(text: &str) -> Json {
    parse_json(text).unwrap()
}

#[test]
fn values_are_read() {
    let v = j(r#"{"a": [1, -2, 0.5, true, null, "x\u00e4"], "b": {"c": 18446744073709551615}}"#);
    let a = v.array_at("a").unwrap();
    assert_eq!(a.len(), 6);
    assert!(matches!(a[0], Json::Number(Number::Unsigned(1))));
    assert!(matches!(a[1], Json::Number(Number::Negative(-2))));
    assert!(matches!(&a[2], Json::Number(Number::Float(f)) if f == "0.5"));
    assert_eq!(a[3].as_bool(), Some(true));
    assert!(matches!(a[4], Json::Null));
    assert_eq!(a[5].as_text().unwrap(), "xä");
    assert_eq!(v.get("b").unwrap().u64_at("c"), Some(u64::MAX));
    assert!(v.get("d").is_none());
    assert!(a[0].get("x").is_none());
    assert_eq!(a[1].as_u64(), None);
    assert_eq!(a[2].as_u64(), None);
    assert!(a[1].as_number().is_some());
    assert!(v.text_at("a").is_none());
    assert!(v.bool_at("a").is_none());
    assert!(a[0].as_array().is_none());
}

#[test]
fn the_last_of_equal_keys_counts() {
    assert_eq!(j(r#"{"a": 1, "a": 2}"#).u64_at("a"), Some(2));
}

#[test]
fn what_is_no_json_has_words() {
    let words = parse_json("{").unwrap_err();
    let want = serde_json::from_str::<serde_json::Value>("{").unwrap_err().to_string();
    assert_eq!(words, want);
}

#[test]
fn values_are_written() {
    for text in [
        r#"{"a":[1,-2,0.5,true,null,"x\"\n"],"b":{}}"#,
        "[]",
        "null",
        "1e300",
        "-0.0",
        "\"\\u0000\"",
    ] {
        let v: serde_json::Value = serde_json::from_str(text).unwrap();
        assert_eq!(print_json(&j(text)), serde_json::to_string(&v).unwrap());
        assert_eq!(print_json_pretty(&j(text)), serde_json::to_string_pretty(&v).unwrap());
    }
    assert_eq!(print_json_pretty(&j("[1]")), "[\n  1\n]");
}

#[test]
fn values_are_built() {
    let mut e = no_entries();
    put(&mut e, "b", json_number(1));
    put(&mut e, "a", json_text_of("x"));
    put(&mut e, "c", json_optional_text(&None));
    put(&mut e, "d", array(vec![Json::Bool(false)]));
    assert_eq!(find_entry(&e, "b").unwrap().as_u64(), Some(1));
    assert!(find_entry(&e, "z").is_none());
    set_entry(&mut e, "b", json_number(2));
    set_entry(&mut e, "e", json_optional_text(&Some("y".to_string())));
    let v = object(e);
    assert_eq!(v.u64_at("b"), Some(2));
    let copy = v.copy();
    assert_eq!(print_json(&copy), print_json(&v));
    assert_eq!(print_json(&v), r#"{"a":"x","b":2,"c":null,"d":[false],"e":"y"}"#);
}

#[test]
fn events_are_lines() {
    let e = Event { name: "ready", data: j("{}") };
    assert_eq!(e.line(), r#"{"data":{},"event":"ready"}"#);
}

#[test]
fn whole_doubles_are_read_back() {
    for n in [0u64, 1, 12, 1_000_000, 10_000_000_000_000, 99_999_999_999_999] {
        let text = format!("{n}.0");
        let v = Json::Number(Number::Float(text.clone()));
        assert_eq!(print_json(&v), text);
        assert!(matches!(j(&text), Json::Number(Number::Float(f)) if f == text));
    }
}

#[test]
fn entries_are_written_in_the_order_of_their_keys() {
    let mut e = no_entries();
    put(&mut e, "b", json_number(1));
    put(&mut e, "ä", json_number(2));
    put(&mut e, "a", json_number(3));
    put(&mut e, "", json_number(4));
    put(&mut e, "b", json_number(5));
    assert_eq!(print_json(&object(e)), r#"{"":4,"a":3,"b":5,"ä":2}"#);
    assert_eq!(print_json(&Json::Number(Number::Float("nope".to_string()))), "null");
    assert_eq!(print_json(&Json::Number(Number::Float("1.50".to_string()))), "1.5");
}

#[test]
fn texts_are_escaped() {
    let all: String = (0..0x90u32).filter_map(char::from_u32).chain(['\u{2028}', 'ä', '😀']).collect();
    let printed = print_json(&json_text_of(&all));
    assert_eq!(printed, serde_json::to_string(&all).unwrap());
    assert!(printed.chars().all(|c| c as u32 >= 32));
    assert_eq!(print_json(&json_text_of("a\u{1f}\"\\\n")), "\"a\\u001f\\\"\\\\\\n\"");
    assert_eq!(j(&printed).as_text().unwrap(), &all);
}

#[test]
fn numbers_are_written() {
    assert_eq!(print_json(&Json::Number(Number::Negative(i64::MIN))), "-9223372036854775808");
    assert_eq!(print_json(&Json::Number(Number::Negative(7))), "7");
    assert_eq!(print_json(&json_number(u64::MAX)), "18446744073709551615");
}

#[test]
fn indented_texts_have_a_line_for_everything() {
    assert_eq!(
        print_json_pretty(&j(r#"{"b":[1,[],{"c":null}],"a":{}}"#)),
        "{\n  \"a\": {},\n  \"b\": [\n    1,\n    [],\n    {\n      \"c\": null\n    }\n  ]\n}"
    );
}

#[test]
fn every_entry_is_read() {
    let v = read_every(
        " { \"a\" : 1 , \"b]\\\"}\" : [ \"x,y\" , { \"c\":null , \"c\":-2.5 } ] , \"\\u0061\":true } ",
    );
    let Json::Object(entries) = v else { panic!("no object") };
    let keys: Vec<&str> = entries.iter().map(|(k, _)| k.as_str()).collect();
    assert_eq!(keys, vec!["a", "b]\"}", "a"]);
    assert!(matches!(entries[0].1, Json::Number(Number::Unsigned(1))));
    assert_eq!(entries[2].1.as_bool(), Some(true));
    let items = entries[1].1.as_array().unwrap();
    assert_eq!(items.len(), 2);
    assert_eq!(items[0].as_text().unwrap(), "x,y");
    let Json::Object(inner) = &items[1] else { panic!("no object") };
    assert_eq!(inner.len(), 2);
    assert!(matches!(inner[0].1, Json::Null));
    assert!(matches!(&inner[1].1, Json::Number(Number::Float(f)) if f == "-2.5"));
}

#[test]
fn every_written_text_is_read() {
    for text in [
        r#"{"a":[1,-2,0.5,true,null,"x\"\n,]}"],"b":{},"c":[[],[{}],""]}"#,
        "[]",
        "{}",
        "null",
        "7",
        "\"\\u0001{\"",
    ] {
        assert_eq!(print_json(&read_every(&print_json(&j(text)))), print_json(&j(text)));
    }
}
