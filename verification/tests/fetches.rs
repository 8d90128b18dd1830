use unbrowser::fetches::{
    drain_text, fetch_method, gate_fetch, headers_from_json, headers_of, FetchAnswers, FetchResponse,
    SentFetch, METHODS,
};
use unbrowser::json::{parse_json, print_json};

#[test]
fn blocked_fetches_come_back_empty() {
    let (e, r) = gate_fetch(true, 7, "https://heap.io/x", "POST").unwrap();
    assert_eq!(e.name, "policy_blocked");
    assert_eq!(
        print_json(&e.data),
        r#"{"category":"analytics","matched":"heap.io","method":"POST","url":"https://heap.io/x"}"#
    );
    assert_eq!(
        drain_text(&vec![r]),
        r#"[{"body":"","error":null,"headers":{},"id":7,"status":204}]"#
    );
    assert!(gate_fetch(false, 7, "https://heap.io/x", "POST").is_none());
    assert!(gate_fetch(true, 7, "https://example.org/x", "GET").is_none());
}

#[test]
fn responses_are_handed_over_in_order() {
    let headers = vec![
        ("X".to_string(), "1".to_string()),
        ("x".to_string(), "2".to_string()),
    ];
    let all = vec![
        FetchResponse::failed(1, "broken".to_string()),
        FetchResponse::received(2, 200, &headers, "b".to_string()),
    ];
    assert_eq!(
        drain_text(&all),
        r#"[{"body":"","error":"broken","headers":{},"id":1,"status":0},{"body":"b","error":null,"headers":{"x":"2"},"id":2,"status":200}]"#
    );
    assert_eq!(drain_text(&vec![]), "[]");
}

#[test]
fn headers_are_texts() {
    let want = vec![("a".to_string(), "1".to_string()), ("c".to_string(), "3".to_string())];
    assert_eq!(headers_from_json(r#"{"a":"1","b":2,"c":"3"}"#), want);
    assert!(headers_from_json("{").is_empty());
    assert!(headers_from_json("[\"a\"]").is_empty());
    assert_eq!(headers_of(&parse_json(r#"{"a":"1","c":"3"}"#).unwrap()), want);
}

#[test]
fn methods_are_known_or_get() {
    for m in METHODS {
        assert_eq!(fetch_method(&m.to_lowercase()), m);
    }
    assert_eq!(fetch_method("trace"), "GET");
    assert_eq!(fetch_method(""), "GET");
}

#[test]
fn blocked_fetches_are_answered_once() {
    let mut answers = FetchAnswers::new();
    assert_eq!(answers.drain(), "[]");
    let send = |answers: &mut FetchAnswers, blocking: bool, id: u64, url: &str| {
        answers.send(
            blocking,
            id,
            "POST".to_string(),
            url.to_string(),
            r#"{"a":"1"}"#,
            "body".to_string(),
        )
    };
    match send(&mut answers, true, 7, "https://heap.io/x") {
        SentFetch::Blocked(e) => assert_eq!(
            print_json(&e.data),
            r#"{"category":"analytics","matched":"heap.io","method":"POST","url":"https://heap.io/x"}"#
        ),
        SentFetch::Goes(_) => panic!("it goes out"),
    }
    for (blocking, url) in [(false, "https://heap.io/x"), (true, "https://example.org/x")] {
        match send(&mut answers, blocking, 8, url) {
            SentFetch::Goes(f) => {
                assert_eq!(f.id, 8);
                assert_eq!(f.method, "POST");
                assert_eq!(f.url, url);
                assert_eq!(f.headers, vec![("a".to_string(), "1".to_string())]);
                assert_eq!(f.body, "body");
            }
            SentFetch::Blocked(_) => panic!("it is blocked"),
        }
    }
    answers.answer(FetchResponse::failed(8, "broken".to_string()));
    assert_eq!(
        answers.drain(),
        r#"[{"body":"","error":null,"headers":{},"id":7,"status":204},{"body":"","error":"broken","headers":{},"id":8,"status":0}]"#
    );
    assert_eq!(answers.drain(), "[]");
}
