use unbrowser::cookies::{build_cookie, CookieJar};
use unbrowser::json::{parse_json, print_json, Json};

fn j(text: &str) -> Json {
    parse_json(text).unwrap()
}

fn items(text: &str) -> Vec<Json> {
    match j(text) {
        Json::Array(v) => v,
        _ => panic!("no array"),
    }
}

fn texts(cookies: &[&str]) -> Vec<String> {
    cookies.iter().map(|c| c.to_string()).collect()
}

fn ok(text: &str, url: &str) -> Result<(String, String), String> {
    Ok((text.to_string(), url.to_string()))
}

#[test]
fn descriptions_become_cookies() {
    assert_eq!(
        build_cookie(&j("\"a=b; Path=/x\""), Some("https://a.com/")),
        ok("a=b; Path=/x", "https://a.com/")
    );
    assert_eq!(
        build_cookie(&j(r#"{"name":"a","value":"b","domain":"..x.com"}"#), None),
        ok("a=b; Path=/; Domain=..x.com", "http://x.com/")
    );
    assert_eq!(
        build_cookie(
            &j(r#"{"name":"a","domain":"x.com","path":"/p","secure":true,"httpOnly":true}"#),
            Some("https://d.com/")
        ),
        ok("a=; Path=/p; Domain=x.com; Secure; HttpOnly", "https://x.com/")
    );
    assert_eq!(
        build_cookie(&j(r#"{"name":"a","value":"b","url":"https://u.com/","domain":"x.com"}"#), None),
        ok("a=b; Path=/; Domain=x.com", "https://u.com/")
    );
    assert_eq!(
        build_cookie(&j(r#"{"name":"a","value":"b"}"#), Some("https://d.com/")),
        ok("a=b; Path=/", "https://d.com/")
    );
    // The name with an underscore comes first, whatever it holds.
    assert_eq!(
        build_cookie(&j(r#"{"name":"a","http_only":1,"httpOnly":true}"#), Some("u")),
        ok("a=; Path=/", "u")
    );
}

#[test]
fn what_describes_no_cookie_is_refused() {
    let err = |text: &str| build_cookie(&j(text), None).unwrap_err();
    assert_eq!(err("\"a=b\""), "string-form cookie requires 'url' param");
    assert_eq!(err("7"), "cookie must be string or object");
    assert_eq!(err("{}"), "cookie missing 'name'");
    assert_eq!(err(r#"{"name":"a"}"#), "cookie a has no 'url' or 'domain'");
}

#[test]
fn cookies_go_back_where_they_came_from() {
    let mut jar = CookieJar::new();
    assert_eq!(jar.cookies("https://a.com/"), None);
    jar.set_cookies("https://a.com/x/y", &texts(&["k=v", "nothing", "s=1; Path=/; Secure"]));
    assert_eq!(jar.cookies("https://b.com/"), None);
    assert_eq!(jar.cookies("nope"), None);
    assert_eq!(jar.cookies("http://a.com/x/"), Some("k=v".to_string()));
    assert_eq!(jar.cookies("https://a.com/z"), Some("s=1".to_string()));
    let both = jar.cookies("https://a.com/x/y").unwrap();
    assert!(both == "k=v; s=1" || both == "s=1; k=v", "{both}");
    jar.clear();
    assert_eq!(jar.cookies("https://a.com/x/y"), None);
    assert!(jar.export().is_empty());
}

#[test]
fn a_cookie_replaces_the_one_in_its_place() {
    let mut jar = CookieJar::new();
    assert!(jar.receive("k=1; Path=/", "https://a.com/"));
    assert!(jar.receive("k=2; Path=/", "https://a.com/"));
    assert!(jar.receive("l=3; Path=/", "https://a.com/"));
    assert!(!jar.receive("nothing", "https://a.com/"));
    let mut shown: Vec<String> = jar.export().iter().map(print_json).collect();
    shown.sort();
    assert_eq!(
        shown,
        vec![
            r#"{"domain":null,"http_only":false,"name":"k","path":"/","secure":false,"value":"2"}"#,
            r#"{"domain":null,"http_only":false,"name":"l","path":"/","secure":false,"value":"3"}"#,
        ]
    );
    // One that has expired is no longer there.
    assert!(jar.receive("k=4; Path=/; Max-Age=0", "https://a.com/"));
    assert_eq!(jar.export().len(), 1);
}

#[test]
fn values_that_no_header_can_hold_are_not_sent() {
    let mut jar = CookieJar::new();
    jar.set_cookies("https://a.com/", &texts(&["k=\u{1}x; Path=/"]));
    assert_eq!(jar.export().len(), 1);
    assert_eq!(jar.cookies("https://a.com/"), None);
}

#[test]
fn exported_cookies_can_be_imported() {
    let mut jar = CookieJar::new();
    let added = jar.import(
        &items(r#"[{"name":"a","value":"b","domain":"x.com","secure":true,"http_only":true}, "k=v; Path=/"]"#),
        Some("https://d.com/"),
    );
    assert_eq!(added, Ok(2));
    assert_eq!(jar.cookies("https://sub.x.com/"), Some("a=b".to_string()));
    assert_eq!(jar.cookies("http://x.com/"), None);
    assert_eq!(jar.cookies("https://d.com/"), Some("k=v".to_string()));

    let mut second = CookieJar::new();
    assert_eq!(second.import(&jar.export(), Some("https://d.com/")), Ok(2));
    let mut a: Vec<String> = jar.export().iter().map(print_json).collect();
    let mut b: Vec<String> = second.export().iter().map(print_json).collect();
    a.sort();
    b.sort();
    assert_eq!(a, b);
}

#[test]
fn imports_end_at_the_first_error() {
    let mut jar = CookieJar::new();
    let r = jar.import(
        &items(r#"["k=v", "nothing", 7, "l=w"]"#),
        Some("https://d.com/"),
    );
    assert_eq!(r, Err("cookie must be string or object".to_string()));
    assert_eq!(jar.export().len(), 1);
    let r = jar.import(&items(r#"["nothing"]"#), Some("https://d.com/"));
    assert_eq!(r, Ok(0));
    let r = jar.import(&items(r#"["k=v"]"#), Some("nope"));
    assert_eq!(r, Err("parse url: relative URL without a base".to_string()));
}

#[test]
fn cookies_with_a_time_and_domains_in_any_form_are_restored() {
    let mut jar = CookieJar::new();
    for (text, url) in [
        ("a=1; Path=/; Domain=x.com; Max-Age=3600", "https://x.com/"),
        ("b=2; Path=/; Domain=X.COM; Expires=Fri, 31 Dec 9999 23:59:59 GMT", "https://x.com/"),
        ("c=3; Path=/p; Domain=my_host.x.com", "https://my_host.x.com/"),
        ("d=4; Path=/; Domain=xn--bcher-kva.example; HttpOnly", "https://xn--bcher-kva.example/"),
        ("e=5; Path=/; Domain=b\u{fc}cher.example; Secure", "https://b\u{fc}cher.example/"),
        ("f=6; Path=/; Domain=Parent.example", "https://sub.parent.example/"),
    ] {
        assert!(jar.receive(text, url));
    }
    assert_eq!(jar.export().len(), 6);
    let mut second = CookieJar::new();
    assert_eq!(second.import(&jar.export(), None), Ok(6));
    let mut a: Vec<String> = jar.export().iter().map(print_json).collect();
    let mut b: Vec<String> = second.export().iter().map(print_json).collect();
    a.sort();
    b.sort();
    assert_eq!(a, b);
    for url in ["https://x.com/", "https://my_host.x.com/p", "https://b\u{fc}cher.example/"] {
        let count = |j: &CookieJar| j.cookies(url).unwrap_or_default().split("; ").count();
        assert_eq!(count(&jar), count(&second), "{url}");
    }
    // A domain with a dot too many is not the same without it.
    let mut third = CookieJar::new();
    assert!(third.receive("k=v; Path=/; Domain=..x.com", "https://.x.com/"));
    assert_eq!(third.export().len(), 1);
    let mut fourth = CookieJar::new();
    assert_eq!(fourth.import(&third.export(), None), Ok(1));
    assert_ne!(print_json(&third.export()[0]), print_json(&fourth.export()[0]));
}

#[test]
fn a_jar_of_domain_cookies_is_restored() {
    let mut jar = CookieJar::new();
    let texts = texts(&[
        "a=1; Path=/; Domain=x.com",
        "a=2; Path=/p; Domain=x.com; HttpOnly",
        "b=3; Path=/; Domain=x.com; Secure",
    ]);
    jar.set_cookies("https://x.com/", &texts);
    jar.set_cookies("https://y-1.org/", &vec!["c=; Path=/; Domain=y-1.org".to_string()]);
    assert_eq!(jar.export().len(), 4);
    let mut second = CookieJar::new();
    assert_eq!(second.import(&jar.export(), None), Ok(4));
    let mut a: Vec<String> = jar.export().iter().map(print_json).collect();
    let mut b: Vec<String> = second.export().iter().map(print_json).collect();
    a.sort();
    b.sort();
    assert_eq!(a, b);
    for url in ["https://x.com/", "http://x.com/p/q", "https://sub.x.com/", "https://y-1.org/"] {
        let sent = |j: &CookieJar| {
            let header = j.cookies(url).unwrap_or_default();
            let mut parts: Vec<String> = header.split("; ").map(|p| p.to_string()).collect();
            parts.sort();
            parts
        };
        assert_eq!(sent(&jar), sent(&second), "{url}");
    }
}
