use unbrowser::urls::{
    decode_bing, decode_tracker, decode_tracker_url, find_host, find_lower_host, host_of,
    join_on_page, resolve_source, resolve_url, UrlParts,
};

fn page(url: &str) -> Option<String> {
    Some(url.to_string())
}

#[test]
fn hosts_are_found() {
    assert_eq!(find_host("https://EXAMPLE.com/x"), page("example.com"));
    assert_eq!(find_lower_host("foo://EXAMPLE.com/x"), page("example.com"));
    assert_eq!(find_host("foo://EXAMPLE.com/x"), page("EXAMPLE.com"));
    assert_eq!(host_of("foo://EXAMPLE.com/x"), "example.com");
    assert_eq!(find_host("data:x"), None);
    assert_eq!(host_of("nope"), "");
}

#[test]
fn links_are_resolved() {
    let last = page("https://a.com/b/c?d#e");
    assert_eq!(resolve_url(&last, ""), Ok("https://a.com/b/c?d#e".to_string()));
    assert_eq!(resolve_url(&last, "x"), Ok("https://a.com/b/x".to_string()));
    assert_eq!(resolve_url(&last, "../x"), Ok("https://a.com/x".to_string()));
    assert_eq!(resolve_url(&last, "//o.com"), Ok("https://o.com/".to_string()));
    assert_eq!(resolve_url(&last, "?q=1"), Ok("https://a.com/b/c?q=1".to_string()));
    assert_eq!(resolve_url(&None, "HTTP://O.com"), Ok("http://o.com/".to_string()));
    assert_eq!(resolve_url(&last, "mailto:x@y"), Ok("mailto:x@y".to_string()));
}

#[test]
fn links_that_lead_nowhere_are_refused() {
    let none = Err("no current page — call navigate first".to_string());
    assert_eq!(resolve_url(&None, ""), none);
    assert_eq!(resolve_url(&None, "x"), none);
    assert_eq!(
        resolve_url(&page("nope"), "x"),
        Err("base url: relative URL without a base".to_string())
    );
    assert_eq!(
        resolve_url(&page("https://a.com/"), "http://["),
        Err("join 'http://[': invalid IPv6 address".to_string())
    );
}

#[test]
fn sources_are_resolved_or_left_alone() {
    assert_eq!(resolve_source("x.js", "https://a.com/b/"), "https://a.com/b/x.js");
    assert_eq!(resolve_source("x.js", "nope"), "x.js");
    assert_eq!(resolve_source("", "https://a.com/"), "");
    assert_eq!(resolve_source("http://[", "https://a.com/"), "http://[");
    assert_eq!(join_on_page("https://a.com/b", "c"), page("https://a.com/c"));
    assert_eq!(join_on_page("nope", "c"), None);
    assert_eq!(join_on_page("https://a.com", "http://["), None);
}

#[test]
fn result_links_are_decoded() {
    // The payload is the URL in base 64, behind a mark.
    let bing = "https://www.bing.com/ck/a?x=1&u=a1aHR0cHM6Ly9leGFtcGxlLmNvbS8&y=2";
    assert_eq!(decode_tracker(bing), page("https://example.com/"));
    assert_eq!(decode_bing("aHR0cHM6Ly9leGFtcGxlLmNvbS8"), page("https://example.com/"));
    assert_eq!(decode_bing("a1aHR0cHM6Ly9leGFtcGxlLmNvbS8"), page("https://example.com/"));
    assert_eq!(
        decode_tracker("https://www.google.com/url?sa=t&q=https%3A%2F%2Fexample.com%2Fa%3Fb"),
        page("https://example.com/a?b")
    );
    assert_eq!(
        decode_tracker("https://duckduckgo.com/l/?uddg=https%3A%2F%2Fexample.com%2F&rut=1"),
        page("https://example.com/")
    );
}

#[test]
fn other_links_are_not_decoded() {
    assert_eq!(decode_tracker("https://www.bing.com/search?u=a1aHR0cHM"), None);
    assert_eq!(decode_tracker("https://www.bing.com/ck/a?x=1"), None);
    assert_eq!(decode_bing("a1***"), None);
    // Bytes that are no text.
    assert_eq!(decode_bing("a1_w"), None);
    assert_eq!(decode_tracker("https://www.google.com/url?sa=t"), None);
    assert_eq!(decode_tracker("https://example.com/url?q=x"), None);
    // Hosts that only end alike.
    assert_eq!(decode_tracker("https://notgoogle.com/url?q=https%3A%2F%2Fexample.com%2F"), None);
    assert_eq!(decode_tracker("https://notbing.com/ck/a?u=a1aHR0cHM6Ly9leGFtcGxlLmNvbS8"), None);
    assert_eq!(decode_tracker("https://xduckduckgo.com/l/?uddg=https%3A%2F%2Fe.com%2F"), None);
    assert_eq!(decode_tracker("https://google.com/url?q=x"), page("x"));
    assert_eq!(decode_tracker("data:x"), None);
    assert_eq!(decode_tracker("nope"), None);
}

#[test]
fn the_parts_decide() {
    let mut u = UrlParts {
        text: "https://html.duckduckgo.com/l/?uddg=x&uddg=y".to_string(),
        host: page("html.duckduckgo.com"),
        path: "/l/".to_string(),
        query: vec![
            ("a".to_string(), "b".to_string()),
            ("uddg".to_string(), "x".to_string()),
            ("uddg".to_string(), "y".to_string()),
        ],
    };
    assert_eq!(decode_tracker_url(&u), page("x"));
    u.path = "/l".to_string();
    assert_eq!(decode_tracker_url(&u), None);
    u.path = "/l/".to_string();
    u.host = None;
    assert_eq!(decode_tracker_url(&u), None);
}
