use unbrowser::challenge::{detect_challenge, detect_in, INSPECT_HINT, SIGNS, SOLVE_HINT, VENDORS};
use unbrowser::json::{print_json, Json, Number};

fn provider(status: u16, body: &str) -> Option<String> {
    detect_challenge(status, body).map(|c| c.text_at("provider").unwrap().clone())
}

#[test]
fn challenges_are_named() {
    let c = detect_challenge(403, "<title>Just a Moment...</title><div class=CF-Challenge>").unwrap();
    assert_eq!(c.bool_at("blocked"), Some(true));
    assert_eq!(c.text_at("provider").unwrap(), "cloudflare_turnstile");
    assert!(matches!(c.get("confidence"), Some(Json::Number(Number::Float(f))) if f == "0.97"));
    assert_eq!(c.u64_at("status"), Some(403));
    assert_eq!(print_json(c.get("matched").unwrap()), r#"["just a moment","cf-challenge"]"#);
    assert_eq!(c.text_at("clearance_cookie").unwrap(), "cf_clearance");
    assert_eq!(c.text_at("reason").unwrap(), "Matched cloudflare_turnstile challenge signatures.");
    assert_eq!(c.text_at("hint").unwrap(), SOLVE_HINT);
}

#[test]
fn the_surest_is_named() {
    let body = "Pardon our interruption. Checking your browser. Access denied.";
    assert_eq!(provider(200, body), Some("interstitial".to_string()));
    assert_eq!(provider(200, "access denied"), Some("generic_human_verification".to_string()));
    let c = detect_challenge(200, "access denied").unwrap();
    assert!(matches!(c.get("clearance_cookie"), Some(Json::Null)));
}

#[test]
fn every_sign_names_its_service() {
    for (v, sign) in SIGNS {
        let c = detect_in(200, 100, sign).unwrap();
        let named = c.text_at("provider").unwrap();
        let sure = VENDORS.iter().find(|e| e.0 == named).unwrap().1;
        assert!(sure >= VENDORS[v].1, "{sign}");
    }
}

#[test]
fn long_pages_pass() {
    let long = format!("access denied{}", "x".repeat(80_000));
    assert_eq!(provider(200, &long), None);
    assert_eq!(provider(403, &long), Some("generic_human_verification".to_string()));
    let edge = format!("access denied{}", "x".repeat(80_000 - 13));
    assert_eq!(provider(200, &edge), Some("generic_human_verification".to_string()));
}

#[test]
fn short_answers_with_an_odd_status_are_soft_blocks() {
    let c = detect_challenge(403, "nö").unwrap();
    assert_eq!(c.text_at("provider").unwrap(), "unknown_block");
    assert!(matches!(c.get("confidence"), Some(Json::Number(Number::Float(f))) if f == "0.55"));
    assert_eq!(
        c.text_at("reason").unwrap(),
        "Tiny body (3 bytes) on anomalous status 403 with no known vendor signature — likely a soft block."
    );
    assert_eq!(c.text_at("hint").unwrap(), INSPECT_HINT);
    assert_eq!(print_json(c.get("matched").unwrap()), "[]");
    for status in [202, 400, 401, 429, 500, 503] {
        assert!(detect_in(status, 4999, "x").is_some(), "{status}");
        assert!(detect_in(status, 5000, "x").is_none(), "{status}");
    }
    for status in [200, 201, 204, 301, 302, 304, 404, 410] {
        assert!(detect_in(status, 1, "x").is_none(), "{status}");
    }
}

#[test]
fn more_text_makes_no_less_sure() {
    let body = "Access denied.";
    let percent = |b: &str| {
        let named = provider(403, b).unwrap();
        VENDORS.iter().find(|v| v.0 == named).unwrap().1
    };
    for more in ["", " nothing", " Turnstile", " Pardon our interruption", " datadome"] {
        assert!(percent(&format!("{body}{more}")) >= percent(body), "{more}");
    }
    assert_eq!(percent("Access denied. Turnstile"), 97);
}

#[test]
fn the_case_of_letters_is_ignored() {
    for body in ["Just a Moment", "<div>DataDome</div>", "nothing"] {
        for status in [200, 403] {
            assert_eq!(
                detect_challenge(status, body).map(|c| print_json(&c)),
                detect_challenge(status, &body.to_ascii_uppercase()).map(|c| print_json(&c))
            );
        }
    }
}

#[test]
fn nothing_but_the_signs_counts() {
    for (_, sign) in SIGNS {
        let body = format!("\u{c9}T\u{c9} \u{3a3} {sign} \u{3a3}");
        let more = format!("{body}\u{130}\u{212a}\u{3a3}x");
        let named = provider(200, &body);
        assert!(named.is_some(), "{sign}");
        assert_eq!(named, provider(200, sign), "{sign}");
        assert_eq!(named, provider(200, &more), "{sign}");
        assert_eq!(named, provider(200, &body.to_ascii_uppercase()), "{sign}");
    }
}
