use std::collections::HashSet;

use unbrowser::policy::{
    decide, decide_host, entry_count, policy_check_line, Category, Decision, ENTRIES,
};

fn assert_blocked(url: &str, expected_category: Category) {
    let d = decide(url);
    assert!(d.blocked, "expected block for {url}, got allow");
    assert_eq!(d.category, Some(expected_category), "wrong category for {url}");
}

fn assert_allowed(url: &str) {
    let d = decide(url);
    assert!(!d.blocked, "expected allow for {url}, got block ({:?})", d);
}

#[test]
fn analytics_blocked() {
    assert_blocked("https://www.google-analytics.com/analytics.js", Category::Analytics);
    assert_blocked(
        "https://cdn.amplitude.com/libs/amplitude-8.21.4-min.gz.js",
        Category::Analytics,
    );
    assert_blocked("https://api.segment.io/v1/track", Category::Analytics);
    assert_blocked("https://heap.io/", Category::Analytics);
}

#[test]
fn tag_managers_blocked() {
    assert_blocked(
        "https://www.googletagmanager.com/gtm.js?id=GTM-XXXX",
        Category::TagManager,
    );
    assert_blocked("https://assets.adobedtm.com/launch-XXXX.min.js", Category::TagManager);
}

#[test]
fn ads_blocked() {
    assert_blocked("https://securepubads.g.doubleclick.net/tag/js/gpt.js", Category::Ads);
    assert_blocked("https://pub.doubleverify.com/dvbm.js", Category::Ads);
    assert_blocked("https://config.aps.amazon-adsystem.com/foo", Category::Ads);
    assert_blocked("https://cdn.concert.io/lib.js", Category::Ads);
}

#[test]
fn session_replay_blocked() {
    assert_blocked("https://static.hotjar.com/c/hotjar-1234567.js", Category::SessionReplay);
    assert_blocked("https://cdn.logrocket.io/LogRocket.min.js", Category::SessionReplay);
}

#[test]
fn marketing_pixels_blocked() {
    assert_blocked("https://connect.facebook.net/en_US/fbevents.js", Category::MarketingPixel);
    assert_blocked("https://www.facebook.com/tr?id=12345", Category::MarketingPixel);
    assert_blocked(
        "https://snap.licdn.com/li.lms-analytics/insight.min.js",
        Category::MarketingPixel,
    );
    assert_blocked("https://bat.bing.com/bat.js", Category::MarketingPixel);
}

#[test]
fn consent_cmp_blocked() {
    assert_blocked(
        "https://cdn.cookielaw.org/scripttemplates/otSDKStub.js",
        Category::ConsentCmp,
    );
    assert_blocked("https://cdn.ketchjs.com/plugins/v1/tcf/stub.js", Category::ConsentCmp);
}

#[test]
fn error_beacons_blocked() {
    assert_blocked("https://browser.sentry-cdn.com/7.0.0/bundle.min.js", Category::ErrorBeacon);
    assert_blocked("https://js-agent.newrelic.com/nr-1234.min.js", Category::ErrorBeacon);
}

#[test]
fn clean_sites_allowed() {
    assert_allowed("https://news.ycombinator.com/");
    assert_allowed("https://news.ycombinator.com/news.js?abc");
    assert_allowed("https://en.wikipedia.org/wiki/Bayesian_inference");
    assert_allowed("https://upload.wikimedia.org/wikipedia/commons/x.svg");
    // The site's own code is not blocked on commercial sites.
    assert_allowed("https://i.forbesimg.com/simple-site/_next/static/chunks/main-abc.js");
    assert_allowed("https://www.cnbc.com/some-page");
    assert_allowed("https://zephr-templates.cnbc.com/foo");
    assert_allowed("https://assets.zephr.com/foo");
}

#[test]
fn malformed_urls_allowed() {
    assert_allowed("");
    assert_allowed("not a url");
    assert_allowed("javascript:void(0)");
    assert_allowed("data:text/plain,foo");
}

#[test]
fn case_insensitive_hostname() {
    let d = decide("https://WWW.GOOGLE-ANALYTICS.COM/foo");
    assert!(d.blocked);
}

#[test]
fn stealth_safety_no_fingerprinting_hosts() {
    let must_allow = &[
        "https://fpjs.io/v3/abc.js",
        "https://fpcdn.io/v3/abc.js",
        "https://api.fpjs.io/foo",
        "https://fingerprint.com/foo",
        "https://client.perimeterx.net/foo",
        "https://captcha.px-cdn.net/foo",
        "https://js.datado.me/foo",
        "https://geo.captcha-delivery.com/foo",
        "https://api-js.datadome.co/foo",
        "https://www.akamaihd.net/foo",
        "https://challenges.cloudflare.com/turnstile/v0/api.js",
        "https://cdn.cloudflare.com/foo",
        "https://hcaptcha.com/1/api.js",
        "https://www.google.com/recaptcha/api.js",
        "https://www.gstatic.com/recaptcha/foo.js",
        "https://client-api.arkoselabs.com/foo",
        "https://www.imperva.com/foo",
    ];
    for url in must_allow {
        let d = decide(url);
        assert!(!d.blocked, "{url} got blocked ({:?})", d);
    }
}

#[test]
fn entries_are_sane() {
    let mut seen = HashSet::new();
    for (p, _) in ENTRIES {
        assert!(!p.is_empty(), "empty pattern");
        assert_eq!(p.to_lowercase(), p, "non-lowercase pattern: {p}");
        assert!(seen.insert(p), "duplicate pattern: {p}");
    }
}

#[test]
fn counts_its_entries() {
    assert_eq!(entry_count(), 122);
    assert_eq!(entry_count(), ENTRIES.len());
}

#[test]
fn an_entry_that_is_the_host_comes_first() {
    // A subdomain of an entry for analytics that stands further up the list.
    let d = decide("https://stats.g.doubleclick.net/x");
    assert_eq!(d.category, Some(Category::Analytics));
    assert_eq!(d.matched_pattern, Some("stats.g.doubleclick.net"));
    // Any other subdomain goes by the first entry that covers it.
    let d = decide("https://other.g.doubleclick.net/x");
    assert_eq!(d.category, Some(Category::Ads));
    assert_eq!(d.matched_pattern, Some("doubleclick.net"));
}

#[test]
fn a_path_pattern_covers_urls_of_any_host() {
    let host = Some("example.org".to_string());
    let d = decide_host(&host, "https://example.org/?next=facebook.com/tr");
    assert!(d.blocked);
    assert_eq!(d.matched_pattern, Some("facebook.com/tr"));
    assert!(!decide_host(&None, "facebook.com/tr").blocked);
    assert!(!decide_host(&Some("notheap.io".to_string()), "https://notheap.io/").blocked);
    assert!(decide_host(&Some("a.b.heap.io".to_string()), "https://a.b.heap.io/").blocked);
}

#[test]
fn decisions_hold_what_they_say() {
    let a = Decision::allow();
    assert!(!a.blocked && a.category.is_none() && a.matched_pattern.is_none());
    let b = Decision::block(Category::Ads, "adnxs.com");
    assert!(b.blocked);
    assert_eq!(b.category, Some(Category::Ads));
    assert_eq!(b.matched_pattern, Some("adnxs.com"));
}

#[test]
fn categories_have_names() {
    let names = [
        (Category::Analytics, "analytics"),
        (Category::Ads, "ads"),
        (Category::SessionReplay, "session_replay"),
        (Category::ErrorBeacon, "error_beacon"),
        (Category::MarketingPixel, "marketing_pixel"),
        (Category::TagManager, "tag_manager"),
        (Category::ConsentCmp, "consent_cmp"),
    ];
    for (c, n) in names {
        assert_eq!(c.as_str(), n);
    }
}

#[test]
fn lines_describe_decisions() {
    assert_eq!(
        policy_check_line("https://CDN.heap.io/x"),
        "block\tanalytics\theap.io\tcdn.heap.io\thttps://CDN.heap.io/x"
    );
    assert_eq!(
        policy_check_line("https://example.org/x"),
        "allow\t-\t-\texample.org\thttps://example.org/x"
    );
    assert_eq!(policy_check_line("nope"), "allow\t-\t-\t<unparsed>\tnope");
}
