use unbrowser::html::{ScriptItem, ScriptKind};
use unbrowser::json::print_json;
use unbrowser::policy::Decision;
use unbrowser::prefit::DomainPrefit;
use unbrowser::scripts::{
    accepts_script, assemble, describe_failure, plan_scripts, script_fate, script_route, shorten,
    skip_reports, sort_fetches, FetchFailure, RunTally, ScriptFate, ScriptRoute, Source,
};

fn external(url: &str, kind: ScriptKind) -> ScriptItem {
    ScriptItem::External { url: url.to_string(), kind }
}

fn inline(code: &str) -> ScriptItem {
    ScriptItem::Inline(code.to_string())
}

fn site() -> DomainPrefit {
    DomainPrefit {
        domain: "site.com".to_string(),
        framework: None,
        blocklist_additions: vec!["own-tracker.com".to_string()],
        required_patterns: vec!["/needed/".to_string()],
        settle_distribution: None,
        shape_hint: None,
        posteriors: vec![],
    }
}

const TRACKER: &str = "https://www.google-analytics.com/analytics.js";
const OWN: &str = "https://cdn.own-tracker.com/t.js";

#[test]
fn blocked_scripts_are_skipped() {
    let p = site();
    let fate = |url: &str, blocking: bool, prefit: Option<&DomainPrefit>| {
        script_fate(&external(url, ScriptKind::Sync), blocking, prefit)
    };
    assert!(matches!(fate(TRACKER, true, None), ScriptFate::Blocked(d) if d.blocked));
    assert!(matches!(fate(TRACKER, false, Some(&p)), ScriptFate::Fetch));
    assert!(matches!(fate(OWN, true, Some(&p)), ScriptFate::PrefitBlocked(d) if d == "site.com"));
    assert!(matches!(fate(OWN, true, None), ScriptFate::Fetch));
    assert!(matches!(fate(OWN, false, Some(&p)), ScriptFate::Fetch));
    assert!(matches!(script_fate(&inline("1"), true, Some(&p)), ScriptFate::Inline));
}

#[test]
fn needed_scripts_are_fetched() {
    let p = site();
    for url in [
        "https://www.google-analytics.com/needed/analytics.js",
        "https://own-tracker.com/needed/x.js",
    ] {
        let item = external(url, ScriptKind::Async);
        assert!(matches!(script_fate(&item, true, Some(&p)), ScriptFate::Fetch));
    }
    assert!(p.needs("https://a.com/needed/b"));
    assert!(!p.needs("https://a.com/needed"));
}

#[test]
fn skips_are_told() {
    let p = site();
    let items = vec![
        external(TRACKER, ScriptKind::Async),
        external(OWN, ScriptKind::Sync),
        external("https://a.com/x.js", ScriptKind::Sync),
        inline("1"),
    ];
    let fates = plan_scripts(&items, true, Some(&p));
    assert_eq!(fates.len(), 4);
    let told: Vec<Vec<String>> = (0..4)
        .map(|i| {
            skip_reports("nav_1", i, &items[i], &fates[i])
                .iter()
                .map(|e| format!("{} {}", e.name, print_json(&e.data)))
                .collect()
        })
        .collect();
    assert_eq!(
        told[0],
        vec![
            r#"script_decision {"action":"skip","category":"analytics","host":"www.google-analytics.com","kind":"async","matched":"www.google-analytics.com","navigation_id":"nav_1","reason":"blocklist","schema_version":1,"script_id":0,"url":"https://www.google-analytics.com/analytics.js"}"#,
            r#"policy_blocked {"category":"analytics","kind":"static_script","matched":"www.google-analytics.com","url":"https://www.google-analytics.com/analytics.js"}"#,
        ]
    );
    assert_eq!(
        told[1],
        vec![
            r#"script_decision {"action":"skip","domain":"site.com","host":"cdn.own-tracker.com","kind":"sync","navigation_id":"nav_1","reason":"prefit_blocklist","schema_version":1,"script_id":1,"url":"https://cdn.own-tracker.com/t.js"}"#,
        ]
    );
    assert!(told[2].is_empty());
    assert!(told[3].is_empty());
}

#[test]
fn waiting_scripts_run_last() {
    let items = vec![
        external("https://a.com/0.js", ScriptKind::Async),
        inline("1"),
        external("https://a.com/2.js", ScriptKind::Sync),
        external("https://a.com/3.js", ScriptKind::Sync),
        external("https://a.com/4.js", ScriptKind::Async),
        external(TRACKER, ScriptKind::Sync),
    ];
    let fates = vec![
        ScriptFate::Fetch,
        ScriptFate::Inline,
        ScriptFate::Fetch,
        ScriptFate::Fetch,
        ScriptFate::Fetch,
        ScriptFate::Blocked(Decision::allow()),
    ];
    let bodies = vec![
        Some("zero".to_string()),
        None,
        Some("two".to_string()),
        None,
        Some("four".to_string()),
        None,
    ];
    let a = assemble("nav_2", &items, &fates, &bodies);
    let order: Vec<(usize, &str, &str)> =
        a.sources.iter().map(|s| (s.id, s.kind, s.body.as_str())).collect();
    assert_eq!(
        order,
        vec![
            (1, "inline", "1"),
            (2, "sync", "two"),
            (0, "async", "zero"),
            (4, "async", "four"),
        ]
    );
    assert_eq!(a.sources[0].url, None);
    assert_eq!(a.sources[1].url, Some("https://a.com/2.js".to_string()));
    assert_eq!(
        (a.inline_count, a.external_count, a.async_count, a.policy_blocked, a.fetch_failed),
        (1, 3, 2, 1, 1)
    );
    let actions: Vec<(u64, String)> = a
        .events
        .iter()
        .map(|e| {
            assert_eq!(e.name, "script_decision");
            (e.data.u64_at("script_id").unwrap(), e.data.text_at("action").unwrap().clone())
        })
        .collect();
    assert_eq!(
        actions,
        vec![
            (0, "queued".to_string()),
            (2, "queued".to_string()),
            (3, "fetch_failed".to_string()),
            (4, "queued".to_string()),
        ]
    );
}

#[test]
fn fetches_are_parted() {
    let items = vec![
        external("https://a.com/0.js", ScriptKind::Async),
        inline("1"),
        external("https://a.com/2.js", ScriptKind::Sync),
        external(TRACKER, ScriptKind::Sync),
        external("https://a.com/4.js", ScriptKind::Sync),
    ];
    let fates = vec![
        ScriptFate::Fetch,
        ScriptFate::Inline,
        ScriptFate::Fetch,
        ScriptFate::Blocked(Decision::allow()),
        ScriptFate::Fetch,
    ];
    let results = vec![
        Some(Err(FetchFailure::Timeout(8000))),
        None,
        Some(Ok("two".to_string())),
        None,
        Some(Err(FetchFailure::Send("e".to_string()))),
    ];
    let (bodies, errors) = sort_fetches(&items, &fates, &results);
    assert_eq!(bodies, vec![None, None, Some("two".to_string()), None, None]);
    assert_eq!(
        errors,
        vec!["timeout 8000ms fetching https://a.com/0.js", "fetch https://a.com/4.js: e"]
    );
    let a = assemble("nav_1", &items, &fates, &bodies);
    assert_eq!(a.fetch_failed, errors.len());
    let mut tally = RunTally::new();
    for (i, s) in a.sources.iter().enumerate() {
        let error = if i == 0 { Some("interrupted".to_string()) } else { None };
        tally.note("nav_1", s, 1, &error);
    }
    assert_eq!(tally.executed + tally.errors.len(), a.inline_count + a.external_count);
    assert_eq!((tally.executed, tally.interrupted, tally.errors.len()), (1, 1, 1));
}

#[test]
fn only_good_answers_are_scripts() {
    assert!(accepts_script(200));
    assert!(accepts_script(299));
    assert!(!accepts_script(199));
    assert!(!accepts_script(304));
    let say = |f: FetchFailure| describe_failure(&f, "https://a.com/x.js");
    assert_eq!(
        say(FetchFailure::Status("404 Not Found".to_string())),
        "status 404 Not Found fetching https://a.com/x.js"
    );
    assert_eq!(say(FetchFailure::Read("e".to_string())), "read https://a.com/x.js: e");
    assert_eq!(say(FetchFailure::Send("e".to_string())), "fetch https://a.com/x.js: e");
    assert_eq!(say(FetchFailure::Timeout(8000)), "timeout 8000ms fetching https://a.com/x.js");
    assert_eq!(say(FetchFailure::Broke("e".to_string())), "task panicked: e");
}

fn source(url: Option<&str>, body: &str) -> Source {
    Source { id: 7, kind: "sync", url: url.map(|u| u.to_string()), body: body.to_string() }
}

#[test]
fn modules_have_a_way_of_their_own() {
    let route = |url: Option<&str>, body: &str| match script_route(&source(url, body)) {
        ScriptRoute::Module(c) => format!("module {c}"),
        ScriptRoute::Classic(n) => format!("classic {n}"),
    };
    assert_eq!(route(None, "import 'x'"), "module __loadModule(\"import 'x'\", \"\")");
    assert_eq!(
        route(Some("https://a.com/m.js"), "export {}"),
        "module __loadModule(\"export {}\", \"https://a.com/m.js\")"
    );
    assert_eq!(route(None, "1"), "classic inline");
    assert_eq!(route(Some("https://a.com/c.js"), "1"), "classic https://a.com/c.js");
}

#[test]
fn long_errors_are_shortened() {
    let long = "x".repeat(201);
    assert_eq!(shorten(&long), format!("{}…", "x".repeat(200)));
    let edge = "x".repeat(200);
    assert_eq!(shorten(&edge), edge);
    assert_eq!(shorten(&"ä".repeat(150)), format!("{}…", "ä".repeat(100)));
    // The byte limit falls inside a character.
    assert_eq!(shorten(&format!("x{}", "ä".repeat(150))), format!("x{}…", "ä".repeat(99)));
    assert_eq!(shorten(&"€".repeat(100)), format!("{}…", "€".repeat(66)));
}

#[test]
fn runs_are_tallied() {
    let mut t = RunTally::new();
    let e = t.note("nav_1", &source(None, "1"), 5, &None);
    assert_eq!(e.name, "script_executed");
    assert_eq!(
        print_json(&e.data),
        r#"{"duration_us":5,"error":null,"interrupted":false,"kind":"sync","navigation_id":"nav_1","schema_version":1,"script_id":7,"url":null}"#
    );
    let e = t.note("nav_1", &source(Some("u"), "1"), 6, &Some("InternalError: interrupted".to_string()));
    assert_eq!(e.data.bool_at("interrupted"), Some(true));
    assert_eq!(e.data.text_at("url").unwrap(), "u");
    let e = t.note("nav_1", &source(None, "1"), 6, &Some("TypeError".to_string()));
    assert_eq!(e.data.bool_at("interrupted"), Some(false));
    assert_eq!((t.executed, t.interrupted), (1, 1));
    assert_eq!(t.errors, vec!["InternalError: interrupted", "TypeError"]);
}
