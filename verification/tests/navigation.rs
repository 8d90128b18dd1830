use unbrowser::json::{object, parse_json, print_json, Json};
use unbrowser::navigation::{
    auto_extract, copy_entries, holds_data, inline_data, keeps_fetch, keeps_page, navigation_started,
    next_nav_step, policy_trace, prefit_applied, prefit_for, read_headers, rest_in, settle_exit, NavIds,
    NavResult, NavStep, ScriptSummary, Watchdog, MAX_INLINE_EXTRACT_BYTES, SCRIPT_EVAL_BUDGET_MS,
};
use unbrowser::outcome::validate_outcome;
use unbrowser::prefit::{DomainPrefit, PrefitBundle, SettleDistribution};
use unbrowser::scripts::{assemble, RunTally, Source};

fn j(text: &str) -> Json {
    parse_json(text).unwrap()
}

#[test]
fn navigations_are_numbered() {
    let mut ids = NavIds::new();
    assert!(!ids.nav_id_is_known("nav_1"));
    assert_eq!(ids.next_nav_id(), "nav_1");
    assert_eq!(ids.next_nav_id(), "nav_2");
    assert!(!ids.nav_id_is_known("nav_1") && !ids.nav_id_is_known("nav_2"));
    ids.start("nav_2");
    assert!(!ids.nav_id_is_known("nav_1") && ids.nav_id_is_known("nav_2"));
    ids.start("nav_1");
    for known in ["nav_1", "nav_2"] {
        assert!(ids.nav_id_is_known(known));
    }
    for unknown in ["", "nav_", "nav_0", "nav_3", "nav_01", "nav_+1", "NAV_1", "nav_1 ", "1"] {
        assert!(!ids.nav_id_is_known(unknown), "{unknown}");
    }
}

#[test]
fn the_time_for_code_is_bounded() {
    let mut w = Watchdog::new();
    assert!(!w.interrupts(u64::MAX));
    let outer = w.set_eval_deadline_from_now(1000, 30_000);
    assert_eq!(outer, 0);
    assert!(!w.interrupts(30_999));
    assert!(w.interrupts(31_000));
    let before = w.set_eval_deadline_from_now(2000, SCRIPT_EVAL_BUDGET_MS);
    assert!(w.interrupts(7000));
    let suspended = w.suspend();
    assert!(!w.interrupts(7000));
    w.restore_eval_deadline(suspended);
    assert!(w.interrupts(7000));
    w.restore_eval_deadline(before);
    assert!(!w.interrupts(7000));
    assert_eq!(w.deadline_ms, 31_000);
    w.set_eval_deadline_from_now(u64::MAX, 1);
    assert_eq!(w.deadline_ms, u64::MAX);
    assert_eq!(w.set_eval_deadline_from_now(1000, 0), u64::MAX);
    assert_eq!(w.deadline_ms, 0);
    assert!(!w.interrupts(u64::MAX));
}

#[test]
fn headers_are_joined() {
    let h: Vec<(String, String)> = [("Set-Cookie", "a=1"), ("X", "y"), ("set-cookie", "b=2")]
        .iter()
        .map(|(n, v)| (n.to_string(), v.to_string()))
        .collect();
    let (joined, flat) = read_headers(&h);
    assert_eq!(print_json(&object(joined)), r#"{"set-cookie":"a=1 || b=2","x":"y"}"#);
    assert_eq!(print_json(&object(copy_entries(&flat))), r#"{"set-cookie":"b=2","x":"y"}"#);
}

#[test]
fn good_responses_are_kept() {
    assert!(keeps_page(200, "x"));
    assert!(keeps_page(399, "x"));
    assert!(!keeps_page(400, "x"));
    assert!(!keeps_page(200, ""));
    assert!(keeps_fetch(&None, "x"));
    assert!(!keeps_fetch(&None, ""));
    assert!(!keeps_fetch(&Some("e".to_string()), "x"));
}

fn steps(exec: bool, status: u16, has_data: bool) -> Vec<NavStep> {
    let mut out = vec![NavStep::Send];
    while out[out.len() - 1] != NavStep::Done {
        let failure = match out[out.len() - 1] {
            NavStep::Send | NavStep::ReadBody | NavStep::Seed => None,
            _ => Some("whatever".to_string()),
        };
        let next = next_nav_step(out[out.len() - 1], &failure, exec, status, has_data).unwrap();
        out.push(next);
    }
    out
}

#[test]
fn navigations_run_their_course() {
    assert_eq!(
        steps(true, 200, true),
        vec![
            NavStep::Send,
            NavStep::ReadBody,
            NavStep::Seed,
            NavStep::Start,
            NavStep::FetchScripts,
            NavStep::RunScripts,
            NavStep::FireReady,
            NavStep::SettleReady,
            NavStep::FireLoad,
            NavStep::SettleLoad,
            NavStep::Trace,
            NavStep::MapBlocks,
            NavStep::Extract,
            NavStep::Finish,
            NavStep::Done,
        ]
    );
    let short = vec![
        NavStep::Send,
        NavStep::ReadBody,
        NavStep::Seed,
        NavStep::Start,
        NavStep::Trace,
        NavStep::MapBlocks,
        NavStep::Finish,
        NavStep::Done,
    ];
    assert_eq!(steps(false, 200, false), short);
    assert_eq!(steps(true, 404, false), short);
}

#[test]
fn navigations_fail_before_they_start() {
    let e = Some("e".to_string());
    let fails = |s: NavStep| next_nav_step(s, &e, true, 200, true).unwrap_err();
    assert_eq!(fails(NavStep::Send), "http send");
    assert_eq!(fails(NavStep::ReadBody), "read body");
    assert_eq!(fails(NavStep::Seed), "seed dom: e");
}

fn known() -> DomainPrefit {
    DomainPrefit {
        domain: "site.com".to_string(),
        framework: Some("next".to_string()),
        blocklist_additions: vec!["t.com".to_string()],
        required_patterns: vec![],
        settle_distribution: Some(SettleDistribution { p50_ms: 1, p90_ms: 2, p95_ms: 3 }),
        shape_hint: None,
        posteriors: vec![],
    }
}

#[test]
fn what_is_known_is_applied() {
    let b = Some(PrefitBundle {
        schema_version: 1,
        fit_timestamp: 0,
        fit_corpus_size: 0,
        training_pipeline_version: "t".to_string(),
        domains: vec![("site.com".to_string(), known())],
        framework_priors: vec![],
    });
    assert!(prefit_for(&b, "https://www.site.com/x").is_some());
    assert!(prefit_for(&b, "https://other.com/x").is_none());
    assert!(prefit_for(&b, "nope").is_none());
    assert!(prefit_for(&None, "https://site.com/").is_none());
    let e = prefit_applied("nav_1", &known());
    assert_eq!(e.name, "prefit_applied");
    assert_eq!(
        print_json(&e.data),
        r#"{"blocklist_additions":1,"domain":"site.com","framework":"next","navigation_id":"nav_1","schema_version":1,"settle_distribution":{"p50_ms":1,"p90_ms":2,"p95_ms":3},"shape_hint":null}"#
    );
}

#[test]
fn events_carry_the_navigation() {
    let e = navigation_started("nav_1", "https://a.com/", 200, 9, true, false);
    assert_eq!(e.name, "navigation_started");
    assert_eq!(
        print_json(&e.data),
        r#"{"bytes":9,"exec_scripts":true,"navigation_id":"nav_1","policy_block":false,"schema_version":1,"status":200,"url":"https://a.com/"}"#
    );
    let e = settle_exit("nav_1", "after_dcl", &j(r#"{"reason":"idle"}"#));
    assert_eq!(
        e.line(),
        r#"{"data":{"navigation_id":"nav_1","phase":"after_dcl","result":{"reason":"idle"},"schema_version":1},"event":"settle_exit"}"#
    );
    let e = policy_trace("nav_1", "https://a.com/", true, &None, 12);
    assert_eq!(e.name, "policy_trace");
    assert_eq!(
        print_json(&e.data),
        r#"{"elapsed_ms":12,"navigation_id":"nav_1","policy_block":true,"schema_version":1,"scripts":null,"settle":null,"url":"https://a.com/"}"#
    );
}

#[test]
fn runs_are_summed_up() {
    let mut tally = RunTally::new();
    let s = Source { id: 0, kind: "inline", url: None, body: "1".to_string() };
    let mut n = 0;
    while n < 11 {
        tally.note("nav_1", &s, 1, &Some(format!("e{n}")));
        n += 1;
    }
    tally.note("nav_1", &s, 1, &None);
    let summary = ScriptSummary {
        assembly: assemble("nav_1", &vec![], &vec![], &vec![]),
        tally,
        fetch_errors: vec!["f".to_string()],
        after_dcl: Some(j("{}")),
        after_load: None,
    };
    let v = summary.to_value();
    assert_eq!(v.u64_at("executed"), Some(1));
    assert_eq!(v.u64_at("errors_count"), Some(11));
    assert_eq!(v.array_at("errors").unwrap().len(), 10);
    assert_eq!(v.u64_at("fetch_errors_count"), Some(1));
    assert!(matches!(v.get("settle_after_load"), Some(Json::Null)));
    let e = policy_trace("nav_1", "u", false, &Some(summary), 1);
    assert_eq!(
        print_json(e.data.get("scripts").unwrap()),
        r#"{"async":0,"executed":1,"external":0,"fetch_failed":0,"inline":0,"interrupted":0,"skipped_blocklist":0}"#
    );
    assert_eq!(
        print_json(e.data.get("settle").unwrap()),
        r#"{"after_dcl":{},"after_load":null}"#
    );
}

#[test]
fn data_is_inlined_up_to_a_cap() {
    assert!(holds_data(&j(r#"{"density":{"json_scripts":1}}"#)));
    assert!(!holds_data(&j(r#"{"density":{"json_scripts":0}}"#)));
    assert!(!holds_data(&j(r#"{"density":{}}"#)));
    assert!(!holds_data(&j("null")));
    let d = j(r#"{"strategy":"json_ld","confidence":0.9,"data":[1]}"#);
    assert_eq!(print_json(&inline_data(&d, MAX_INLINE_EXTRACT_BYTES)), print_json(&d));
    assert_eq!(
        print_json(&inline_data(&d, MAX_INLINE_EXTRACT_BYTES + 1)),
        r#"{"confidence":0.9,"data":null,"hint":"extract result 262145 bytes exceeds 262144 byte inline cap; call extract() to retrieve full data","size_bytes":262145,"strategy":"json_ld","truncated":true}"#
    );
    assert_eq!(print_json(&auto_extract(&d)), print_json(&d));
    let big = j(&format!("{{\"data\":\"{}\"}}", "x".repeat(262144)));
    let cut = auto_extract(&big);
    assert_eq!(cut.u64_at("size_bytes"), Some(262144 + 11));
    assert!(matches!(cut.get("strategy"), Some(Json::Null)));
}

#[test]
fn navigations_are_answered() {
    let n = NavResult {
        navigation_id: "nav_1".to_string(),
        status: 200,
        url: "https://a.com/".to_string(),
        bytes: 9,
        headers: vec![("x".to_string(), j("\"y\""))],
        blockmap: j("{}"),
        challenge: None,
        scripts: Some(j(r#"{"executed":3,"interrupted":1}"#)),
        extract: None,
        extract_error: Some("e".to_string()),
        network_stores: None,
    };
    assert_eq!(
        print_json(&n.to_value()),
        r#"{"blockmap":{},"bytes":9,"challenge":null,"extract":null,"headers":{"x":"y"},"navigation_id":"nav_1","network_stores":null,"scripts":{"executed":3,"interrupted":1},"status":200,"url":"https://a.com/"}"#
    );
    let e = n.event(12, true);
    assert_eq!(e.name, "navigate");
    assert_eq!(
        print_json(&e.data),
        r#"{"auto_extract_confidence":null,"auto_extract_error":"e","auto_extract_strategy":null,"auto_extract_truncated":null,"bytes":9,"elapsed_ms":12,"exec_scripts":true,"scripts_executed":3,"scripts_interrupted":1,"status":200,"url":"https://a.com/"}"#
    );
}

#[test]
fn outcomes_are_told() {
    let mut ids = NavIds::new();
    ids.next_nav_id();
    ids.start("nav_1");
    let e = validate_outcome(
        &ids,
        &j(r#"{"success":true,"quality":1,"task_class":"form","task_id":"t","error":null}"#),
        "nav_1",
    )
    .unwrap();
    assert_eq!(e.name, "outcome_reported");
    assert_eq!(
        print_json(&e.data),
        r#"{"error":null,"navigation_id":"nav_1","quality":1.0,"schema_version":1,"success":true,"task_class":"form","task_id":"t"}"#
    );
    let e = validate_outcome(&ids, &j(r#"{"success":false,"task_class":null}"#), "nav_1").unwrap();
    assert!(matches!(e.data.get("quality"), Some(Json::Null)));
    assert!(matches!(e.data.get("task_class"), Some(Json::Null)));
}

#[test]
fn outcomes_are_refused() {
    let mut ids = NavIds::new();
    ids.next_nav_id();
    ids.start("nav_1");
    // Drawn, and never started.
    ids.next_nav_id();
    let err = |params: &str, id: &str| validate_outcome(&ids, &j(params), id).unwrap_err();
    assert_eq!(err(r#"{"success":true}"#, ""), "missing 'navigation_id' param");
    assert_eq!(
        err(r#"{"success":true}"#, "nav_2"),
        "unknown navigation_id 'nav_2' — never issued by this session"
    );
    assert_eq!(err("{}", "nav_1"), "missing required 'success' param");
    assert_eq!(err(r#"{"success":1}"#, "nav_1"), "'success' must be boolean");
    assert_eq!(err(r#"{"success":true,"quality":"high"}"#, "nav_1"), "'quality' must be number");
    assert_eq!(err(r#"{"success":true,"task_id":7}"#, "nav_1"), "'task_id' must be string");
    assert_eq!(err(r#"{"success":true,"error":[]}"#, "nav_1"), "'error' must be string");
    assert_eq!(err(r#"{"success":true,"task_class":1}"#, "nav_1"), "'task_class' must be string");
    assert_eq!(
        err(r#"{"success":true,"task_class":"x"}"#, "nav_1"),
        "'task_class' must be one of [\"extract\", \"query\", \"click\", \"form\", \"visual\"], got 'x'"
    );
}

#[test]
fn pages_have_time_to_rest() {
    assert_eq!(rest_in(NavStep::SettleReady), Some((2000, 100, "after_dcl")));
    assert_eq!(rest_in(NavStep::SettleLoad), Some((1500, 50, "after_load")));
    assert_eq!(rest_in(NavStep::Trace), None);
}
