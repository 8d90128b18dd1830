use unbrowser::json::{parse_json, Json, Number};
use unbrowser::prefit::{
    decide_sampled, reaches, BetaPosterior, DomainPrefit, PrefitBundle, MAX_SUPPORTED_SCHEMA,
};

fn number(x: f64) -> Number {
    Number::Float(format!("{x:?}"))
}

fn posterior(alpha: f64, beta: f64, n: u64) -> BetaPosterior {
    BetaPosterior { alpha: number(alpha), beta: number(beta), n }
}

fn same_posterior(a: &BetaPosterior, b: &BetaPosterior) -> bool {
    format!("{a:?}") == format!("{b:?}")
}

fn domain(name: &str) -> DomainPrefit {
    DomainPrefit {
        domain: name.to_string(),
        framework: None,
        blocklist_additions: vec![],
        required_patterns: vec![],
        settle_distribution: None,
        shape_hint: None,
        posteriors: vec![],
    }
}

fn bundle(schema_version: u32, domains: Vec<(String, DomainPrefit)>) -> PrefitBundle {
    PrefitBundle {
        schema_version,
        fit_timestamp: 0,
        fit_corpus_size: 0,
        training_pipeline_version: "test".to_string(),
        domains,
        framework_priors: vec![],
    }
}

fn make_bundle_with_posterior(
    name: &str,
    key: &str,
    post: BetaPosterior,
    schema: u32,
) -> PrefitBundle {
    let mut d = domain(name);
    d.posteriors.push((key.to_string(), post));
    bundle(schema, vec![(name.to_string(), d)])
}

#[test]
fn lookup_suffix_match() {
    let b = bundle(1, vec![("example.com".to_string(), domain("example.com"))]);
    assert!(b.lookup_domain("example.com").is_some());
    assert!(b.lookup_domain("www.example.com").is_some());
    assert!(b.lookup_domain("api.example.com").is_some());
    assert!(b.lookup_domain("notexample.com").is_none());
    assert!(b.lookup_domain("example.org").is_none());
}

#[test]
fn lookup_prefers_the_host_itself() {
    let b = bundle(
        1,
        vec![
            ("example.com".to_string(), domain("parent")),
            ("www.example.com".to_string(), domain("own")),
        ],
    );
    assert_eq!(b.lookup_domain("WWW.Example.com").unwrap().domain, "own");
    assert_eq!(b.lookup_domain("x.www.example.com").unwrap().domain, "parent");
    assert_eq!(b.domain_count(), 2);
}

#[test]
fn matches_blocklist_addition_works() {
    let mut p = domain("site.com");
    p.blocklist_additions.push("bad-tracker.com".to_string());
    let b = bundle(1, vec![]);
    assert!(b.matches_blocklist_addition(&p, "https://bad-tracker.com/foo"));
    assert!(b.matches_blocklist_addition(&p, "https://cdn.bad-tracker.com/foo"));
    assert!(!b.matches_blocklist_addition(&p, "https://good-site.com/foo"));
}

#[test]
fn additions_are_compared_in_lowercase() {
    let mut p = domain("site.com");
    p.blocklist_additions.push("Bad-Tracker.COM".to_string());
    assert!(p.blocks("https://BAD-tracker.com/foo"));
    assert!(!p.blocks("not a url"));
    assert!(!p.blocks("data:text/plain,bad-tracker.com"));
}

#[test]
fn lookup_posterior_exact_and_suffix() {
    let b = make_bundle_with_posterior("cnbc.com", "block:zephr.com", posterior(9.0, 1.0, 9), 2);
    let post = posterior(9.0, 1.0, 9);
    let got = b.lookup_posterior("cnbc.com", "block:zephr.com").unwrap();
    assert!(same_posterior(&got, &post));
    let got = b.lookup_posterior("www.cnbc.com", "block:zephr.com").unwrap();
    assert!(same_posterior(&got, &post));
    assert!(b.lookup_posterior("cnbc.com", "block:other.com").is_none());
    assert!(b.lookup_posterior("nbcnews.com", "block:zephr.com").is_none());
}

#[test]
fn decide_returns_false_for_unknown() {
    let b = make_bundle_with_posterior("x.com", "block:y.com", posterior(1.0, 1.0, 0), 2);
    let half = 0.5f64.to_bits();
    for drawn in [0.0f64, 0.25, 0.5, 0.75, 1.0] {
        assert!(!b.decide("no-such-domain.invalid", "block:y.com", drawn.to_bits(), half));
        assert!(!b.decide("x.com", "block:no-such-decision", drawn.to_bits(), half));
    }
}

#[test]
fn decisions_go_by_the_sample() {
    let b = make_bundle_with_posterior("x.com", "block:y.com", posterior(1.0, 1.0, 1), 2);
    let half = 0.5f64.to_bits();
    assert!(b.decide("x.com", "block:y.com", 0.75f64.to_bits(), half));
    assert!(b.decide("x.com", "block:y.com", half, half));
    assert!(!b.decide("x.com", "block:y.com", 0.25f64.to_bits(), half));
    let o = b.decide_traced("x.com", "block:y.com", 0.75f64.to_bits(), half);
    assert!(o.blocked);
    assert_eq!(o.sampled, Some(0.75f64.to_bits()));
    assert_eq!(o.threshold, half);
    assert!(same_posterior(&o.posterior.unwrap(), &posterior(1.0, 1.0, 1)));
    let none = decide_sampled(None, 0.75f64.to_bits(), half);
    assert!(!none.blocked && none.sampled.is_none() && none.posterior.is_none());
}

#[test]
fn placeholders_decide_nothing() {
    let b = make_bundle_with_posterior("x.com", "block:y.com", posterior(1.0, 1.0, 0), 2);
    let half = 0.5f64.to_bits();
    for drawn in [0.0f64, 0.5, 1.0] {
        assert!(!b.decide("x.com", "block:y.com", drawn.to_bits(), half));
        let o = b.decide_traced("x.com", "block:y.com", drawn.to_bits(), half);
        assert!(!o.blocked && o.sampled.is_none() && o.posterior.is_some());
    }
}

#[test]
fn decide_seeded_is_deterministic() {
    let b = make_bundle_with_posterior("a.com", "block:t.com", posterior(90.0, 10.0, 100), 2);
    let half = 0.5f64.to_bits();
    for i in 1..=20 {
        // Draws around the mean of the posterior, nine tenths.
        let drawn = (0.8 + 0.0075 * f64::from(i)).to_bits();
        assert_eq!(
            b.decide("a.com", "block:t.com", drawn, half),
            b.decide("a.com", "block:t.com", drawn, half)
        );
        assert!(b.decide("a.com", "block:t.com", drawn, half));
        assert!(!b.decide("a.com", "block:t.com", drawn, 0.999_999f64.to_bits()));
    }
}

#[test]
fn doubles_are_compared_by_their_bits() {
    let values = [
        f64::NEG_INFINITY,
        -2.5,
        -1.0,
        -f64::MIN_POSITIVE,
        -0.0,
        0.0,
        5e-324,
        0.5,
        1.0,
        2.5,
        f64::MAX,
        f64::INFINITY,
        f64::NAN,
        -f64::NAN,
    ];
    for a in values {
        for b in values {
            assert_eq!(reaches(a.to_bits(), b.to_bits()), a >= b, "{a} >= {b}");
        }
    }
}

#[test]
fn v1_bundle_loads_with_empty_posteriors() {
    let v1 = r#"{
            "schema_version": 1,
            "fit_timestamp": 0,
            "fit_corpus_size": 0,
            "training_pipeline_version": "test-v1",
            "domains": {
                "v1site.com": {
                    "domain": "v1site.com",
                    "blocklist_additions": ["x.com"],
                    "required_patterns": [],
                    "settle_distribution": {"p50_ms": 100, "p90_ms": 200, "p95_ms": 400}
                }
            },
            "framework_priors": {}
        }"#;
    let b = PrefitBundle::from_json(v1).expect("v1 should parse");
    assert_eq!(b.schema_version, 1);
    let dom = b.lookup_domain("v1site.com").unwrap();
    assert!(dom.posteriors.is_empty());
    assert_eq!(dom.settle_distribution.unwrap().p95_ms, 400);
    assert!(b.lookup_posterior("v1site.com", "block:x.com").is_none());
}

#[test]
fn v2_bundle_round_trips_posteriors() {
    let b = make_bundle_with_posterior("z.com", "block:t.com", posterior(12.0, 2.0, 14), 2);
    let s = b.to_json();
    let back = PrefitBundle::from_json(&s).expect("v2 round-trip");
    let got = back.lookup_posterior("z.com", "block:t.com").unwrap();
    assert!(same_posterior(&got, &posterior(12.0, 2.0, 14)));
}

#[test]
fn values_round_trip() {
    let mut d = domain("a.com");
    d.framework = Some("next".to_string());
    d.blocklist_additions = vec!["t.com".to_string(), "u.com".to_string()];
    d.posteriors.push(("block:t.com".to_string(), posterior(1.5, 2.5, 3)));
    let b = bundle(2, vec![("b.com".to_string(), domain("b.com")), ("a.com".to_string(), d)]);
    let back = PrefitBundle::from_value(&b.to_value()).unwrap();
    assert_eq!(format!("{back:?}"), format!("{b:?}"));
}

#[test]
fn unsupported_schema_version_rejected() {
    let too_new = format!(
        r#"{{
                "schema_version": {},
                "fit_timestamp": 0,
                "fit_corpus_size": 0,
                "training_pipeline_version": "future",
                "domains": {{}},
                "framework_priors": {{}}
            }}"#,
        MAX_SUPPORTED_SCHEMA + 1
    );
    assert!(PrefitBundle::from_json(&too_new).is_none());
    let too_old = too_new.replace("\"schema_version\": 3", "\"schema_version\": 0");
    assert!(PrefitBundle::from_json(&too_old).is_none());
    let fine = too_new.replace("\"schema_version\": 3", "\"schema_version\": 2");
    assert!(PrefitBundle::from_json(&fine).is_some());
}

fn reads(text: &str) -> bool {
    PrefitBundle::from_json(text).is_some()
}

#[test]
fn what_is_no_bundle_is_refused() {
    let base = r#"{"schema_version":1,"fit_timestamp":0,"fit_corpus_size":0,"training_pipeline_version":"t","domains":{}}"#;
    assert!(reads(base));
    assert!(!reads("{"));
    assert!(!reads("null"));
    assert!(!reads(&base.replace("\"fit_timestamp\":0,", "")));
    assert!(!reads(&base.replace("\"fit_corpus_size\":0", "\"fit_corpus_size\":4294967296")));
    assert!(!reads(&base.replace("\"fit_timestamp\":0", "\"fit_timestamp\":-1")));
    assert!(!reads(&base.replace("\"t\"", "7")));
    assert!(!reads(&base.replace("\"domains\":{}", "\"domains\":[]")));
    assert!(!reads(&base.replace("\"domains\":{}", "\"domains\":{\"a\":{}}")));
    assert!(reads(&base.replace("\"domains\":{}", "\"domains\":{\"a\":{\"domain\":\"a\"}}")));
    assert!(!reads(&base.replace(
        "\"domains\":{}",
        "\"domains\":{\"a\":{\"domain\":\"a\",\"blocklist_additions\":[1]}}"
    )));
    assert!(!reads(&base.replace(
        "\"domains\":{}",
        "\"domains\":{\"a\":{\"domain\":\"a\",\"posteriors\":{\"k\":{\"alpha\":1}}}}"
    )));
    assert!(reads(&base.replace(
        "\"domains\":{}",
        "\"domains\":{\"a\":{\"domain\":\"a\",\"posteriors\":{\"k\":{\"alpha\":1,\"beta\":2}}}}"
    )));
    // By position, as a list.
    assert!(reads(r#"[1, 0, 0, "t", {}]"#));
    assert!(!reads(r#"[1, 0, 0, "t", {}, {}, 0]"#));
    // What is not known is passed over.
    assert!(reads(&base.replace("\"domains\"", "\"extra\":[{}],\"domains\"")));
}

#[test]
fn fields_are_given_once() {
    let base = r#"{"schema_version":2,"fit_timestamp":0,"fit_corpus_size":0,"training_pipeline_version":"t","domains":{"a":{"domain":"a","settle_distribution":{"p50_ms":1,"p90_ms":2,"p95_ms":3},"posteriors":{"k":{"alpha":1,"beta":2,"n":3}}}},"framework_priors":{"f":{"framework":"f"}}}"#;
    assert!(reads(base));
    for (once, twice) in [
        ("\"schema_version\":2", "\"schema_version\":2, \"schema_version\":2"),
        ("\"schema_version\":2", "\"schema_version\":2, \"schem\\u0061_version\" : 2"),
        ("\"domains\":", "\"domains\":{},\"domains\":"),
        ("\"domain\":\"a\"", "\"domain\":\"a\",\"domain\":\"a\""),
        ("\"p50_ms\":1", "\"p50_ms\":1,\"p50_ms\":1"),
        ("\"alpha\":1", "\"alpha\":1,\"alpha\":1"),
        ("\"framework\":\"f\"", "\"framework\":\"f\",\"framework\":\"f\""),
    ] {
        assert!(base.contains(once));
        assert!(!reads(&base.replace(once, twice)), "{twice}");
    }
    // Fields that are not known are passed over, however often they are given.
    assert!(reads(&base.replace("\"n\":3", "\"n\":3,\"x\":1,\"x\":2")));
    // Of two entries of a table with one key the last counts, and the other has
    // to be one too.
    let two = base.replace("\"k\":{", "\"k\":{\"alpha\":7,\"beta\":8},\"k\":{");
    let b = PrefitBundle::from_json(&two).unwrap();
    assert_eq!(b.domains[0].1.posteriors.len(), 1);
    assert_eq!(b.lookup_posterior("a", "k").unwrap().n, 3);
    assert!(!reads(&base.replace("\"k\":{", "\"k\":7,\"k\":{")));
}

#[test]
fn fields_that_are_not_known_may_hold_any_json() {
    let base = r#"{"schema_version":2,"fit_timestamp":0,"fit_corpus_size":0,"training_pipeline_version":"t","domains":{"a":{"domain":"a","framework":"f","settle_distribution":{"p50_ms":1,"p90_ms":2,"p95_ms":3},"posteriors":{"k":{"alpha":1,"beta":2,"n":3}}}}}"#;
    let deep = format!("{}{}", "[".repeat(5000), "]".repeat(5000));
    let deep_objects = format!("{}1{}", "{\"a\":".repeat(5000), "}".repeat(5000));
    let odd = [
        "1e999",
        "-1E+4000",
        "\"\\ud800\"",
        "{\"\\udc00\":[1e999]}",
        "[ true , false , null , {} , [] , 0.5e-7 , \"\\u00e9\\n\" ]",
        deep.as_str(),
        deep_objects.as_str(),
    ];
    let places = ["\"fit_timestamp\":0", "\"domain\":\"a\"", "\"p90_ms\":2", "\"beta\":2"];
    for value in odd {
        for place in places {
            let text = base.replace(place, &format!("{place} , \"extra\" :{value}"));
            let b = PrefitBundle::from_json(&text).unwrap();
            assert_eq!(b.domains[0].1.framework, Some("f".to_string()));
            assert_eq!(b.lookup_posterior("a", "k").unwrap().n, 3);
        }
        // What is known has to be what it should.
        for known in ["\"f\"", "\"t\"", "{\"p50_ms\":1,\"p90_ms\":2,\"p95_ms\":3}"] {
            assert!(!reads(&base.replace(known, value)), "{value}");
        }
        assert!(!reads(&base.replace("\"n\":3", &format!("\"n\":{value}"))));
        assert!(!reads(&base.replace("\"alpha\":1", &format!("\"alpha\":{value}"))));
    }
    // A key has to be text, known or not; and what is passed over has to be JSON.
    assert!(!reads(&base.replace("\"n\":3", "\"n\":3,\"\\ud800\":1")));
    assert!(!reads(&base.replace("\"k\":", "\"\\ud800\":")));
    for wrong in ["01", "1.", ".5", "1e", "+1", "tru", "'a'", "[1,]", "{\"a\":1,}", "[1 2]", "\"\\x\"", "\"\u{1}\"", "[}"] {
        assert!(!reads(&base.replace("\"n\":3", &format!("\"n\":3,\"x\":{wrong}"))), "{wrong}");
    }
    assert!(reads(&format!(" \n\t\r{base} ")));
    assert!(!reads(&format!("{base} 1")));
    assert!(!reads(&format!("{base}\u{a0}")));
    assert!(!reads(""));
}

#[test]
fn the_version_of_a_refused_bundle_is_told() {
    let text = |version: u32| {
        format!(
            r#"{{"schema_version":{version},"fit_timestamp":0,"fit_corpus_size":0,"training_pipeline_version":"t","domains":{{}}}}"#
        )
    };
    assert_eq!(PrefitBundle::refused_version(&text(0)), Some(0));
    assert_eq!(PrefitBundle::refused_version(&text(1)), None);
    assert_eq!(PrefitBundle::refused_version(&text(MAX_SUPPORTED_SCHEMA)), None);
    assert_eq!(PrefitBundle::refused_version(&text(3)), Some(3));
    assert_eq!(PrefitBundle::refused_version(&text(3).replace("{}", "7")), None);
    assert_eq!(PrefitBundle::refused_version("{"), None);
}

#[test]
fn large_numbers_round_trip() {
    for whole in [1.0, 99_999_999_999_999.0, 100_000_000_000_000.0, 900_719_925_474_099.0] {
        let b = make_bundle_with_posterior("z.com", "k", posterior(whole, whole, 1), 2);
        let back = PrefitBundle::from_json(&b.to_json()).unwrap();
        let got = back.lookup_posterior("z.com", "k").unwrap();
        assert!(same_posterior(&got, &posterior(whole, whole, 1)), "{whole}");
    }
}

#[test]
fn frameworks_are_read() {
    let text = r#"{"schema_version":2,"fit_timestamp":5,"fit_corpus_size":6,"training_pipeline_version":"t","domains":{},"framework_priors":{"next":{"framework":"next","blocklist_additions":["x.com"],"settle_distribution":null}}}"#;
    let b = PrefitBundle::from_json(text).unwrap();
    assert_eq!(b.framework_priors.len(), 1);
    assert_eq!(b.framework_priors[0].1.blocklist_additions, vec!["x.com".to_string()]);
    assert!(b.framework_priors[0].1.settle_distribution.is_none());
}

#[test]
fn bundles_are_described_in_the_order_of_their_keys() {
    let mut z = domain("z.com");
    z.framework = Some("next".to_string());
    z.shape_hint = Some("static_ssr".to_string());
    z.blocklist_additions.push("t.com".to_string());
    let b = bundle(1, vec![("z.com".to_string(), z), ("a.com".to_string(), domain("a.com"))]);
    let lines = b.info_lines();
    assert_eq!(lines[0], "schema_version: 1");
    assert_eq!(lines[1], "training_pipeline_version: test");
    assert_eq!(lines[2], "fit_timestamp: 0");
    assert_eq!(lines[3], "fit_corpus_size: 0");
    assert_eq!(lines[4], "domains: 2");
    assert_eq!(
        lines[5],
        format!(
            "  {:30} framework={:20} blocklist_additions={:3} shape={}",
            "a.com", "-", 0, "-"
        )
    );
    assert_eq!(
        lines[6],
        format!(
            "  {:30} framework={:20} blocklist_additions={:3} shape={}",
            "z.com", "next", 1, "static_ssr"
        )
    );
    assert_eq!(lines.len(), 7);
}

#[test]
fn bundles_as_json_hold_every_field() {
    let b = bundle(1, vec![("a.com".to_string(), domain("a.com"))]);
    let j = parse_json(&b.to_json()).unwrap();
    assert_eq!(j.u64_at("schema_version"), Some(1));
    let d = j.get("domains").unwrap().get("a.com").unwrap();
    assert!(matches!(d.get("framework"), Some(Json::Null)));
    assert!(d.array_at("required_patterns").unwrap().is_empty());
}

#[test]
fn bundles_are_read_back_in_the_order_of_their_keys() {
    let mut z = domain("z.com");
    z.posteriors.push(("b".to_string(), posterior(3.0, 4.0, 5)));
    z.posteriors.push(("a".to_string(), posterior(1.0, 2.0, 3)));
    let b = bundle(2, vec![("z.com".to_string(), z), ("a.com".to_string(), domain("a.com"))]);
    let back = PrefitBundle::from_json(&b.to_json()).unwrap();
    assert_eq!(back.domains[0].0, "a.com");
    assert_eq!(back.domains[1].0, "z.com");
    assert_eq!(back.domains[1].1.posteriors[0].0, "a");
    for key in ["a", "b", "c"] {
        assert_eq!(
            format!("{:?}", back.lookup_posterior("z.com", key)),
            format!("{:?}", b.lookup_posterior("z.com", key))
        );
    }
}

#[test]
fn lookup_exact_domain() {
    let b = bundle(
        1,
        vec![("cnbc.com".to_string(), domain("cnbc.com")), ("x.com".to_string(), domain("x.com"))],
    );
    let key = b.domains[0].0.clone();
    assert!(b.lookup_domain(&key).is_some());
}

#[test]
fn unknown_domain_returns_none() {
    let b = bundle(1, vec![("cnbc.com".to_string(), domain("cnbc.com"))]);
    assert!(b.lookup_domain("nonexistent.example.invalid").is_none());
}
