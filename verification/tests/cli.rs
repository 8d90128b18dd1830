use unbrowser::cli::{
    parse_policy_arg, parse_profile_arg, policy_check_cmd, read_command, read_dispatch_budget_ms,
    ready, Command,
};

fn args(words: &[&str]) -> Vec<String> {
    words.iter().map(|w| w.to_string()).collect()
}

#[test]
fn profiles_are_chosen() {
    let p = |words: &[&str], env: Option<&str>| parse_profile_arg(&args(words), env, "usual");
    assert_eq!(p(&["unbrowser", "--profile", "a", "--profile=b"], Some("e")), "a");
    assert_eq!(p(&["unbrowser", "--profile=b"], Some("e")), "b");
    assert_eq!(p(&["unbrowser", "--profile="], Some("e")), "");
    assert_eq!(p(&["unbrowser", "--profile"], Some("e")), "e");
    assert_eq!(p(&["unbrowser"], None), "usual");
}

#[test]
fn blocking_is_asked_for() {
    assert!(parse_policy_arg(&args(&["unbrowser", "--policy=blocklist"]), None));
    assert!(parse_policy_arg(&args(&["--policy=on"]), Some("off")));
    assert!(parse_policy_arg(&args(&[]), Some("blocklist")));
    assert!(parse_policy_arg(&args(&[]), Some("on")));
    assert!(!parse_policy_arg(&args(&["--policy=off"]), Some("1")));
    assert!(!parse_policy_arg(&args(&[]), None));
}

#[test]
fn budgets_are_bounded() {
    assert_eq!(read_dispatch_budget_ms(None), 30_000);
    assert_eq!(read_dispatch_budget_ms(Some("x")), 30_000);
    assert_eq!(read_dispatch_budget_ms(Some("0")), 1_000);
    assert_eq!(read_dispatch_budget_ms(Some("45000")), 45_000);
    assert_eq!(read_dispatch_budget_ms(Some("900000")), 600_000);
}

#[test]
fn commands_are_read() {
    assert!(matches!(read_command(&args(&["u", "--mcp", "--list-profiles"])), Command::ListProfiles));
    assert!(matches!(read_command(&args(&["u", "policy-check", "--prefit-info"])), Command::PrefitInfo));
    assert!(matches!(read_command(&args(&["u", "policy-check", "--mcp"])), Command::PolicyCheck));
    assert!(matches!(read_command(&args(&["u", "--mcp", "policy-check"])), Command::Mcp));
    assert!(matches!(read_command(&args(&["u"])), Command::Rpc));
    assert!(matches!(read_command(&args(&[])), Command::Rpc));
}

#[test]
fn urls_are_checked() {
    assert!(policy_check_cmd(&args(&[])).is_none());
    assert_eq!(
        policy_check_cmd(&args(&["https://heap.io/", "--info"])),
        Some(args(&["entries: 122"]))
    );
    assert_eq!(
        policy_check_cmd(&args(&["https://heap.io/", "https://a.com/"])),
        Some(args(&[
            "block\tanalytics\theap.io\theap.io\thttps://heap.io/",
            "allow\t-\t-\ta.com\thttps://a.com/",
        ]))
    );
}

#[test]
fn readiness_is_told() {
    assert_eq!(
        ready("1.2.3", 30_000, "chrome").line(),
        r#"{"data":{"dispatch_budget_ms":30000,"profile":"chrome","version":"1.2.3"},"event":"ready"}"#
    );
}
