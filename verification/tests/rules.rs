use linkrouter::domain::{Rule, RulePattern, UrlRouteRequest};
use linkrouter::error::RouteError;
use linkrouter::link::Link;
use linkrouter::rules::RulesEngine;

fn request(url: &str, source_app: Option<&str>) -> UrlRouteRequest {
    UrlRouteRequest { url: Link::parse(url).unwrap(), source_app: source_app.map(str::to_string) }
}

fn rule(id: &str, priority: u32, pattern: RulePattern, target: &str) -> Rule {
    Rule { id: id.into(), priority, enabled: true, pattern, target_profile_id: target.into() }
}

fn domain(pattern: &str) -> RulePattern {
    RulePattern::Domain { pattern: pattern.into() }
}

#[test]
fn exact_host_matches_case_insensitively() {
    let engine = RulesEngine::new(vec![rule(
        "e1",
        0,
        RulePattern::Exact { pattern: "Github.com".into() },
        "chrome",
    )])
    .unwrap();
    assert_eq!(
        engine
            .find_match(&request("https://github.com/tauri-apps/tauri", None))
            .unwrap()
            .target_profile_id,
        "chrome"
    );
    assert!(engine.find_match(&request("https://example.com/github.com", None)).is_none());
}

#[test]
fn exact_full_url_matches() {
    let engine = RulesEngine::new(vec![rule(
        "e2",
        0,
        RulePattern::Exact { pattern: "https://meet.google.com/abc-def".into() },
        "chrome",
    )])
    .unwrap();
    assert!(engine.find_match(&request("https://meet.google.com/abc-def", None)).is_some());
    assert!(engine.find_match(&request("https://meet.google.com/abc-def/other", None)).is_none());
}

#[test]
fn domain_apex_matches_subdomains() {
    let engine = RulesEngine::new(vec![rule("d1", 0, domain("github.com"), "chrome-work")]).unwrap();
    assert!(engine.find_match(&request("https://github.com/x", None)).is_some());
    assert!(engine.find_match(&request("https://www.github.com/x", None)).is_some());
    assert!(engine.find_match(&request("https://hey.github.com/x", None)).is_some());
    assert!(engine.find_match(&request("https://example.com/x", None)).is_none());
    assert!(engine.find_match(&request("https://notgithub.com/x", None)).is_none());
}

#[test]
fn domain_wildcard_excludes_apex() {
    let engine = RulesEngine::new(vec![rule("d2", 0, domain("*.github.com"), "brave")]).unwrap();
    assert!(engine.find_match(&request("https://docs.github.com/x", None)).is_some());
    assert!(engine.find_match(&request("https://github.com/x", None)).is_none());
}

#[test]
fn matches_regex_over_full_url() {
    let engine = RulesEngine::new(vec![rule(
        "r1",
        0,
        RulePattern::Regex { pattern: r"^https://.*\.notion\.site/.+".into() },
        "arc",
    )])
    .unwrap();
    assert!(engine.find_match(&request("https://team.notion.site/Notes", None)).is_some());
    assert!(engine.find_match(&request("https://example.com/Notion", None)).is_none());
}

#[test]
fn path_prefix_matches_scheme_and_host_forms() {
    let engine = RulesEngine::new(vec![
        rule("p1", 0, RulePattern::Path { pattern: "https://meet.google.com/*".into() }, "chrome"),
        rule("p2", 0, RulePattern::Path { pattern: "intranet.company.com/deals".into() }, "brave"),
    ])
    .unwrap();
    assert!(engine.find_match(&request("https://meet.google.com/abc?token=1", None)).is_some());
    assert!(engine.find_match(&request("https://meet.google.com", None)).is_some());
    assert!(engine.find_match(&request("https://meet2.google.com/abc", None)).is_none());
    assert!(engine.find_match(&request("https://intranet.company.com/deals/123", None)).is_some());
    assert!(engine.find_match(&request("https://intranet.company.com/home", None)).is_none());
}

#[test]
fn matches_source_app_case_insensitively() {
    let engine = RulesEngine::new(vec![rule(
        "s1",
        0,
        RulePattern::SourceApp { app_name: "slack".into() },
        "brave-work",
    )])
    .unwrap();
    let matched = engine.find_match(&request("https://github.com/x", Some("Slack"))).unwrap();
    assert_eq!(matched.target_profile_id, "brave-work");
    assert!(engine.find_match(&request("https://github.com/x", Some("Discord"))).is_none());
}

#[test]
fn higher_priority_wins_overlapping_rules() {
    let low = rule("low", 5, domain("github.com"), "fallback");
    let high = rule(
        "high",
        1,
        RulePattern::Path { pattern: "https://github.com/tauri-apps/*".into() },
        "preferred",
    );
    let engine = RulesEngine::new(vec![low, high]).unwrap();

    let matched = engine.find_match(&request("https://github.com/tauri-apps/tauri", None)).unwrap();
    assert_eq!(matched.id, "high");
    assert_eq!(matched.target_profile_id, "preferred");

    let other = engine.find_match(&request("https://github.com/other/repo", None)).unwrap();
    assert_eq!(other.id, "low");
}

#[test]
fn equal_priority_ties_break_in_favor_of_first_inserted() {
    let first = rule("first", 3, domain("github.com"), "a");
    let second = rule("second", 3, domain("github.com"), "b");
    let engine = RulesEngine::new(vec![first, second]).unwrap();
    let matched = engine.find_match(&request("https://github.com/x", None)).unwrap();
    assert_eq!(matched.id, "first");
}

#[test]
fn disabled_rules_are_skipped() {
    let engine = RulesEngine::new(vec![Rule {
        id: "off".into(),
        priority: 0,
        enabled: false,
        pattern: domain("github.com"),
        target_profile_id: "brave".into(),
    }])
    .unwrap();
    assert!(engine.find_match(&request("https://github.com/x", None)).is_none());
}

#[test]
fn rejects_invalid_patterns() {
    assert!(RulesEngine::new(vec![rule("bad", 0, RulePattern::Regex { pattern: "(".into() }, "x")])
        .is_err());
    assert!(RulesEngine::new(vec![rule("bad", 0, domain("http://x/y"), "x")]).is_err());
    assert!(RulesEngine::new(vec![rule("bad", 0, RulePattern::Exact { pattern: "".into() }, "x")])
        .is_err());
}

#[test]
fn refusals_carry_their_reason() {
    let e = RulesEngine::new(vec![rule("bad", 0, RulePattern::Path { pattern: " * ".into() }, "x")])
        .err()
        .unwrap();
    assert_eq!(e, RouteError::RuleEngine("path prefix cannot be empty".into()));
    let e = RulesEngine::new(vec![rule("bad", 0, RulePattern::Regex { pattern: "  ".into() }, "x")])
        .err()
        .unwrap();
    assert_eq!(e, RouteError::RuleEngine("regex pattern cannot be empty".into()));
    let e = RulesEngine::new(vec![rule("bad", 0, domain("*."), "x")]).err().unwrap();
    assert_eq!(
        e,
        RouteError::RuleEngine(
            "domain pattern must be a host like 'github.com' or '*.github.com'".into()
        )
    );
    let e = RulesEngine::new(vec![rule("bad", 0, RulePattern::Exact { pattern: " ".into() }, "x")])
        .err()
        .unwrap();
    assert_eq!(e.message(), "rule engine failure: exact pattern cannot be empty");
    assert_eq!(RouteError::InvalidUrl("x".into()).message(), "malformed url: x");
}

#[test]
fn the_first_refused_rule_in_trial_order_is_reported() {
    let rules = vec![
        rule("late", 9, RulePattern::Regex { pattern: "".into() }, "x"),
        rule("early", 1, RulePattern::Path { pattern: "*".into() }, "x"),
    ];
    let e = RulesEngine::new(rules).err().unwrap();
    assert_eq!(e, RouteError::RuleEngine("path prefix cannot be empty".into()));
}

#[test]
fn disabled_invalid_rules_do_not_stop_the_engine() {
    let mut bad = rule("bad", 0, RulePattern::Regex { pattern: "(".into() }, "x");
    bad.enabled = false;
    assert!(RulesEngine::new(vec![bad.clone()]).is_ok());
    assert!(RulesEngine::validate_rule(&bad).is_err());
}

#[test]
fn source_app_rule_needs_a_source() {
    let engine = RulesEngine::new(vec![rule(
        "s",
        0,
        RulePattern::SourceApp { app_name: "  Slack ".into() },
        "t",
    )])
    .unwrap();
    assert!(engine.find_match(&request("https://x.example/", None)).is_none());
    assert!(engine.find_match(&request("https://x.example/", Some("SLACK"))).is_some());
}

#[test]
fn pattern_kinds_and_texts() {
    let p = RulePattern::SourceApp { app_name: "slack".into() };
    assert_eq!(p.kind_label(), "sourceApp");
    assert_eq!(p.pattern_text(), "slack");
    assert_eq!(domain("a.b").kind_label(), "domain");
    assert_eq!(RulePattern::Exact { pattern: "e".into() }.kind_label(), "exact");
    assert_eq!(RulePattern::Regex { pattern: "r".into() }.kind_label(), "regex");
    assert_eq!(RulePattern::Path { pattern: "p".into() }.pattern_text(), "p");
    assert!(linkrouter::domain::rule_enabled_default());
}
