use linkrouter::commands::{
    create_rule, delete_rule, evaluate_url, evaluate_url_route, find_profile, initial_evaluator,
    parse_url, position_of_rule, sorted_rules, update_rule, CommandError,
};
use linkrouter::domain::{BrowserProfile, RouteDecision, Rule, RulePattern};
use linkrouter::error::RouteError;
use linkrouter::route_service::RouteEvaluator;

fn rule(id: &str, priority: u32, pattern: RulePattern, target: &str) -> Rule {
    Rule { id: id.into(), priority, enabled: true, pattern, target_profile_id: target.into() }
}

fn domain(p: &str) -> RulePattern {
    RulePattern::Domain { pattern: p.into() }
}

fn profile(id: &str) -> BrowserProfile {
    BrowserProfile {
        id: id.into(),
        name: id.into(),
        browser_name: "test".into(),
        executable: "/usr/bin/fake-browser".into(),
        profile_dir: None,
        icon: None,
        args: vec![],
    }
}

#[test]
fn create_rule_checks_in_order() {
    let mut rules = vec![rule("a", 1, domain("a.com"), "x")];
    let e = create_rule(&mut rules, rule("  ", 0, domain("b.com"), "x")).unwrap_err();
    assert_eq!((e.code.as_str(), e.message.as_str()), ("invalid_rule", "rule id cannot be empty"));
    let e = create_rule(&mut rules, rule("b", 0, domain(" "), "x")).unwrap_err();
    assert_eq!(
        (e.code.as_str(), e.message.as_str()),
        ("invalid_rule", "rule pattern cannot be empty")
    );
    let e = create_rule(&mut rules, rule("b", 0, RulePattern::Regex { pattern: "(".into() }, "x"))
        .unwrap_err();
    assert_eq!(e.code, "route_error");
    assert!(e.message.starts_with("rule engine failure: "));
    let e = create_rule(&mut rules, rule("a", 0, domain("c.com"), "x")).unwrap_err();
    assert_eq!((e.code.as_str(), e.message.as_str()), ("duplicate_rule", "rule 'a' already exists"));
    assert_eq!(rules.len(), 1);
    let created = create_rule(&mut rules, rule("b", 0, domain("b.com"), "y")).unwrap();
    assert_eq!(created, rule("b", 0, domain("b.com"), "y"));
    assert_eq!(rules.len(), 2);
    assert_eq!(rules[1].id, "b");
}

#[test]
fn update_rule_replaces_or_reports() {
    let mut rules = vec![rule("a", 1, domain("a.com"), "x"), rule("b", 2, domain("b.com"), "y")];
    let e = update_rule(&mut rules, rule("zz", 0, domain("z.com"), "x")).unwrap_err();
    assert_eq!((e.code.as_str(), e.message.as_str()), ("rule_not_found", "rule 'zz' not found"));
    let e = update_rule(&mut rules, rule("a", 0, domain("http://x/y"), "x")).unwrap_err();
    assert_eq!(e.code, "route_error");
    let updated = update_rule(&mut rules, rule("b", 7, domain("c.com"), "w")).unwrap();
    assert_eq!(updated.priority, 7);
    assert_eq!(rules, vec![rule("a", 1, domain("a.com"), "x"), rule("b", 7, domain("c.com"), "w")]);
    assert_eq!(position_of_rule(&rules, "b"), Some(1));
    assert_eq!(position_of_rule(&rules, "q"), None);
}

#[test]
fn delete_undoes_create() {
    let before = vec![rule("a", 1, domain("a.com"), "x"), rule("b", 2, domain("b.com"), "y")];
    let mut rules = before.clone();
    create_rule(&mut rules, rule("c", 0, domain("c.com"), "z")).unwrap();
    delete_rule(&mut rules, "c");
    assert_eq!(rules, before);
    delete_rule(&mut rules, "a");
    assert_eq!(rules, vec![rule("b", 2, domain("b.com"), "y")]);
    delete_rule(&mut rules, "missing");
    assert_eq!(rules.len(), 1);
}

#[test]
fn listed_rules_are_ordered_by_priority_stably() {
    let rules = vec![
        rule("c", 3, domain("c.com"), "x"),
        rule("a1", 1, domain("a.com"), "x"),
        rule("b", 2, domain("b.com"), "x"),
        rule("a2", 1, domain("a.com"), "x"),
    ];
    let ids: Vec<String> = sorted_rules(&rules).into_iter().map(|r| r.id).collect();
    assert_eq!(ids, vec!["a1", "a2", "b", "c"]);
}

#[test]
fn evaluate_url_reports_match_and_cleaned_link() {
    let evaluator =
        RouteEvaluator::new(vec![rule("gh", 0, domain("github.com"), "work")]).unwrap();
    let ev = evaluate_url(&evaluator, "https://github.com/x?utm_source=a&q=1".into(), None).unwrap();
    assert_eq!(ev.url, "https://github.com/x?utm_source=a&q=1");
    assert_eq!(ev.cleaned_url, "https://github.com/x?q=1");
    let m = ev.matched.unwrap();
    assert_eq!(m.rule_id, "gh");
    assert_eq!(m.target_profile_id, "work");
    assert_eq!(m.pattern_kind, "domain");
    let ev = evaluate_url(&evaluator, "https://example.com/".into(), Some("Slack".into())).unwrap();
    assert!(ev.matched.is_none());
    let e = evaluate_url(&evaluator, "nope".into(), None).unwrap_err();
    assert_eq!(e.code, "invalid_url");
    assert_eq!(e.message, "relative URL without a base");
}

#[test]
fn evaluate_url_route_parses_then_decides() {
    let evaluator = RouteEvaluator::new(vec![]).unwrap();
    let d = evaluate_url_route(&evaluator, "https://example.com/", None, &[profile("p")]).unwrap();
    assert!(matches!(d, RouteDecision::Prompt { .. }));
    let e = evaluate_url_route(&evaluator, "::", None, &[]).unwrap_err();
    assert_eq!(e.code, "invalid_url");
    assert!(parse_url("https://example.com").is_ok());
}

#[test]
fn find_profile_by_id() {
    let profiles = vec![profile("a"), profile("b")];
    assert_eq!(find_profile(&profiles, "b").unwrap().id, "b");
    let e = find_profile(&profiles, "c").unwrap_err();
    assert_eq!(
        (e.code.as_str(), e.message.as_str()),
        ("profile_not_found", "profile 'c' not found")
    );
}

#[test]
fn error_constructors() {
    let e = CommandError::from_route_error(&RouteError::InvalidUrl("bad".into()));
    assert_eq!((e.code.as_str(), e.message.as_str()), ("route_error", "malformed url: bad"));
    let e = CommandError::poisoned();
    assert_eq!((e.code.as_str(), e.message.as_str()), ("poisoned", "internal state lock poisoned"));
    assert_eq!(CommandError::default_handler("m".into()).code, "default_handler");
    assert_eq!(CommandError::adapter("m".into()).code, "adapter_error");
    assert_eq!(CommandError::invalid_url("m".into()).code, "invalid_url");
    assert_eq!(CommandError::new("c", "m".into()).message, "m");
}

#[test]
fn start_with_no_rules_when_one_is_invalid() {
    let good = rule("g", 0, domain("g.com"), "x");
    let evaluator = initial_evaluator(vec![good.clone()]);
    let ev = evaluate_url(&evaluator, "https://g.com/".into(), None).unwrap();
    assert!(ev.matched.is_some());
    let bad = rule("b", 0, RulePattern::Regex { pattern: "(".into() }, "x");
    let evaluator = initial_evaluator(vec![good, bad]);
    let ev = evaluate_url(&evaluator, "https://g.com/".into(), None).unwrap();
    assert!(ev.matched.is_none());
}
