use linkrouter::domain::{BrowserProfile, RouteDecision, Rule, RulePattern, UrlRouteRequest};
use linkrouter::link::Link;
use linkrouter::route_service::RouteEvaluator;

fn profile(id: &str) -> BrowserProfile {
    BrowserProfile {
        id: id.into(),
        name: id.into(),
        browser_name: "test".into(),
        executable: "/usr/bin/fake-browser".into(),
        profile_dir: None,
        icon: None,
        args: vec![],
    }
}

fn req(url: &str) -> UrlRouteRequest {
    UrlRouteRequest { url: Link::parse(url).unwrap(), source_app: None }
}

#[test]
fn launches_directly_when_rule_matches() {
    let evaluator = RouteEvaluator::new(vec![Rule {
        id: "r1".into(),
        priority: 0,
        enabled: true,
        pattern: RulePattern::Domain { pattern: "company.com".into() },
        target_profile_id: "brave-work".into(),
    }])
    .unwrap();

    let decision = evaluator
        .evaluate(req("https://intranet.company.com/deals"), &[profile("brave-work")])
        .unwrap();

    assert!(
        matches!(decision, RouteDecision::Launch { profile_id, .. } if profile_id == "brave-work")
    );
}

#[test]
fn prompts_when_no_rule_matches() {
    let evaluator = RouteEvaluator::new(vec![]).unwrap();
    let decision = evaluator.evaluate(req("https://example.com/x"), &[profile("chromium")]).unwrap();
    assert!(matches!(decision, RouteDecision::Prompt { .. }));
}

#[test]
fn returns_none_when_no_browsers_available() {
    let evaluator = RouteEvaluator::new(vec![]).unwrap();
    let decision = evaluator.evaluate(req("https://example.com/x"), &[]).unwrap();
    assert!(matches!(decision, RouteDecision::NoBrowser { .. }));
}

#[test]
fn cleans_url_before_responding() {
    let evaluator = RouteEvaluator::new(vec![]).unwrap();
    let decision = evaluator
        .evaluate(req("https://example.com/p?id=1&utm_source=x&fbclid=y"), &[profile("chromium")])
        .unwrap();
    match decision {
        RouteDecision::Prompt { url, .. } => {
            assert_eq!(url.as_str(), "https://example.com/p?id=1")
        }
        other => panic!("expected prompt, got {other:?}"),
    }
}

#[test]
fn launch_carries_the_cleaned_link() {
    let evaluator = RouteEvaluator::new(vec![Rule {
        id: "r".into(),
        priority: 0,
        enabled: true,
        pattern: RulePattern::Domain { pattern: "example.com".into() },
        target_profile_id: "p".into(),
    }])
    .unwrap();
    match evaluator.evaluate(req("https://example.com/?utm_medium=m&q=1"), &[]).unwrap() {
        RouteDecision::Launch { url, profile_id } => {
            assert_eq!(url.as_str(), "https://example.com/?q=1");
            assert_eq!(profile_id, "p");
        }
        other => panic!("expected launch, got {other:?}"),
    }
}

#[test]
fn prompt_lists_every_detected_profile() {
    let evaluator = RouteEvaluator::new(vec![]).unwrap();
    let profiles = [profile("a"), profile("b")];
    match evaluator.evaluate(req("https://example.com/"), &profiles).unwrap() {
        RouteDecision::Prompt { candidates, .. } => assert_eq!(candidates, profiles.to_vec()),
        other => panic!("expected prompt, got {other:?}"),
    }
}

#[test]
fn evaluator_refuses_an_invalid_rule() {
    let err = RouteEvaluator::new(vec![Rule {
        id: "bad".into(),
        priority: 0,
        enabled: true,
        pattern: RulePattern::Regex { pattern: "(".into() },
        target_profile_id: "x".into(),
    }])
    .err()
    .unwrap();
    assert!(err.message().starts_with("rule engine failure: "));
}
