use linkrouter::dispatch::{
    dispatch_action, extract_url_arg, incoming_step, link_after_redirects, parse_incoming,
    DispatchAction, IncomingStep, RecentLink,
};
use linkrouter::domain::{BrowserProfile, RouteDecision};
use linkrouter::link::Link;

#[test]
fn extracts_http_and_https_args() {
    let args: Vec<String> = vec![
        "/usr/bin/linkrouter".into(),
        "https://github.com/octocat/Hello-World?utm_source=x".into(),
    ];
    assert_eq!(
        extract_url_arg(&args).as_deref(),
        Some("https://github.com/octocat/Hello-World?utm_source=x")
    );
}

#[test]
fn ignores_non_http_args() {
    let args: Vec<String> = vec!["--flag".into(), "mailto:alice@example.com".into()];
    assert_eq!(extract_url_arg(&args), None);
}

#[test]
fn picks_the_first_real_url_amid_switches() {
    let args: Vec<String> = vec![
        "linkrouter".into(),
        "--no-sandbox".into(),
        "http://intranet.company.com/deals".into(),
    ];
    assert_eq!(
        extract_url_arg(&args).as_deref(),
        Some("http://intranet.company.com/deals")
    );
}

#[test]
fn extracted_argument_is_trimmed() {
    let args: Vec<String> = vec!["  https://a.example/x \n".into(), "https://b.example".into()];
    assert_eq!(extract_url_arg(&args).as_deref(), Some("https://a.example/x"));
}

#[test]
fn a_link_repeated_within_the_window_is_dropped_once() {
    let mut recent = RecentLink::new();
    assert!(recent.should_handle("https://a.example/", 1_000));
    assert!(!recent.should_handle("https://a.example/", 1_499));
    assert!(recent.should_handle("https://b.example/", 1_499));
    assert!(recent.should_handle("https://a.example/", 1_600));
    assert!(recent.should_handle("https://a.example/", 2_100));
    assert!(!recent.should_handle("https://a.example/", 2_000));
}

#[test]
fn incoming_text_is_parsed_and_filtered_by_scheme() {
    let u = parse_incoming("  https://example.com/x  ").unwrap().unwrap();
    assert_eq!(u.as_str(), "https://example.com/x");
    assert!(parse_incoming("mailto:a@b.c").unwrap().is_none());
    let e = parse_incoming("not a url").unwrap_err();
    assert!(e.starts_with("url inválida en dispatcher: "));
    assert_eq!(e, "url inválida en dispatcher: relative URL without a base");
}

fn profile(id: &str) -> BrowserProfile {
    BrowserProfile {
        id: id.into(),
        name: id.into(),
        browser_name: "test".into(),
        executable: "/usr/bin/fake-browser".into(),
        profile_dir: None,
        icon: None,
        args: vec![],
    }
}

#[test]
fn decisions_become_launch_or_prompt() {
    let url = Link::parse("https://example.com/").unwrap();
    let profiles = vec![profile("a"), profile("b")];
    let d = RouteDecision::Launch { url: url.clone(), profile_id: "b".into() };
    assert!(matches!(dispatch_action(d, &profiles), DispatchAction::Launch { profile_index: 1, .. }));
    let d = RouteDecision::Launch { url: url.clone(), profile_id: "gone".into() };
    assert!(matches!(dispatch_action(d, &profiles), DispatchAction::Prompt { .. }));
    let d = RouteDecision::NoBrowser { url: url.clone() };
    assert!(matches!(dispatch_action(d, &profiles), DispatchAction::Prompt { .. }));
    let d = RouteDecision::Prompt { url, candidates: profiles.clone() };
    match dispatch_action(d, &profiles) {
        DispatchAction::Prompt { url } => assert_eq!(url.as_str(), "https://example.com/"),
        other => panic!("expected prompt, got {other:?}"),
    }
}

#[test]
fn short_links_are_followed_before_routing() {
    let short = Link::parse("https://bit.ly/abc").unwrap();
    assert!(matches!(incoming_step(short), IncomingStep::Resolve { .. }));
    let plain = Link::parse("https://github.com/x").unwrap();
    assert!(matches!(incoming_step(plain), IncomingStep::Route { .. }));

    let short = Link::parse("https://t.co/xyz").unwrap();
    let dest = Link::parse("https://github.com/final").unwrap();
    assert_eq!(link_after_redirects(short.clone(), Some(dest)).as_str(), "https://github.com/final");
    assert_eq!(link_after_redirects(short.clone(), None).as_str(), "https://t.co/xyz");
    let odd = Link::parse("ftp://files.example/x").unwrap();
    assert_eq!(link_after_redirects(short, Some(odd)).as_str(), "https://t.co/xyz");
}
