use linkrouter::link::Link;
use linkrouter::sanitizer::{is_short_url, is_tracking_key, sanitize_url};

fn sanitize(raw: &str) -> String {
    sanitize_url(&Link::parse(raw).unwrap()).as_str().to_string()
}

#[test]
fn removes_common_tracking_params() {
    assert_eq!(
        sanitize("https://example.com/?utm_source=newsletter&fbclid=xyz&id=123"),
        "https://example.com/?id=123"
    );
    assert_eq!(
        sanitize("https://example.com/a?gclid=abc&si=def&yclid=ghi&page=2"),
        "https://example.com/a?page=2"
    );
    assert_eq!(
        sanitize("https://example.com/a?mc_cid=1&ref_campaign=lead&ga_campaign=x&x=1"),
        "https://example.com/a?x=1"
    );
}

#[test]
fn preserves_fragment_path_and_legit_params() {
    assert_eq!(
        sanitize("https://github.com/user/repo?tab=readme-ov-file&utm_source=x#section"),
        "https://github.com/user/repo?tab=readme-ov-file#section"
    );
}

#[test]
fn keeps_order_of_legitimate_params() {
    assert_eq!(
        sanitize("https://example.com/p?b=2&utm_source=x&a=1&c=3"),
        "https://example.com/p?b=2&a=1&c=3"
    );
}

#[test]
fn leaves_pristine_urls_untouched() {
    let raw = "https://github.com/tauri-apps/tauri?tab=readme-ov-file";
    assert_eq!(sanitize(raw), raw);
}

#[test]
fn tracks_are_case_insensitive() {
    assert_eq!(
        sanitize("https://example.com/?UTM_Source=x&Fbclid=y&keep=1"),
        "https://example.com/?keep=1"
    );
}

#[test]
fn detects_shorteners() {
    assert!(is_short_url(&Link::parse("https://t.co/xyz").unwrap()));
    assert!(is_short_url(&Link::parse("https://bit.ly/abc").unwrap()));
    assert!(!is_short_url(&Link::parse("https://github.com/x").unwrap()));
}

#[test]
fn more_shorteners_and_keys() {
    assert!(is_short_url(&Link::parse("https://TinyURL.com/x").unwrap()));
    assert!(is_short_url(&Link::parse("https://go.tiny.cc/x").unwrap()));
    assert!(!is_short_url(&Link::parse("file:///tmp/x").unwrap()));
    assert!(is_tracking_key("MTM_campaign"));
    assert!(is_tracking_key("_ga"));
    assert!(is_tracking_key("gclsrc"));
    assert!(!is_tracking_key("sid"));
    assert!(!is_tracking_key("utm"));
}

#[test]
fn cleaning_twice_is_cleaning_once() {
    let once = sanitize("https://example.com/p?b=2&utm_source=x&a=1");
    assert_eq!(sanitize(&once), once);
}

#[test]
fn cleaned_link_reads_back_the_kept_pairs() {
    let u = Link::parse("https://Example.com/a%20b?x=1+2&utm_id=9&y=%26#frag").unwrap();
    let r = sanitize_url(&u);
    assert_eq!(r.query_pairs(), vec![("x".to_string(), "1 2".to_string()), ("y".to_string(), "&".to_string())]);
    assert_eq!(r.host_str(), u.host_str());
    assert_eq!(r.path(), u.path());
    assert_eq!(r.as_str(), "https://example.com/a%20b?x=1+2&y=%26#frag");
}

#[test]
fn writing_pairs_twice_is_writing_them_once() {
    let u = Link::parse("https://example.com/p?a=1#f").unwrap();
    let p = vec![("k &=".to_string(), "v+é".to_string()), (String::new(), String::new())];
    let once = u.with_query_pairs(&p);
    assert_eq!(once.query_pairs(), p);
    assert_eq!(once.with_query_pairs(&p).as_str(), once.as_str());
    let q = vec![("z".to_string(), "1".to_string())];
    assert_eq!(once.with_query_pairs(&q).as_str(), u.with_query_pairs(&q).as_str());
}

#[test]
fn cleaning_keeps_scheme_port_and_fragment() {
    let u = Link::parse("http://example.com:8080/p?utm_source=x&a=1#top").unwrap();
    let r = sanitize_url(&u);
    assert_eq!(r.scheme(), "http");
    assert_eq!(r.port(), Some(8080));
    assert_eq!(r.fragment().as_deref(), Some("top"));
    assert_eq!(r.as_str(), "http://example.com:8080/p?a=1#top");
    let plain = Link::parse("https://example.com/").unwrap();
    assert_eq!(plain.port(), None);
    assert_eq!(plain.fragment(), None);
}
