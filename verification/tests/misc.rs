use linkrouter::config::{config_dir, JsonConfigRepository, Platform};
use linkrouter::detectors::assemble::{finish_profiles, text_less};
use linkrouter::domain::BrowserProfile;
use linkrouter::launch::{default_opener, ProcessLauncher};
use linkrouter::link::Link;
use linkrouter::tray::tray_labels;

fn profile(id: &str, name: &str) -> BrowserProfile {
    BrowserProfile {
        id: id.into(),
        name: name.into(),
        browser_name: "b".into(),
        executable: "/usr/bin/b".into(),
        profile_dir: None,
        icon: None,
        args: vec!["--x".into()],
    }
}

#[test]
fn tray_labels_per_locale() {
    assert_eq!(
        tray_labels("es"),
        ("Mostrar LinkRouter", "Salir", "LinkRouter — selector de navegador")
    );
    assert_eq!(tray_labels("en"), ("Show LinkRouter", "Quit", "LinkRouter — browser selector"));
    assert_eq!(tray_labels("es-AR").0, "Show LinkRouter");
}

#[test]
fn configuration_locations() {
    let repo = JsonConfigRepository::new("/home/u/.config");
    assert_eq!(repo.path(), "/home/u/.config/link-router/config.json");
    assert_eq!(repo.legacy_path(), "/home/u/.config/linkrouter/config.json");
    let repo = JsonConfigRepository::new_at("/tmp/c.json".into());
    assert_eq!(repo.path(), "/tmp/c.json");
    assert_eq!(repo.legacy_path(), "");
    let repo = JsonConfigRepository::new_at_with_legacy("/a".into(), "/b".into());
    assert_eq!((repo.path(), repo.legacy_path()), ("/a", "/b"));
    assert_eq!(config_dir(Platform::Linux, Some("/x".into()), Some("/h".into()), None), "/x");
    assert_eq!(config_dir(Platform::Linux, None, Some("/h".into()), None), "/h/.config");
    assert_eq!(config_dir(Platform::Linux, None, None, None), ".");
    assert_eq!(
        config_dir(Platform::MacOs, None, Some("/Users/u".into()), None),
        "/Users/u/Library/Application Support"
    );
    assert_eq!(config_dir(Platform::Windows, None, None, Some(r"C:\A".into())), r"C:\A");
    assert_eq!(config_dir(Platform::Other, Some("/x".into()), None, None), ".");
}

#[test]
fn launcher_appends_the_link_to_the_profile_arguments() {
    let launcher = ProcessLauncher::new();
    let url = Link::parse("https://example.com/").unwrap();
    let (program, args) = launcher.command_for(&profile("p", "P"), &url);
    assert_eq!(program, "/usr/bin/b");
    assert_eq!(args, vec!["--x", "https://example.com/"]);
}

#[test]
fn detected_profiles_are_unique_and_sorted_by_id() {
    let out = finish_profiles(vec![
        profile("linux/z", "first z"),
        profile("linux/a", "a"),
        profile("linux/z", "second z"),
        profile("env/browser", "env"),
    ]);
    let ids: Vec<&str> = out.iter().map(|p| p.id.as_str()).collect();
    assert_eq!(ids, vec!["env/browser", "linux/a", "linux/z"]);
    assert_eq!(out[2].name, "first z");
    assert!(text_less("Profile 1", "Profile-1"));
    assert!(text_less("ab", "abc"));
    assert!(!text_less("abc", "abc"));
}

#[test]
fn link_readings() {
    let u = Link::parse("HTTPS://User@Example.COM:443/a/b?x=1&y=%20z#f").unwrap();
    assert_eq!(u.as_str(), "https://User@example.com/a/b?x=1&y=%20z#f");
    assert_eq!(u.host_str().as_deref(), Some("example.com"));
    assert_eq!(u.path(), "/a/b");
    assert_eq!(u.scheme(), "https");
    assert_eq!(u.query_pairs(), vec![("x".to_string(), "1".to_string()), ("y".to_string(), " z".to_string())]);
    let v = u.with_query_pairs(&vec![("k".to_string(), "a b".to_string())]);
    assert_eq!(v.as_str(), "https://User@example.com/a/b?k=a+b#f");
    assert_eq!(v.duplicate().as_str(), v.as_str());
    assert!(Link::parse("").is_err());
}

#[test]
fn default_opener_per_platform() {
    let url = Link::parse("https://example.com/").unwrap();
    let (p, a) = default_opener(Platform::Linux, &url).unwrap();
    assert_eq!((p.as_str(), a), ("xdg-open", vec!["https://example.com/".to_string()]));
    let (p, a) = default_opener(Platform::Windows, &url).unwrap();
    assert_eq!(p, "cmd");
    assert_eq!(a, vec!["/C", "start", "", "https://example.com/"]);
    assert_eq!(default_opener(Platform::MacOs, &url).unwrap().0, "open");
    assert!(default_opener(Platform::Other, &url).is_none());
}
