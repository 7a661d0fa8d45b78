use linkrouter::detectors::common::chromium_profiles_from_local_state;
use linkrouter::detectors::linux::{
    applications_dirs, bin_name, browser_env_entry, browser_profile, chromium_config_dir, firefox_homes,
    known_binaries, linux_profiles, merge_candidates, names_a_path, slug, FoundBrowser,
    LinuxBrowserDetector,
};

const HOME: &str = "/home/alord";

const CHROME_LOCAL_STATE: &str =
    r#"{"profile":{"info_cache":{"Default":{"name":"Default"},"Profile 1":{"name":"Trabajo"}}}}"#;

const FIREFOX_PROFILES: &str = "\
[General]
StartWithLastProfile=1

[Profile0]
Name=default-release
IsRelative=1
Path=abc123.default-release

[Profile1]
Name=Trabajo
IsRelative=0
Path=/tmp/nonexistent-work
";

fn found(exe: &str, name: &str, icon: Option<&str>) -> FoundBrowser {
    FoundBrowser {
        executable: exe.to_string(),
        name: name.to_string(),
        icon: icon.map(str::to_string),
        chromium: Vec::new(),
        firefox_inis: Vec::new(),
    }
}

#[test]
fn expands_chromium_profiles() {
    let _detector = LinuxBrowserDetector::new();
    let mut chrome = found("/opt/bins/google-chrome", "Google Chrome", None);
    chrome.chromium = chromium_profiles_from_local_state(CHROME_LOCAL_STATE).unwrap();
    let found = linux_profiles(HOME, &vec![chrome], None);

    assert_eq!(found.len(), 2);
    assert!(found.iter().any(|p| {
        p.id == "linux/google-chrome/Default" && p.args == vec!["--profile-directory=Default"]
    }));
    assert!(found.iter().any(|p| {
        p.id == "linux/google-chrome/Profile-1"
            && p.name == "Google Chrome · Trabajo"
            && p.args == vec!["--profile-directory=Profile 1"]
            && p.profile_dir.as_deref() == Some("/home/alord/.config/google-chrome/Profile 1")
    }));
}

#[test]
fn expands_firefox_profiles() {
    let mut firefox = found("/opt/bins/firefox", "Firefox", None);
    firefox.firefox_inis = vec![Some(FIREFOX_PROFILES.to_string())];
    let found = linux_profiles(HOME, &vec![firefox], None);

    assert_eq!(found.len(), 2);
    assert!(found.iter().any(|p| {
        p.id == "linux/firefox/default-release"
            && p.args == vec!["-P", "default-release"]
            && p.profile_dir.as_deref()
                == Some("/home/alord/.mozilla/firefox/abc123.default-release")
    }));
    assert!(found
        .iter()
        .any(|p| { p.id == "linux/firefox/Trabajo" && p.args == vec!["-P", "Trabajo"] }));
}

#[test]
fn discovers_browser_from_desktop_entry() {
    let mut fake = found("/opt/bins/google-chrome", "Fake Browser", Some("fake-icon"));
    fake.chromium = chromium_profiles_from_local_state(CHROME_LOCAL_STATE).unwrap();
    let found = linux_profiles(HOME, &vec![fake], None);
    assert!(found
        .iter()
        .any(|p| { p.name == "Fake Browser · Trabajo" && p.icon.as_deref() == Some("fake-icon") }));
}

#[test]
fn emits_default_entry_when_no_profiles_exist() {
    let found = linux_profiles(HOME, &vec![found("/opt/bins/chromium", "Chromium", None)], None);
    assert_eq!(
        found,
        vec![browser_profile(
            "linux/chromium",
            "Chromium",
            "/opt/bins/chromium",
            None,
            None,
            Vec::new()
        )]
    );
}

#[test]
fn second_firefox_home_is_read_when_the_first_is_missing() {
    let mut zen = found("/usr/bin/zen", "Zen", None);
    zen.firefox_inis = vec![None, Some("[P]\nName=w\nPath=x\nIsRelative=1\n".to_string())];
    let found = linux_profiles(HOME, &vec![zen], None);
    assert_eq!(found.len(), 1);
    assert_eq!(found[0].id, "linux/zen/w");
    assert_eq!(found[0].profile_dir.as_deref(), Some("/home/alord/.mozilla/zen/x"));
}

#[test]
fn browser_variable_adds_its_own_entry_and_results_are_sorted_and_unique() {
    let list = vec![
        found("/usr/bin/opera", "Opera", None),
        found("/usr/bin/chromium", "Chromium", None),
        found("/usr/bin/chromium", "Chromium again", None),
    ];
    let found = linux_profiles(HOME, &list, Some("/usr/bin/mybrowser".to_string()));
    let ids: Vec<&str> = found.iter().map(|p| p.id.as_str()).collect();
    assert_eq!(ids, vec!["env/browser", "linux/chromium", "linux/opera"]);
    assert_eq!(found[1].name, "Chromium");
    assert_eq!(found[0].name, "BROWSER");
    assert_eq!(found[0].browser_name, "mybrowser");
}

#[test]
fn linux_tables() {
    assert_eq!(chromium_config_dir("google-chrome-stable"), Some(".config/google-chrome"));
    assert_eq!(chromium_config_dir("msedge"), Some(".config/microsoft-edge"));
    assert_eq!(chromium_config_dir("firefox"), None);
    assert_eq!(firefox_homes("/h", "firefox"), vec!["/h/.mozilla/firefox"]);
    assert_eq!(firefox_homes("/h", "zen"), vec!["/h/.zen", "/h/.mozilla/zen"]);
    assert!(firefox_homes("/h", "opera").is_empty());
    assert_eq!(slug("Profile 1"), "Profile-1");
    let dirs = applications_dirs("/home/u");
    assert_eq!(dirs[0], "/usr/share/applications");
    assert_eq!(dirs[4], "/home/u/.local/share/applications");
    assert_eq!(dirs[5], "/home/u/.local/share/flatpak/exports/share/applications");
    let known = known_binaries();
    assert_eq!(known.len(), 9);
    assert_eq!(known[0].0, "Chromium");
    assert_eq!(known[0].1, vec!["chromium", "chromium-browser", "chromium-stable"]);
    assert_eq!(known[8].1, vec!["arc"]);
    assert_eq!(browser_env_entry("/usr/bin/a:/usr/bin/b"), "/usr/bin/a");
    assert_eq!(browser_env_entry("/usr/bin/a"), "/usr/bin/a");
    assert!(names_a_path("/usr/bin/x"));
    assert!(!names_a_path("firefox"));
}

#[test]
fn first_candidate_of_each_executable_is_kept() {
    let c = vec![
        ("/usr/bin/a".to_string(), "A".to_string(), Some("ia".to_string())),
        ("/usr/bin/b".to_string(), "B".to_string(), None),
        ("/usr/bin/a".to_string(), "A2".to_string(), None),
    ];
    let m = merge_candidates(&c);
    assert_eq!(m.len(), 2);
    assert_eq!(m[0].1, "A");
    assert_eq!(m[0].2.as_deref(), Some("ia"));
    assert_eq!(m[1].1, "B");
}

#[test]
fn file_names_follow_path_components() {
    assert_eq!(bin_name("/usr/bin/firefox"), "firefox");
    assert_eq!(bin_name("/usr/bin/."), "bin");
    assert_eq!(bin_name("/usr/bin//"), "bin");
    assert_eq!(bin_name("a/./"), "a");
    assert_eq!(bin_name("."), "");
    assert_eq!(bin_name("./"), "");
    assert_eq!(bin_name("/"), "");
    assert_eq!(bin_name(""), "");
    assert_eq!(bin_name("a/.."), "");
    assert_eq!(bin_name("firefox"), "firefox");
}
