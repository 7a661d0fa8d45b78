use linkrouter::detectors::common::{
    chromium_profiles_from_local_state, chromium_rank, desktop_exec_command, parse_desktop,
    parse_profiles_ini, pick_chromium_profiles, sort_chromium_profiles, ChromiumProfile,
};

#[test]
fn parses_browser_desktop_entry() {
    let content = "\
[Desktop Entry]
Type=Application
Name=Firefox
Exec=/usr/bin/firefox %u
Icon=firefox
Categories=Network;WebBrowser;
MimeType=text/html;x-scheme-handler/http;
";
    let entry = parse_desktop(content).unwrap();
    assert!(entry.is_browser());
    assert_eq!(entry.name, "Firefox");
    assert_eq!(entry.icon.as_deref(), Some("firefox"));
}

#[test]
fn rejects_non_browser_desktop_entry() {
    let content = "\
[Desktop Entry]
Type=Application
Name=LibreOffice
Exec=/usr/bin/loimpress
Categories=Office;
";
    let entry = parse_desktop(content).unwrap();
    assert!(!entry.is_browser());
}

#[test]
fn extracts_exec_command_with_env_and_quotes() {
    assert_eq!(
        desktop_exec_command("/usr/bin/chromium %U").as_deref(),
        Some("/usr/bin/chromium")
    );
    assert_eq!(
        desktop_exec_command("env BAMF_DESKTOP_FILE_HINT=1 google-chrome %U").as_deref(),
        Some("google-chrome")
    );
    assert_eq!(
        desktop_exec_command("\"/opt/app/bin\"").as_deref(),
        Some("/opt/app/bin")
    );
    assert!(desktop_exec_command("").is_none());
}

#[test]
fn reads_chromium_profiles_from_local_state() {
    let local_state = r#"{
  "profile": {
    "info_cache": {
      "Profile 1": { "name": "Trabajo" },
      "Default": { "name": "Default" }
    }
  }
}"#;
    let profiles = chromium_profiles_from_local_state(local_state).unwrap();
    assert_eq!(profiles.len(), 2);
    assert_eq!(profiles[0].directory, "Default");
    assert_eq!(profiles[1].directory, "Profile 1");
    assert_eq!(profiles[1].display_name, "Trabajo");
}

#[test]
fn falls_back_to_directory_scan_without_local_state() {
    let dirs = vec!["Profile 1".to_string(), "Default".to_string()];
    let profiles = pick_chromium_profiles(None, &dirs);
    assert_eq!(profiles[0].directory, "Default");
    assert_eq!(profiles[1].directory, "Profile 1");
}

#[test]
fn returns_empty_when_no_profiles_exist() {
    assert!(pick_chromium_profiles(None, &Vec::new()).is_empty());
}

#[test]
fn parses_firefox_profiles_ini() {
    let content = "\
[General]
StartWithLastProfile=1

[Profile0]
Name=default-release
IsRelative=1
Path=abc123.default-release

[Profile1]
Name=Trabajo
IsRelative=0
Path=/home/alord/work-profile
";
    let profiles = parse_profiles_ini(content, "/home/alord/.mozilla/firefox");
    assert_eq!(profiles.len(), 2);
    assert_eq!(profiles[0].name, "default-release");
    assert_eq!(
        profiles[0].dir,
        "/home/alord/.mozilla/firefox/abc123.default-release"
    );
    assert_eq!(profiles[1].name, "Trabajo");
    assert_eq!(profiles[1].dir, "/home/alord/work-profile");
}

#[test]
fn profiles_ini_without_a_path_is_skipped() {
    let content = "[Profile0]\nName=nopath\n\n[Profile1]\nName=ok\nPath=p\n\n[Profile2]\nName=rel\nIsRelative=1\nPath=q\n";
    let profiles = parse_profiles_ini(content, "/b");
    assert_eq!(profiles.len(), 2);
    assert_eq!(profiles[0].name, "ok");
    assert_eq!(profiles[0].dir, "p");
    assert_eq!(profiles[1].dir, "/b/q");
}

#[test]
fn local_state_that_is_not_json_gives_nothing() {
    assert!(chromium_profiles_from_local_state("{not json").is_none());
    assert!(chromium_profiles_from_local_state("{\"profile\":{}}").is_none());
}

#[test]
fn local_state_without_a_name_shows_the_directory() {
    let s = r#"{"profile":{"info_cache":{"Profile 3":{},"Profile 2":{"name":""}}}}"#;
    let profiles = chromium_profiles_from_local_state(s).unwrap();
    assert_eq!(profiles.len(), 2);
    assert_eq!(profiles[0].directory, "Profile 2");
    assert_eq!(profiles[0].display_name, "Profile 2");
    assert_eq!(profiles[1].display_name, "Profile 3");
}

#[test]
fn empty_local_state_falls_back_to_directories() {
    let s = r#"{"profile":{"info_cache":{}}}"#;
    let dirs = vec!["Guest Profile".to_string(), "Default".to_string()];
    let profiles = pick_chromium_profiles(Some(s.to_string()), &dirs);
    assert_eq!(profiles.len(), 1);
    assert_eq!(profiles[0].directory, "Default");
}

#[test]
fn chromium_ranks_default_then_numbered_then_others() {
    assert_eq!(chromium_rank("Default"), (0, 0));
    assert_eq!(chromium_rank("Profile 12"), (1, 12));
    assert_eq!(chromium_rank("Profile x"), (2, usize::MAX));
    assert_eq!(chromium_rank("System Profile"), (2, usize::MAX));
    let input: Vec<ChromiumProfile> = ["Profile 10", "Other", "Profile 2", "Default"]
        .iter()
        .map(|d| ChromiumProfile { directory: d.to_string(), display_name: d.to_string() })
        .collect();
    let sorted = sort_chromium_profiles(&input);
    let order: Vec<&str> = sorted.iter().map(|p| p.directory.as_str()).collect();
    assert_eq!(order, vec!["Default", "Profile 2", "Profile 10", "Other"]);
}
