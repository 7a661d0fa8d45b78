use linkrouter::detectors::common::ChromiumProfile;
use linkrouter::detectors::windows::{
    chromium_data_dir, registry_browsers_from, exe_stem, parse_reg_command, windows_candidates, windows_profiles,
    windows_sources, WindowsBrowserDetector, WindowsFound,
};

#[test]
fn parses_quoted_registry_command() {
    let command = r#""C:\Program Files\Google\Chrome\Application\chrome.exe" --flag"#;
    assert_eq!(
        parse_reg_command(command).unwrap(),
        r"C:\Program Files\Google\Chrome\Application\chrome.exe"
    );
}

#[test]
fn parses_unquoted_registry_command() {
    assert_eq!(
        parse_reg_command(r"C:\Edge\msedge.exe -something").unwrap(),
        r"C:\Edge\msedge.exe"
    );
}

#[test]
fn maps_known_install_suffixes() {
    let roots = vec![r"C:\Program Files".to_string()];
    let _detector = WindowsBrowserDetector::new();
    let candidates = windows_candidates(&Vec::new(), &roots);
    assert_eq!(candidates.len(), 7);
    assert_eq!(
        candidates[0].0,
        r"C:\Program Files\Google/Chrome/Application/chrome.exe"
    );
    // none of the candidates exists on this machine
    let found = windows_profiles("", "", &Vec::new());
    assert!(found.is_empty());
}

#[test]
fn registry_commands_come_first_and_bad_ones_are_skipped() {
    let reg = vec![
        ("Edge".to_string(), r#""C:\E\msedge.exe" --x"#.to_string()),
        ("Broken".to_string(), "   ".to_string()),
    ];
    let c = windows_candidates(&reg, &Vec::new());
    assert_eq!(c, vec![(r"C:\E\msedge.exe".to_string(), "Edge".to_string())]);
    assert!(parse_reg_command("\"\" x").is_none());
}

#[test]
fn windows_tables_and_sources() {
    assert_eq!(exe_stem(r"C:\Apps\Chrome.EXE"), "chrome");
    assert_eq!(exe_stem(r"C:\Apps\firefox.exe"), "firefox");
    assert_eq!(chromium_data_dir("msedge"), Some("Microsoft/Edge/User Data"));
    assert_eq!(chromium_data_dir("firefox"), None);
    let (ff, ch) = windows_sources(r"C:\L", r"C:\R", r"C:\x\firefox.exe");
    assert_eq!(ff.as_deref(), Some(r"C:\R\Mozilla\Firefox"));
    assert!(ch.is_none());
    let (ff, ch) = windows_sources(r"C:\L", r"C:\R", r"C:\x\chrome.exe");
    assert!(ff.is_none());
    assert_eq!(ch.as_deref(), Some(r"C:\L\Google/Chrome/User Data"));
}

#[test]
fn windows_profiles_expand_chromium() {
    let found = vec![WindowsFound {
        executable: r"C:\G\chrome.exe".to_string(),
        name: "Google Chrome".to_string(),
        firefox_ini: None,
        chromium: vec![ChromiumProfile {
            directory: "Profile 1".to_string(),
            display_name: "Work".to_string(),
        }],
    }];
    let profiles = windows_profiles(r"C:\L", r"C:\R", &found);
    assert_eq!(profiles.len(), 1);
    assert_eq!(profiles[0].id, "windows/chrome/Profile-1");
    assert_eq!(profiles[0].name, "Google Chrome · Work");
    assert_eq!(profiles[0].browser_name, "chrome.exe");
    assert_eq!(
        profiles[0].profile_dir.as_deref(),
        Some(r"C:\L\Google/Chrome/User Data\Profile 1")
    );
}

#[test]
fn registry_subkeys_count_once_across_hives() {
    let entries = vec![
        ("Firefox-308046B0AF4A39CB".to_string(), Some("Firefox".to_string())),
        ("Unreadable".to_string(), None),
        ("Firefox-308046B0AF4A39CB".to_string(), Some("Firefox (user)".to_string())),
        ("Unreadable".to_string(), Some("late".to_string())),
        ("Google Chrome".to_string(), Some("Google Chrome".to_string())),
    ];
    assert_eq!(
        registry_browsers_from(&entries),
        vec![
            ("Firefox-308046B0AF4A39CB".to_string(), "Firefox".to_string()),
            ("Google Chrome".to_string(), "Google Chrome".to_string()),
        ]
    );
}

#[test]
fn windows_firefox_profiles_join_with_backslash() {
    let found = vec![WindowsFound {
        executable: r"C:\M\firefox.exe".to_string(),
        name: "Firefox".to_string(),
        firefox_ini: Some("[Profile0]\nName=main\nIsRelative=1\nPath=Profiles/abc\n".to_string()),
        chromium: Vec::new(),
    }];
    let profiles = windows_profiles(r"C:\L", r"C:\R", &found);
    assert_eq!(profiles.len(), 1);
    assert_eq!(profiles[0].id, "windows/firefox/main");
    assert_eq!(profiles[0].profile_dir.as_deref(), Some(r"C:\R\Mozilla\Firefox\Profiles/abc"));
}
