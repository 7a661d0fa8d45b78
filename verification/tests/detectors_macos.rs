use linkrouter::detectors::common::ChromiumProfile;
use linkrouter::detectors::macos::{
    application_support, bundle_binary, bundle_paths, chromium_app_data_dir, first_present,
    macos_bundles, macos_profiles, macos_search_dirs, macos_sources, MacFound, MacOsBrowserDetector,
};

#[test]
fn bundles_and_search_dirs() {
    let _d = MacOsBrowserDetector::new();
    let b = macos_bundles();
    assert_eq!(b.len(), 10);
    assert_eq!(b[0], ("Safari".to_string(), "Safari.app".to_string()));
    assert_eq!(b[2], ("Brave".to_string(), "Brave Browser.app".to_string()));
    assert_eq!(
        macos_search_dirs("/Users/a"),
        vec!["/Applications", "/System/Applications", "/Network/Applications", "/Users/a/Applications"]
    );
}

#[test]
fn bundle_paths_use_the_app_bundle_name() {
    let (app, exe) = bundle_paths("/Applications", "Zen Browser", "Zen Browser.app");
    assert_eq!(app, "/Applications/Zen Browser.app");
    assert_eq!(exe, "/Applications/Zen Browser.app/Contents/MacOS/zen");
    assert_eq!(bundle_binary("Firefox.app"), "firefox");
    assert_eq!(bundle_binary("Unknown"), "Unknown");
    assert_eq!(first_present(&vec![false, true, true]), Some(1));
    assert_eq!(first_present(&vec![false, false]), None);
}

#[test]
fn macos_sources_per_browser() {
    assert_eq!(application_support("/Users/a"), "/Users/a/Library/Application Support");
    assert_eq!(chromium_app_data_dir("Arc"), Some("Arc/User Data"));
    assert_eq!(chromium_app_data_dir("Safari"), None);
    let (ff, ch) = macos_sources("/Users/a", "Firefox");
    assert_eq!(ff.as_deref(), Some("/Users/a/Library/Application Support/Firefox"));
    assert!(ch.is_none());
    let (ff, ch) = macos_sources("/Users/a", "Brave");
    assert!(ff.is_none());
    assert_eq!(
        ch.as_deref(),
        Some("/Users/a/Library/Application Support/BraveSoftware/Brave-Browser")
    );
}

#[test]
fn macos_profiles_expand_and_sort() {
    let found = vec![
        MacFound {
            name: "Safari".to_string(),
            executable: "/Applications/Safari.app/Contents/MacOS/Safari".to_string(),
            icon: Some("/Applications/Safari.app/Contents/Resources/AppIcon.icns".to_string()),
            firefox_ini: None,
            chromium: Vec::new(),
        },
        MacFound {
            name: "Google Chrome".to_string(),
            executable: "/Applications/Google Chrome.app/Contents/MacOS/Google Chrome".to_string(),
            icon: None,
            firefox_ini: None,
            chromium: vec![ChromiumProfile {
                directory: "Default".to_string(),
                display_name: "Personal".to_string(),
            }],
        },
        MacFound {
            name: "Firefox".to_string(),
            executable: "/Applications/Firefox.app/Contents/MacOS/firefox".to_string(),
            icon: None,
            firefox_ini: Some("[Profile0]\nName=main profile\nIsRelative=1\nPath=Profiles/x\n".to_string()),
            chromium: Vec::new(),
        },
    ];
    let profiles = macos_profiles("/Users/a", &found);
    let ids: Vec<&str> = profiles.iter().map(|p| p.id.as_str()).collect();
    assert_eq!(
        ids,
        vec!["macos/firefox/main-profile", "macos/google-chrome/Default", "macos/safari"]
    );
    assert_eq!(profiles[0].args, vec!["-P", "main profile"]);
    assert_eq!(
        profiles[0].profile_dir.as_deref(),
        Some("/Users/a/Library/Application Support/Firefox/Profiles/x")
    );
    assert_eq!(profiles[1].name, "Google Chrome · Personal");
    assert_eq!(
        profiles[1].profile_dir.as_deref(),
        Some("/Users/a/Library/Application Support/Google/Chrome/Default")
    );
    assert_eq!(profiles[2].browser_name, "Safari");
    assert_eq!(
        profiles[2].icon.as_deref(),
        Some("/Applications/Safari.app/Contents/Resources/AppIcon.icns")
    );
}
