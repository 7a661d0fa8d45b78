use linkrouter::mimeapps::{
    add_association, desktop_contents, ensure_header, handler_name, is_default, scheme_key,
    set_pair, upsert_mimeapps,
};

#[test]
fn upsert_creates_default_and_association_from_scratch() {
    let mut content = String::new();
    upsert_mimeapps(&mut content, "https", "linkrouter-handler.desktop");

    assert!(content.contains("[Default Applications]"));
    assert!(content.contains("x-scheme-handler/https=linkrouter-handler.desktop"));
    assert!(content.contains("[Added Associations]"));
    assert!(content.contains("x-scheme-handler/https=linkrouter-handler.desktop;"));
    assert!(is_default(&content, "https", "linkrouter-handler.desktop"));
}

#[test]
fn upsert_replaces_existing_default() {
    let mut content =
        "[Default Applications]\nx-scheme-handler/https=org.mozilla.firefox.desktop\n".to_string();
    upsert_mimeapps(&mut content, "https", "linkrouter-handler.desktop");

    assert!(content.contains("x-scheme-handler/https=linkrouter-handler.desktop"));
    assert!(!content.contains("org.mozilla.firefox.desktop"));
    assert!(is_default(&content, "https", "linkrouter-handler.desktop"));
    assert!(!is_default(&content, "http", "linkrouter-handler.desktop"));
}

#[test]
fn upsert_keeps_unrelated_entries() {
    let mut content = "[Default Applications]\ntext/html=userapp-Firefox.desktop\n".to_string();
    upsert_mimeapps(&mut content, "https", "linkrouter-handler.desktop");

    assert!(content.contains("text/html=userapp-Firefox.desktop"));
    assert!(content.contains("x-scheme-handler/https=linkrouter-handler.desktop"));
}

#[test]
fn add_association_appends_second_desktop() {
    let mut content = String::new();
    upsert_mimeapps(&mut content, "https", "linkrouter-handler.desktop");

    let mut lines: Vec<String> = content.lines().map(str::to_string).collect();
    add_association(&mut lines, &scheme_key("https"), "org.mozilla.firefox.desktop");

    let mut content = lines.join("\n");
    upsert_mimeapps(&mut content, "https", "linkrouter-handler.desktop");
    assert!(content
        .contains("x-scheme-handler/https=linkrouter-handler.desktop;org.mozilla.firefox.desktop;"));
}

#[test]
fn upsert_output_is_exact_from_scratch() {
    let mut content = String::new();
    upsert_mimeapps(&mut content, "https", "linkrouter-handler.desktop");
    assert_eq!(
        content,
        "[Default Applications]\nx-scheme-handler/https=linkrouter-handler.desktop\n\n[Added Associations]\nx-scheme-handler/https=linkrouter-handler.desktop;\n"
    );
}

#[test]
fn upsert_twice_changes_nothing_more() {
    let mut once = "[Default Applications]\ntext/html=a.desktop\n".to_string();
    upsert_mimeapps(&mut once, "http", "linkrouter-handler.desktop");
    let mut twice = once.clone();
    upsert_mimeapps(&mut twice, "http", "linkrouter-handler.desktop");
    assert_eq!(once, twice);
    assert!(is_default(&twice, "http", "linkrouter-handler.desktop"));
}

#[test]
fn is_default_reads_only_the_default_section() {
    let content = "[Added Associations]\nx-scheme-handler/https=linkrouter-handler.desktop;\n";
    assert!(!is_default(content, "https", "linkrouter-handler.desktop"));
    let content = "[Default Applications]\n  x-scheme-handler/https = a.desktop;linkrouter-handler.desktop  \n";
    assert!(is_default(content, "https", "linkrouter-handler.desktop"));
    assert!(!is_default("", "https", "linkrouter-handler.desktop"));
}

#[test]
fn ensure_header_adds_a_blank_line_before_a_new_section() {
    let mut lines = vec!["[Default Applications]".to_string(), "a=b".to_string()];
    ensure_header(&mut lines, "[Added Associations]");
    assert_eq!(lines, vec!["[Default Applications]", "a=b", "", "[Added Associations]"]);
    ensure_header(&mut lines, "[Added Associations]");
    assert_eq!(lines.len(), 4);
    let mut empty: Vec<String> = Vec::new();
    ensure_header(&mut empty, "[X]");
    assert_eq!(empty, vec!["[X]"]);
}

#[test]
fn set_pair_rewrites_only_the_first_entry_of_the_section() {
    let mut lines = vec![
        "[Other]".to_string(),
        "k=old".to_string(),
        "[S]".to_string(),
        "k = old".to_string(),
        "k=second".to_string(),
    ];
    set_pair(&mut lines, "[S]", "k", "new");
    assert_eq!(lines, vec!["[Other]", "k=old", "[S]", "k=new", "k=second"]);
    set_pair(&mut lines, "[Other]", "z", "1");
    assert_eq!(lines, vec!["[Other]", "z=1", "k=old", "[S]", "k=new", "k=second"]);
}

#[test]
fn add_association_does_not_repeat_a_listed_desktop() {
    let mut lines = vec!["[Added Associations]".to_string(), "k=a.desktop;b.desktop".to_string()];
    add_association(&mut lines, "k", "b.desktop");
    assert_eq!(lines[1], "k=a.desktop;b.desktop");
    add_association(&mut lines, "k", "c.desktop");
    assert_eq!(lines[1], "k=a.desktop;b.desktop;c.desktop;");
}

#[test]
fn scheme_key_and_desktop_file() {
    assert_eq!(scheme_key("https"), "x-scheme-handler/https");
    assert_eq!(
        desktop_contents("/opt/lr/linkrouter"),
        "[Desktop Entry]\nType=Application\nName=LinkRouter\nExec=\"/opt/lr/linkrouter\" %u\nTryExec=/opt/lr/linkrouter\nTerminal=false\nNoDisplay=true\nMimeType=x-scheme-handler/http;x-scheme-handler/https;\n"
    );
}

#[test]
fn handler_name_follows_the_executable() {
    assert_eq!(
        handler_name("/usr/bin/linkrouter").unwrap(),
        "linkrouter-handler.desktop"
    );
    assert_eq!(
        handler_name("/").unwrap_err(),
        "el ejecutable no tiene nombre"
    );
}

#[test]
fn registering_one_scheme_keeps_the_other() {
    let mut content = "[Default Applications]\nx-scheme-handler/mailto=thunderbird.desktop\n".to_string();
    upsert_mimeapps(&mut content, "https", "linkrouter-handler.desktop");
    upsert_mimeapps(&mut content, "http", "linkrouter-handler.desktop");
    assert!(is_default(&content, "https", "linkrouter-handler.desktop"));
    assert!(is_default(&content, "http", "linkrouter-handler.desktop"));
    assert!(is_default(&content, "mailto", "thunderbird.desktop"));
}
