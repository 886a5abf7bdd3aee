use hoplite::launchd::{launchd_label, launchd_plist, xml_escape};

#[test]
fn creates_safe_launchd_definition() {
    let label = launchd_label("example/web api");
    assert_eq!(label, "org.hara.hoplite.example-web-api");
    let plist = launchd_plist(
        &label,
        "/Applications/Hara & Hoplite/hoplite",
        "/tmp/example <web>",
    );
    assert!(plist.contains("<string>serve</string>"));
    assert!(plist.contains("<string>foreground</string>"));
    assert!(plist.contains("Hara &amp; Hoplite"));
    assert!(plist.contains("example &lt;web&gt;"));
    assert!(plist.contains("<key>KeepAlive</key><true/>"));
}

#[test]
fn xml_escape_replaces_every_markup_character() {
    assert_eq!(
        xml_escape("a&b<c>d\"e'f"),
        "a&amp;b&lt;c&gt;d&quot;e&apos;f"
    );
    assert_eq!(xml_escape("plain"), "plain");
}

#[test]
fn log_paths_join_the_project_root() {
    let plist = launchd_plist("l", "/bin/h", "/srv/app/");
    assert!(plist.contains("<string>/srv/app/.hoplite/launchd.stdout.log</string>"));
    let plist = launchd_plist("l", "/bin/h", "/srv/app");
    assert!(plist.contains("<string>/srv/app/.hoplite/launchd.stderr.log</string>"));
    assert_eq!(launchd_label("a.b-c_d"), "org.hara.hoplite.a.b-c-d");
}
