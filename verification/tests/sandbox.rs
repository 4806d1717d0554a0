use lunaris_portal::sandbox::{match_flatpak, match_snap, parse_cgroup, CallerIdentity};

#[test]
fn detects_flatpak() {
    let content = "0::/user.slice/user-1000.slice/user@1000.service/app.slice/app-flatpak-org.gnome.Calculator-12345.scope\n";
    assert_eq!(
        parse_cgroup(content),
        CallerIdentity::Flatpak {
            app_id: "org.gnome.Calculator".into()
        }
    );
}

#[test]
fn detects_snap() {
    let content = "0::/user.slice/user-1000.slice/user@1000.service/app.slice/snap.firefox.firefox.scope\n";
    assert_eq!(
        parse_cgroup(content),
        CallerIdentity::Snap {
            name: "firefox".into()
        }
    );
}

#[test]
fn unconfined_for_plain_user_session() {
    let content = "0::/user.slice/user-1000.slice/user@1000.service/app.slice/app-org.gnome.Terminal-12345.scope\n";
    assert_eq!(parse_cgroup(content), CallerIdentity::Unconfined);
}

#[test]
fn empty_file_is_unconfined() {
    assert_eq!(parse_cgroup(""), CallerIdentity::Unconfined);
}

#[test]
fn malformed_flatpak_is_unconfined() {
    let content = "0::/user.slice/.../app-flatpak.scope\n";
    assert_eq!(parse_cgroup(content), CallerIdentity::Unconfined);
}

#[test]
fn app_id_accessor() {
    assert_eq!(
        CallerIdentity::Flatpak {
            app_id: "x".into()
        }
        .app_id(),
        Some("x")
    );
    assert_eq!(CallerIdentity::Unconfined.app_id(), None);
}

#[test]
fn snap_app_id_accessor() {
    assert_eq!(CallerIdentity::Snap { name: "firefox".into() }.app_id(), Some("firefox"));
}

#[test]
fn first_confined_line_wins_on_hybrid_systems() {
    let content = "12:pids:/user.slice\n1:name=systemd:/user.slice/snap.vlc.vlc.scope\n0::/app.slice/app-flatpak-org.example.App-7.scope\n";
    assert_eq!(parse_cgroup(content), CallerIdentity::Snap { name: "vlc".into() });
}

#[test]
fn crlf_line_endings_are_trimmed() {
    let content = "0::/app.slice/app-flatpak-org.example.App-7.scope\r\n";
    assert_eq!(
        parse_cgroup(content),
        CallerIdentity::Flatpak { app_id: "org.example.App".into() }
    );
}

#[test]
fn last_line_without_newline_is_read() {
    let content = "1:cpu:/\n0::/app.slice/snap.code.code.scope";
    assert_eq!(parse_cgroup(content), CallerIdentity::Snap { name: "code".into() });
}

#[test]
fn flatpak_app_id_keeps_inner_dashes() {
    assert_eq!(
        match_flatpak("app-flatpak-com.example.my-app-42.scope"),
        Some("com.example.my-app".to_string())
    );
}

#[test]
fn flatpak_requires_non_empty_app_id() {
    assert_eq!(match_flatpak("/x/app-flatpak--42.scope"), None);
    assert_eq!(match_flatpak("/x/app-flatpak-noid.scope"), None);
    assert_eq!(match_flatpak("/x/app-flatpak-org.a-1.service"), None);
}

#[test]
fn snap_requires_name_and_launcher() {
    assert_eq!(match_snap("/x/snap.firefox.scope"), None);
    assert_eq!(match_snap("/x/snap..firefox.scope"), None);
    assert_eq!(match_snap("snap.firefox.firefox.scope"), Some("firefox".to_string()));
}
