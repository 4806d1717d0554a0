use lunaris_portal::theme::{apply_override, apply_overrides, resolve_token, theme_for, Theme};

#[test]
fn token_resolves_to_base_color() {
    let base = Theme::dark_defaults();
    assert_eq!(resolve_token("$foreground", &base), base.fg_app);
    assert_eq!(resolve_token("$accent", &base), base.accent);
}

#[test]
fn plain_color_passes_through() {
    let base = Theme::dark_defaults();
    assert_eq!(resolve_token("#ff0000", &base), "#ff0000");
}

#[test]
fn unknown_token_returns_literal() {
    let base = Theme::dark_defaults();
    assert_eq!(resolve_token("$nonexistent", &base), "$nonexistent");
}

#[test]
fn override_with_token_reference() {
    let mut theme = Theme::dark_defaults();
    let overrides = vec![("accent".to_string(), Some("$foreground".to_string()))];
    apply_overrides(&mut theme, &overrides);
    assert_eq!(theme.accent, theme.fg_app);
}

#[test]
fn token_aliases_resolve() {
    let base = Theme::light_defaults();
    assert_eq!(resolve_token("$fg", &base), "#0f0f0f");
    assert_eq!(resolve_token("$secondary", &base), "#71717a");
    assert_eq!(resolve_token("$bg", &base), "#ffffff");
    assert_eq!(resolve_token("$card", &base), "#fafafa");
    assert_eq!(resolve_token("$border", &base), "#e4e4e7");
    assert_eq!(resolve_token("$", &base), "$");
    assert_eq!(resolve_token("", &base), "");
}

#[test]
fn tokens_resolve_against_base_not_earlier_overrides() {
    let mut theme = Theme::dark_defaults();
    let overrides = vec![
        ("foreground".to_string(), Some("#123456".to_string())),
        ("accent".to_string(), Some("$foreground".to_string())),
    ];
    apply_overrides(&mut theme, &overrides);
    assert_eq!(theme.fg_app, "#123456");
    assert_eq!(theme.accent, "#fafafa");
}

#[test]
fn override_order_of_distinct_colors_does_not_matter() {
    let a = ("accent".to_string(), Some("$muted".to_string()));
    let b = ("muted".to_string(), Some("#000000".to_string()));
    let mut t1 = Theme::dark_defaults();
    apply_overrides(&mut t1, &vec![a.clone(), b.clone()]);
    let mut t2 = Theme::dark_defaults();
    apply_overrides(&mut t2, &vec![b, a]);
    assert_eq!(t1.accent, t2.accent);
    assert_eq!(t1.fg_muted, t2.fg_muted);
    assert_eq!(t1.accent, "#a1a1aa");
}

#[test]
fn non_string_and_unknown_overrides_are_ignored() {
    let mut theme = Theme::dark_defaults();
    apply_overrides(
        &mut theme,
        &vec![
            ("accent".to_string(), None),
            ("sparkle".to_string(), Some("#111111".to_string())),
        ],
    );
    assert_eq!(theme.accent, "#6366f1");
    apply_override(&mut theme, "error", "#222222");
    assert_eq!(theme.danger, "#222222");
}

#[test]
fn mode_selects_defaults() {
    assert_eq!(theme_for(Some("light"), None).bg_app, "#ffffff");
    assert_eq!(theme_for(Some("dark"), None).bg_app, "#0f0f0f");
    assert_eq!(theme_for(Some("sepia"), None).bg_app, "#0f0f0f");
    assert_eq!(theme_for(None, None).bg_app, "#0f0f0f");
    let o = vec![("bg_card".to_string(), Some("$background".to_string()))];
    assert_eq!(theme_for(Some("light"), Some(&o)).bg_card, "#ffffff");
}
