use mango_workspaces::config::{
    ActiveIndicator, ColorValue, CssToken, DisplayMode, MangoWorkspacesConfig, TagMap, TagStyle,
};

fn style(icon: Option<&str>, color: Option<ColorValue>) -> TagStyle {
    TagStyle { icon: icon.map(String::from), color }
}

#[test]
fn indicator_classes() {
    assert_eq!(ActiveIndicator::Background.css_class(), "indicator-background");
    assert_eq!(ActiveIndicator::Underline.css_class(), "indicator-underline");
}

#[test]
fn enum_defaults() {
    assert_eq!(DisplayMode::default(), DisplayMode::Label);
    assert_eq!(ActiveIndicator::default(), ActiveIndicator::Background);
    assert_eq!(TagStyle::default(), style(None, None));
}

#[test]
fn config_defaults() {
    let c = MangoWorkspacesConfig::default();
    assert_eq!(c.min_tag_count, 0);
    assert!(c.monitor_specific);
    assert_eq!(c.display_mode, DisplayMode::Label);
    assert_eq!(c.active_indicator, ActiveIndicator::Background);
    assert!(c.tag_ignore.is_empty());
    assert_eq!(c.active_color, ColorValue::Token(CssToken::Accent));
    assert_eq!(c.occupied_color, ColorValue::Token(CssToken::FgMuted));
    assert_eq!(c.empty_color, ColorValue::Token(CssToken::FgSubtle));
    assert_eq!(c.container_bg_color, ColorValue::Token(CssToken::BgSurfaceElevated));
    assert!(!c.border_show);
    assert_eq!(c.border_color, ColorValue::Token(CssToken::BorderDefault));
    assert_eq!(c.tag_map.len(), 0);
}

#[test]
fn module_info_names_the_module() {
    let info = MangoWorkspacesConfig::module_info();
    assert_eq!(info.name, "mango-workspaces");
    assert_eq!(info.layout_id.as_deref(), Some("mango-workspaces"));
    assert!(!info.array_entry);
}

#[test]
fn reads_tag_map_keyed_by_text() {
    let map = TagMap::from_string_keys(vec![
        ("1".to_string(), style(Some("ld-globe-symbolic"), Some(ColorValue::Custom("#4a90d9".into())))),
        ("2".to_string(), style(Some("ld-terminal-symbolic"), None)),
    ])
    .unwrap();
    assert_eq!(map.len(), 2);
    assert_eq!(map.get(1).unwrap().icon.as_deref(), Some("ld-globe-symbolic"));
    assert_eq!(map.get(2).unwrap().color, None);
    assert!(map.get(3).is_none());
    assert_eq!(map.deref().len(), 2);
}

#[test]
fn later_entries_win_for_the_same_tag() {
    let map = TagMap::from_string_keys(vec![
        ("3".to_string(), style(Some("a"), None)),
        ("+03".to_string(), style(Some("b"), None)),
    ])
    .unwrap();
    assert_eq!(map.len(), 1);
    assert_eq!(map.get(3).unwrap().icon.as_deref(), Some("b"));
}

#[test]
fn rejects_the_first_bad_key() {
    let err = TagMap::from_string_keys(vec![
        ("1".to_string(), style(None, None)),
        ("one".to_string(), style(None, None)),
        ("-2".to_string(), style(None, None)),
    ])
    .unwrap_err();
    assert_eq!(err.key, "one");
    let err = TagMap::from_string_keys(vec![("4294967296".to_string(), style(None, None))]).unwrap_err();
    assert_eq!(err.key, "4294967296");
}

#[test]
fn written_tag_map_reads_back() {
    let map = TagMap::from_string_keys(vec![
        ("1".to_string(), style(Some("x"), None)),
        ("10".to_string(), style(None, Some(ColorValue::Auto))),
        ("7".to_string(), style(Some("y"), Some(ColorValue::Token(CssToken::Accent)))),
    ])
    .unwrap();
    let written = map.to_string_keys();
    let mut keys: Vec<String> = written.iter().map(|(k, _)| k.clone()).collect();
    keys.sort();
    assert_eq!(keys, vec!["1", "10", "7"]);
    let owned: Vec<(String, TagStyle)> = written.into_iter().map(|(k, v)| (k, v.clone())).collect();
    let back = TagMap::from_string_keys(owned).unwrap();
    assert_eq!(back, map);
}

#[test]
fn lists_the_tags_with_their_own_color() {
    let map = TagMap::from_string_keys(vec![
        ("1".to_string(), style(Some("x"), None)),
        ("2".to_string(), style(None, Some(ColorValue::Custom("#fff".into())))),
        ("5".to_string(), style(None, Some(ColorValue::Auto))),
    ])
    .unwrap();
    let mut overrides: Vec<(u32, ColorValue)> =
        map.color_overrides().into_iter().map(|(k, c)| (k, c.clone())).collect();
    overrides.sort_by_key(|(k, _)| *k);
    assert_eq!(overrides, vec![(2, ColorValue::Custom("#fff".into())), (5, ColorValue::Auto)]);
    assert!(TagMap::default().color_overrides().is_empty());
}

#[test]
fn color_texts() {
    for token in [
        CssToken::Accent,
        CssToken::FgMuted,
        CssToken::FgSubtle,
        CssToken::BgSurfaceElevated,
        CssToken::BorderDefault,
        CssToken::AccentSubtle,
        CssToken::Red,
        CssToken::Yellow,
    ] {
        assert_eq!(CssToken::from_name(token.name()), Some(token));
        let c = ColorValue::Token(token);
        assert_eq!(ColorValue::from_text(c.text()), c);
    }
    assert_eq!(CssToken::from_name("fg-muted"), Some(CssToken::FgMuted));
    assert_eq!(CssToken::from_name("Accent"), None);
    assert_eq!(ColorValue::from_text("auto".into()), ColorValue::Auto);
    assert_eq!(ColorValue::Auto.text(), "auto");
    assert_eq!(ColorValue::from_text("#4a90d9".into()), ColorValue::Custom("#4a90d9".into()));
    assert_eq!(ColorValue::Custom("#4a90d9".into()).text(), "#4a90d9");
    assert_eq!(ColorValue::from_text("border-default".into()), ColorValue::Token(CssToken::BorderDefault));
    assert_eq!(ColorValue::from_text("red".into()), ColorValue::Token(CssToken::Red));
    assert_eq!(ColorValue::from_text("accent-subtle".into()), ColorValue::Token(CssToken::AccentSubtle));
    assert_eq!(CssToken::Yellow.name(), "yellow");
}
