use mango_workspaces::button::{
    compute_css_classes, orientation_for, Align, MangoTagButton, MangoTagButtonInit, Orientation,
};
use mango_workspaces::config::{ActiveIndicator, DisplayMode};
use mango_workspaces::styling::{
    push_tag_override_rules, separator_css, tag_margins, workspaces_css, WorkspaceColors,
    WorkspaceSizes,
};

fn init(is_active: bool, has_clients: bool, is_urgent: bool, is_vertical: bool) -> MangoTagButtonInit {
    MangoTagButtonInit {
        index: 3,
        label: Some("3".into()),
        icon: None,
        is_active,
        is_urgent,
        has_clients,
        is_vertical,
        display_mode: DisplayMode::Label,
        active_indicator: ActiveIndicator::Background,
    }
}

#[test]
fn classes_of_buttons() {
    assert_eq!(
        compute_css_classes(&init(true, true, true, true)),
        vec!["workspace", "active", "urgent", "indicator-background", "vertical", "tag-id-3"]
    );
    assert_eq!(
        compute_css_classes(&init(false, true, false, false)),
        vec!["workspace", "occupied", "indicator-background", "tag-id-3"]
    );
    let mut empty = init(false, false, false, false);
    empty.active_indicator = ActiveIndicator::Underline;
    assert_eq!(
        compute_css_classes(&empty),
        vec!["workspace", "empty", "indicator-underline", "tag-id-3"]
    );
}

fn button(label: Option<&str>, icon: Option<&str>, mode: DisplayMode, vertical: bool) -> MangoTagButton {
    let mut i = init(false, false, false, vertical);
    i.label = label.map(String::from);
    i.icon = icon.map(String::from);
    i.display_mode = mode;
    MangoTagButton::init_model(i)
}

#[test]
fn what_a_button_shows() {
    let b = button(Some("3"), None, DisplayMode::Label, false);
    assert!(b.show_label() && !b.show_icon());
    assert_eq!(b.label_text(), "3");
    assert_eq!(b.classes, vec!["workspace", "empty", "indicator-background", "tag-id-3"]);
    let b = button(Some("3"), Some("ld-globe-symbolic"), DisplayMode::Icon, false);
    assert!(!b.show_label() && b.show_icon());
    let b = button(Some("3"), None, DisplayMode::Icon, false);
    assert!(b.show_label() && !b.show_icon());
    let b = button(Some("3"), Some("x"), DisplayMode::Nothing, false);
    assert!(!b.show_label() && !b.show_icon());
    let b = button(Some(""), None, DisplayMode::Label, false);
    assert!(!b.show_label());
    let b = button(None, None, DisplayMode::Label, false);
    assert!(!b.show_label());
    assert_eq!(b.label_text(), "");
}

#[test]
fn layout_follows_the_bar() {
    let h = button(None, None, DisplayMode::Label, false);
    assert_eq!(h.orientation(), Orientation::Horizontal);
    assert_eq!(h.content_halign(), Align::Center);
    assert_eq!(h.content_valign(), Align::Fill);
    let v = button(None, None, DisplayMode::Label, true);
    assert_eq!(v.orientation(), Orientation::Vertical);
    assert_eq!(v.content_halign(), Align::Fill);
    assert_eq!(v.content_valign(), Align::Center);
    assert_eq!(orientation_for(true), Orientation::Vertical);
}

fn colors() -> WorkspaceColors {
    WorkspaceColors {
        active: "var(--accent)".into(),
        occupied: "var(--fg-muted)".into(),
        empty: "var(--fg-subtle)".into(),
        container_bg: "var(--bg-surface-elevated)".into(),
        border: "var(--border-default)".into(),
    }
}

#[test]
fn workspaces_rule() {
    let sizes = WorkspaceSizes { border_width: 2, icon_size_px: 21, label_size_px: 18, tag_padding_px: 8 };
    assert_eq!(
        workspaces_css(&colors(), &sizes, false),
        ".workspaces.mango { --ws-active-color: var(--accent); --ws-occupied-color: var(--fg-muted); \
         --ws-empty-color: var(--fg-subtle); --ws-container-bg-color: var(--bg-surface-elevated); \
         --ws-border-color: var(--border-default); --ws-border-width: 2px; --ws-icon-size-px: 21; \
         --ws-label-size-px: 18; --ws-margin-vertical-px: 0; --ws-margin-horizontal-px: 8; }"
    );
    let vertical = workspaces_css(&colors(), &sizes, true);
    assert!(vertical.ends_with("--ws-margin-vertical-px: 8; --ws-margin-horizontal-px: 0; }"));
    let negative = WorkspaceSizes { border_width: 0, icon_size_px: -3, label_size_px: 0, tag_padding_px: -1 };
    assert!(workspaces_css(&colors(), &negative, false).contains("--ws-icon-size-px: -3;"));
    assert_eq!(tag_margins(5, true), (5, 0));
    assert_eq!(tag_margins(5, false), (0, 5));
}

#[test]
fn per_tag_color_rules() {
    let mut css = String::from("X");
    push_tag_override_rules(&mut css, &[(1, "#4a90d9".to_string()), (12, "red".to_string())]);
    assert_eq!(
        css,
        "X.workspaces.mango .workspace.tag-id-1 { --ws-override-color: #4a90d9; }\
         .workspaces.mango .workspace.tag-id-12 { --ws-override-color: red; }"
    );
    let mut none = String::new();
    push_tag_override_rules(&mut none, &[]);
    assert_eq!(none, "");
}

#[test]
fn separator_rule() {
    assert_eq!(
        separator_css("var(--border-default)", false, 2, 19),
        "separator { background-color: var(--border-default); min-width: 2px; min-height: 19px; }"
    );
    assert_eq!(
        separator_css("red", true, 2, 19),
        "separator { background-color: red; min-width: 19px; min-height: 2px; }"
    );
}
