use std::sync::Arc;

use mango_workspaces::button::MangoTagButtonOutput;
use mango_workspaces::service::{MangoClient, MangoService, MangoTag};
use mango_workspaces::settings::{entry, ConfigField, SettingItem};
use mango_workspaces::window_title::{change_from, focused_window, snapshot_from, MangoFocusedWindowSource};
use mango_workspaces::workspaces::{
    action_for, config_event_step, refresh_steps, update_border_classes, RefreshStep, message_for_output, navigate_command, refresh_for,
    tag_event_step, view_command, MangoWorkspacesCmd, MangoWorkspacesMsg, WatchStep,
    WorkspaceAction,
};

fn client(title: Option<&str>, app_id: Option<&str>) -> MangoClient {
    MangoClient {
        id: Some(1),
        title: title.map(String::from),
        app_id: app_id.map(String::from),
        monitor: String::new(),
        tags: Vec::new(),
        is_focused: true,
        is_urgent: false,
    }
}

#[test]
fn focused_windows() {
    let w = focused_window(client(Some("Terminal"), None));
    assert_eq!(w.title, "Terminal");
    assert_eq!(w.app_id, "");
    let s = snapshot_from::<String>(Ok(Some(client(None, Some("foot"))))).unwrap();
    assert_eq!((s.title.as_str(), s.app_id.as_str()), ("", "foot"));
    assert!(snapshot_from::<String>(Ok(None)).is_none());
    assert!(snapshot_from::<String>(Err("broken".into())).is_none());
    assert!(change_from::<String>(Err("broken".into())).is_none());
    assert!(matches!(change_from::<String>(Ok(None)), Some(None)));
    let c = change_from::<String>(Ok(Some(client(Some("a"), Some("b"))))).unwrap().unwrap();
    assert_eq!((c.title.as_str(), c.app_id.as_str()), ("a", "b"));
}

#[test]
fn window_source_keeps_its_service() {
    let service = Arc::new(MangoService::new(Some("/tmp/mango".into()), true).ok().unwrap());
    let source = MangoFocusedWindowSource::new(service.clone());
    assert!(Arc::ptr_eq(&source.service, &service));
}

#[test]
fn clicks_and_scrolls() {
    assert_eq!(message_for_output(MangoTagButtonOutput::Clicked(4)), MangoWorkspacesMsg::TagClicked(4));
    assert_eq!(message_for_output(MangoTagButtonOutput::ScrollUp), MangoWorkspacesMsg::ScrollUp);
    assert_eq!(message_for_output(MangoTagButtonOutput::ScrollDown), MangoWorkspacesMsg::ScrollDown);
    assert_eq!(action_for(MangoWorkspacesMsg::TagClicked(4)), WorkspaceAction::SwitchTo(4));
    assert_eq!(action_for(MangoWorkspacesMsg::ScrollUp), WorkspaceAction::Navigate(-1));
    assert_eq!(action_for(MangoWorkspacesMsg::ScrollDown), WorkspaceAction::Navigate(1));
}

#[test]
fn refreshes() {
    let t = refresh_for(MangoWorkspacesCmd::TagsChanged);
    assert!(t.rebuild && t.resize && !t.restyle);
    let c = refresh_for(MangoWorkspacesCmd::ConfigChanged);
    assert!(c.rebuild && c.resize && c.restyle);
}

#[test]
fn refresh_order() {
    assert_eq!(
        refresh_steps(MangoWorkspacesCmd::ConfigChanged),
        vec![RefreshStep::Restyle, RefreshStep::Rebuild, RefreshStep::Resize]
    );
    assert_eq!(refresh_steps(MangoWorkspacesCmd::TagsChanged), vec![RefreshStep::Rebuild, RefreshStep::Resize]);
}

#[test]
fn view_commands() {
    assert_eq!(view_command(3), "view,3");
    let tags = vec![
        MangoTag { index: 1, is_active: true, is_urgent: false, layout: String::new(), client_count: 0 },
        MangoTag { index: 2, is_active: false, is_urgent: false, layout: String::new(), client_count: 0 },
    ];
    assert_eq!(navigate_command(&tags, 1).as_deref(), Some("view,2"));
    assert_eq!(navigate_command(&tags, -1).as_deref(), Some("view,2"));
    assert_eq!(navigate_command(&[], 1), None);
}

#[test]
fn watcher_steps() {
    assert_eq!(tag_event_step::<u8, String>(&None), WatchStep::Stop);
    assert_eq!(tag_event_step::<u8, String>(&Some(Err("x".into()))), WatchStep::Skip);
    assert_eq!(tag_event_step::<u8, String>(&Some(Ok(1))), WatchStep::Notify);
    assert_eq!(config_event_step(false), WatchStep::Stop);
    assert_eq!(config_event_step(true), WatchStep::Notify);
}

fn strings(v: &[&str]) -> Vec<String> {
    v.iter().map(|s| s.to_string()).collect()
}

#[test]
fn border_classes() {
    let locations = strings(&["border-top", "border-bottom", "border-left", "border-right", "border-all"]);
    let current = strings(&["workspaces", "border-left", "mango", "border-all"]);
    assert_eq!(
        update_border_classes(&current, &locations, true, Some("border-top".into())),
        strings(&["workspaces", "mango", "border-top"])
    );
    assert_eq!(
        update_border_classes(&current, &locations, false, Some("border-top".into())),
        strings(&["workspaces", "mango"])
    );
    assert_eq!(update_border_classes(&current, &locations, true, None), strings(&["workspaces", "mango"]));
    assert_eq!(
        update_border_classes(&strings(&["mango"]), &locations, true, Some("mango".into())),
        strings(&["mango"])
    );
}

#[test]
fn settings_page() {
    let leaf = entry();
    assert_eq!(leaf.id, "mango-workspaces");
    assert_eq!(leaf.i18n_key, "settings-nav-mango-workspaces");
    assert_eq!(leaf.icon, "ld-grid-2x2-symbolic");
    assert_eq!(leaf.spec.title_key, "settings-page-mango-workspaces");
    let titles: Vec<_> = leaf.spec.sections.iter().map(|s| s.title_key).collect();
    assert_eq!(
        titles,
        vec![
            "settings-section-general",
            "settings-section-display",
            "settings-section-sizing",
            "settings-section-mappings",
            "settings-section-bar-display",
            "settings-section-colors",
        ]
    );
    assert_eq!(
        leaf.spec.sections[0].items,
        vec![SettingItem::NumberU8(ConfigField::MinTagCount), SettingItem::Toggle(ConfigField::MonitorSpecific)]
    );
    assert_eq!(leaf.spec.sections[3].items[1], SettingItem::TomlEditor(ConfigField::TagIgnore));
    assert_eq!(leaf.spec.sections[5].items.len(), 6);
}
