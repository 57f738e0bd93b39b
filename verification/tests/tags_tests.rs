use std::collections::HashMap;

use mango_workspaces::config::{
    ActiveIndicator, DisplayMode, MangoWorkspacesConfig, TagMap, TagStyle,
};
use mango_workspaces::service::{MangoTag, MangoTagsResponse};
use mango_workspaces::tags::{
    button_init, button_inits, hides_every_index, select_tags, is_ignored, next_tag_index, plan_tags, tag_buttons,
    tag_id_css_class, tag_style,
};

fn tag(index: u32, is_active: bool, client_count: i32) -> MangoTag {
    MangoTag { index, is_active, is_urgent: false, layout: "[]=".into(), client_count }
}

fn indices(tags: &[MangoTag]) -> Vec<u32> {
    tags.iter().map(|t| t.index).collect()
}

#[test]
fn tag_classes() {
    assert_eq!(tag_id_css_class(3), "tag-id-3");
    assert_eq!(tag_id_css_class(0), "tag-id-0");
    assert_eq!(tag_id_css_class(42), "tag-id-42");
}

#[test]
fn looks_up_tag_styles() {
    let mut map = HashMap::new();
    map.insert(2u32, TagStyle { icon: Some("ld-terminal-symbolic".into()), color: None });
    assert_eq!(tag_style(2, &map).unwrap().icon.as_deref(), Some("ld-terminal-symbolic"));
    assert!(tag_style(1, &map).is_none());
}

#[test]
fn ignore_patterns_match_the_index() {
    let patterns = vec!["1*".to_string(), "5".to_string()];
    assert!(is_ignored(1, &patterns));
    assert!(is_ignored(12, &patterns));
    assert!(is_ignored(5, &patterns));
    assert!(!is_ignored(2, &patterns));
    assert!(!is_ignored(55, &patterns));
    assert!(!is_ignored(1, &[]));
}

#[test]
fn plan_hides_sorts_and_pads() {
    let tags = vec![tag(4, false, 1), tag(1, true, 0), tag(9, false, 3), tag(2, false, 0)];
    let patterns = vec!["9".to_string()];
    let plan = plan_tags(tags, &patterns, 6);
    assert_eq!(indices(&plan), vec![1, 2, 4, 5, 6, 7]);
    assert!(plan[0].is_active);
    assert_eq!(plan[1].layout, "[]=");
    assert_eq!(plan[2].client_count, 1);
    for t in &plan[3..] {
        assert!(!t.is_active && !t.is_urgent && t.client_count == 0 && t.layout.is_empty());
    }
}

#[test]
fn plan_without_minimum_keeps_only_shown_tags() {
    let plan = plan_tags(vec![tag(3, false, 1), tag(1, false, 1)], &[], 0);
    assert_eq!(indices(&plan), vec![1, 3]);
    let plan = plan_tags(vec![tag(3, false, 1), tag(1, false, 1)], &[], 2);
    assert_eq!(indices(&plan), vec![1, 3]);
}

#[test]
fn with_no_minimum_only_tags_in_use_are_shown() {
    let tags = vec![tag(1, false, 0), tag(2, true, 0), tag(3, false, 0), tag(5, false, 2)];
    let plan = plan_tags(tags, &[], 0);
    assert_eq!(indices(&plan), vec![2, 5]);
}

#[test]
fn plan_of_no_tags_is_numbered_from_one() {
    let plan = plan_tags(Vec::new(), &[], 3);
    assert_eq!(indices(&plan), vec![1, 2, 3]);
}

#[test]
fn sorting_keeps_the_order_of_equal_indices() {
    let mut a = tag(2, false, 1);
    a.layout = "first".into();
    let mut b = tag(2, false, 1);
    b.layout = "second".into();
    let plan = plan_tags(vec![tag(3, false, 1), a, tag(1, true, 0), b], &[], 0);
    assert_eq!(indices(&plan), vec![1, 2, 2, 3]);
    assert_eq!(plan[1].layout, "first");
    assert_eq!(plan[2].layout, "second");
}

#[test]
fn placeholders_stop_at_the_largest_index() {
    let plan = plan_tags(vec![tag(u32::MAX, false, 1)], &[], 2);
    assert_eq!(indices(&plan), vec![u32::MAX]);
    let plan = plan_tags(vec![tag(u32::MAX - 1, false, 1)], &[], 3);
    assert_eq!(indices(&plan), vec![u32::MAX - 1, u32::MAX]);
}

#[test]
fn placeholders_skip_hidden_indices() {
    let one = vec!["1".to_string()];
    assert_eq!(indices(&plan_tags(Vec::new(), &one, 1)), vec![2]);
    let ones = vec!["1*".to_string()];
    assert_eq!(indices(&plan_tags(Vec::new(), &ones, 3)), vec![2, 3, 4]);
    let patterns = vec!["9".to_string(), "1*".to_string()];
    assert_eq!(indices(&plan_tags(vec![tag(8, false, 1)], &patterns, 4)), vec![8, 20, 21, 22]);
}

#[test]
fn patterns_that_hide_everything_leave_no_buttons() {
    for pattern in ["*", "?*", "*?", "**?**"] {
        let patterns = vec![pattern.to_string()];
        assert!(hides_every_index(&patterns));
        assert!(plan_tags(vec![tag(1, true, 1)], &patterns, 3).is_empty());
    }
    assert!(!hides_every_index(&["??*".to_string(), "1*".to_string(), "?".to_string()]));
    assert!(!hides_every_index(&[]));
}

#[test]
fn idle_tags_come_before_placeholders() {
    let mut tags: Vec<MangoTag> = (1..=9).map(|i| tag(i, false, 0)).collect();
    tags[2].is_active = true;
    tags.reverse();
    assert_eq!(indices(&plan_tags(tags.clone(), &[], 4)), vec![1, 2, 3, 4]);
    assert_eq!(indices(&plan_tags(tags.clone(), &["2".to_string()], 4)), vec![1, 3, 4, 5]);
    assert_eq!(indices(&plan_tags(tags.clone(), &[], 0)), vec![3]);
    assert_eq!(indices(&plan_tags(tags, &[], 12)), vec![1, 2, 3, 4, 5, 6, 7, 8, 9, 10, 11, 12]);
}

#[test]
fn scrolling_moves_between_tags() {
    let tags = vec![tag(1, false, 0), tag(3, true, 1), tag(5, false, 0)];
    assert_eq!(next_tag_index(&tags, 1), Some(5));
    assert_eq!(next_tag_index(&tags, -1), Some(1));
    let at_end = vec![tag(1, false, 0), tag(3, false, 0), tag(5, true, 0)];
    assert_eq!(next_tag_index(&at_end, 1), Some(1));
    assert_eq!(next_tag_index(&at_end, -1), Some(3));
    let at_start = vec![tag(1, true, 0), tag(3, false, 0)];
    assert_eq!(next_tag_index(&at_start, -1), Some(3));
    assert_eq!(next_tag_index(&at_start, 0), Some(3));
    let none_active = vec![tag(1, false, 0), tag(2, false, 0)];
    assert_eq!(next_tag_index(&none_active, 1), Some(2));
    assert_eq!(next_tag_index(&none_active, -1), Some(2));
    assert_eq!(next_tag_index(&[], 1), None);
    assert_eq!(next_tag_index(&[], -1), None);
}

fn sample_map() -> TagMap {
    TagMap::from_string_keys(vec![(
        "2".to_string(),
        TagStyle { icon: Some("ld-terminal-symbolic".into()), color: None },
    )])
    .unwrap()
}

#[test]
fn buttons_take_icons_from_the_map() {
    let map = sample_map();
    let init = button_init(&tag(2, true, 3), &map, true, DisplayMode::Icon, ActiveIndicator::Underline);
    assert_eq!(init.index, 2);
    assert_eq!(init.label.as_deref(), Some("2"));
    assert_eq!(init.icon.as_deref(), Some("ld-terminal-symbolic"));
    assert!(init.is_active && init.has_clients && init.is_vertical);
    assert_eq!(init.display_mode, DisplayMode::Icon);
    assert_eq!(init.active_indicator, ActiveIndicator::Underline);
    let inits = button_inits(
        &vec![tag(1, false, 0), tag(2, false, -1)],
        &map,
        false,
        DisplayMode::Label,
        ActiveIndicator::Background,
    );
    assert_eq!(inits.len(), 2);
    assert_eq!(inits[0].icon, None);
    assert!(!inits[1].has_clients);
}

#[test]
fn buttons_of_a_configured_bar() {
    let mut config = MangoWorkspacesConfig::default();
    config.min_tag_count = 3;
    config.tag_ignore = vec!["4".to_string()];
    config.tag_map = sample_map();
    let inits = tag_buttons(vec![tag(4, false, 1), tag(2, true, 1)], &config, false);
    let labels: Vec<_> = inits.iter().map(|i| i.label.clone().unwrap()).collect();
    assert_eq!(labels, vec!["2", "3", "5"]);
    assert_eq!(inits[0].icon.as_deref(), Some("ld-terminal-symbolic"));
    assert!(inits[0].is_active);
    assert!(!inits[2].has_clients);
}

fn report(monitor: &str, tags: Vec<MangoTag>) -> MangoTagsResponse {
    MangoTagsResponse { monitor: monitor.into(), tags, active_tags: Vec::new() }
}

#[test]
fn monitor_specific_bars_show_their_own_monitor() {
    let reports = || {
        vec![
            report("DP-1", vec![tag(1, true, 1), tag(2, false, 0)]),
            report("HDMI-A-1", vec![tag(3, true, 2)]),
            report("DP-1", vec![tag(4, false, 1)]),
        ]
    };
    let own = "DP-1".to_string();
    assert_eq!(indices(&select_tags(true, &own, reports())), vec![1, 2, 4]);
    assert_eq!(indices(&select_tags(false, &own, reports())), vec![1, 2, 3, 4]);
    assert_eq!(indices(&select_tags(true, &"eDP-1".to_string(), reports())), Vec::<u32>::new());
    assert!(select_tags(false, &own, Vec::new()).is_empty());
}
