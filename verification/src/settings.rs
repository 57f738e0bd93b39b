//! The settings page of the Mango tag switcher: which editors it shows, in
//! which sections, for which properties.

use vstd::prelude::*;

verus! {

/// A property of the tag switcher's configuration.
#[derive(Debug, Clone, Copy, PartialEq, Eq, Structural)]
pub enum ConfigField {
    /// `min-tag-count`
    MinTagCount,
    /// `monitor-specific`
    MonitorSpecific,
    /// `display-mode`
    DisplayMode,
    /// `active-indicator`
    ActiveIndicator,
    /// `tag-padding`
    TagPadding,
    /// `icon-size`
    IconSize,
    /// `label-size`
    LabelSize,
    /// `tag-ignore`
    TagIgnore,
    /// `active-color`
    ActiveColor,
    /// `occupied-color`
    OccupiedColor,
    /// `empty-color`
    EmptyColor,
    /// `container-bg-color`
    ContainerBgColor,
    /// `border-show`
    BorderShow,
    /// `border-color`
    BorderColor,
    /// `tag-map`
    TagMap,
}

/// An editor of one property.
#[derive(Debug, Clone, Copy, PartialEq, Eq, Structural)]
pub enum SettingItem {
    /// A number from 0 to 255.
    NumberU8(ConfigField),
    /// A switch.
    Toggle(ConfigField),
    /// A choice among an enumeration's values.
    EnumSelect(ConfigField),
    /// A spacing in rem.
    Spacing(ConfigField),
    /// A scale factor.
    Scale(ConfigField),
    /// A color.
    ColorValue(ConfigField),
    /// A TOML text, under the property's own key, on the palette's background.
    TomlEditor(ConfigField),
}

/// A titled group of editors.
#[derive(Debug, Clone)]
pub struct SectionSpec {
    /// Localization key of the title.
    pub title_key: &'static str,
    /// The editors, in order.
    pub items: Vec<SettingItem>,
}

/// A settings page.
#[derive(Debug, Clone)]
pub struct PageSpec {
    /// Localization key of the page's title.
    pub title_key: &'static str,
    /// The sections, in order.
    pub sections: Vec<SectionSpec>,
}

/// An entry of the settings navigation that leads to a page.
#[derive(Debug, Clone)]
pub struct LeafEntry {
    /// The entry's id.
    pub id: &'static str,
    /// Localization key of the entry's name.
    pub i18n_key: &'static str,
    /// The entry's icon.
    pub icon: &'static str,
    /// The page.
    pub spec: PageSpec,
}

/// The localization key of each section's title, in order.
pub open spec fn section_titles() -> Seq<Seq<char>> {
    seq![
        "settings-section-general"@,
        "settings-section-display"@,
        "settings-section-sizing"@,
        "settings-section-mappings"@,
        "settings-section-bar-display"@,
        "settings-section-colors"@,
    ]
}

/// The editors of each section, in order.
pub open spec fn section_items() -> Seq<Seq<SettingItem>> {
    seq![
        seq![
            SettingItem::NumberU8(ConfigField::MinTagCount),
            SettingItem::Toggle(ConfigField::MonitorSpecific),
        ],
        seq![SettingItem::EnumSelect(ConfigField::DisplayMode)],
        seq![
            SettingItem::Spacing(ConfigField::TagPadding),
            SettingItem::Scale(ConfigField::IconSize),
            SettingItem::Scale(ConfigField::LabelSize),
        ],
        seq![
            SettingItem::TomlEditor(ConfigField::TagMap),
            SettingItem::TomlEditor(ConfigField::TagIgnore),
        ],
        seq![SettingItem::Toggle(ConfigField::BorderShow)],
        seq![
            SettingItem::EnumSelect(ConfigField::ActiveIndicator),
            SettingItem::ColorValue(ConfigField::ActiveColor),
            SettingItem::ColorValue(ConfigField::OccupiedColor),
            SettingItem::ColorValue(ConfigField::EmptyColor),
            SettingItem::ColorValue(ConfigField::ContainerBgColor),
            SettingItem::ColorValue(ConfigField::BorderColor),
        ],
    ]
}

/// The page of the tag switcher's settings.
pub fn entry() -> (leaf: LeafEntry)
    ensures
        leaf.id@ == "mango-workspaces"@,
        leaf.i18n_key@ == "settings-nav-mango-workspaces"@,
        leaf.icon@ == "ld-grid-2x2-symbolic"@,
        leaf.spec.title_key@ == "settings-page-mango-workspaces"@,
        leaf.spec.sections@.len() == 6,
        forall|i: int|
            0 <= i < 6 ==> (#[trigger] leaf.spec.sections@[i]).title_key@ == section_titles()[i]
                && leaf.spec.sections@[i].items@ == section_items()[i],
{
    let mut general: Vec<SettingItem> = Vec::new();
    general.push(SettingItem::NumberU8(ConfigField::MinTagCount));
    general.push(SettingItem::Toggle(ConfigField::MonitorSpecific));
    let mut display: Vec<SettingItem> = Vec::new();
    display.push(SettingItem::EnumSelect(ConfigField::DisplayMode));
    let mut sizing: Vec<SettingItem> = Vec::new();
    sizing.push(SettingItem::Spacing(ConfigField::TagPadding));
    sizing.push(SettingItem::Scale(ConfigField::IconSize));
    sizing.push(SettingItem::Scale(ConfigField::LabelSize));
    let mut mappings: Vec<SettingItem> = Vec::new();
    mappings.push(SettingItem::TomlEditor(ConfigField::TagMap));
    mappings.push(SettingItem::TomlEditor(ConfigField::TagIgnore));
    let mut bar_display: Vec<SettingItem> = Vec::new();
    bar_display.push(SettingItem::Toggle(ConfigField::BorderShow));
    let mut colors: Vec<SettingItem> = Vec::new();
    colors.push(SettingItem::EnumSelect(ConfigField::ActiveIndicator));
    colors.push(SettingItem::ColorValue(ConfigField::ActiveColor));
    colors.push(SettingItem::ColorValue(ConfigField::OccupiedColor));
    colors.push(SettingItem::ColorValue(ConfigField::EmptyColor));
    colors.push(SettingItem::ColorValue(ConfigField::ContainerBgColor));
    colors.push(SettingItem::ColorValue(ConfigField::BorderColor));
    let mut sections: Vec<SectionSpec> = Vec::new();
    sections.push(SectionSpec { title_key: "settings-section-general", items: general });
    sections.push(SectionSpec { title_key: "settings-section-display", items: display });
    sections.push(SectionSpec { title_key: "settings-section-sizing", items: sizing });
    sections.push(SectionSpec { title_key: "settings-section-mappings", items: mappings });
    sections.push(SectionSpec { title_key: "settings-section-bar-display", items: bar_display });
    sections.push(SectionSpec { title_key: "settings-section-colors", items: colors });
    let leaf = LeafEntry {
        id: "mango-workspaces",
        i18n_key: "settings-nav-mango-workspaces",
        icon: "ld-grid-2x2-symbolic",
        spec: PageSpec { title_key: "settings-page-mango-workspaces", sections },
    };
    assert(leaf.spec.sections@[0].items@ =~= section_items()[0]);
    assert(leaf.spec.sections@[1].items@ =~= section_items()[1]);
    assert(leaf.spec.sections@[2].items@ =~= section_items()[2]);
    assert(leaf.spec.sections@[3].items@ =~= section_items()[3]);
    assert(leaf.spec.sections@[4].items@ =~= section_items()[4]);
    assert(leaf.spec.sections@[5].items@ =~= section_items()[5]);
    leaf
}

} // verus!
