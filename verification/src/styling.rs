//! The CSS that styles the tag switcher and the bar separator, from colors
//! already resolved to CSS and sizes already converted to pixels.

use vstd::prelude::*;

use crate::decimal::{push_decimal, push_signed_decimal, signed_decimal, decimal};
use crate::tags::{spec_tag_id_css_class, tag_id_css_class};

verus! {

/// The colors of the tag switcher, each already written as a CSS color.
pub struct WorkspaceColors {
    /// Color of the active tag.
    pub active: String,
    /// Color of occupied tags.
    pub occupied: String,
    /// Color of empty tags.
    pub empty: String,
    /// Background of the tags container.
    pub container_bg: String,
    /// Border of the tags container.
    pub border: String,
}

/// The sizes of the tag switcher, in pixels.
pub struct WorkspaceSizes {
    /// Width of the container's border.
    pub border_width: u32,
    /// Size of tag icons.
    pub icon_size_px: i32,
    /// Size of tag labels.
    pub label_size_px: i32,
    /// Padding of a tag's content along the bar.
    pub tag_padding_px: i32,
}

/// The margins of a tag's content, vertical then horizontal: the padding lies
/// along the bar.
pub open spec fn spec_tag_margins(tag_padding_px: i32, is_vertical: bool) -> (i32, i32) {
    if is_vertical {
        (tag_padding_px, 0)
    } else {
        (0, tag_padding_px)
    }
}

/// The margins of a tag's content, vertical then horizontal.
pub fn tag_margins(tag_padding_px: i32, is_vertical: bool) -> (margins: (i32, i32))
    ensures
        margins == spec_tag_margins(tag_padding_px, is_vertical),
{
    if is_vertical {
        (tag_padding_px, 0)
    } else {
        (0, tag_padding_px)
    }
}

/// The rule that sets the tag switcher's custom properties.
pub open spec fn spec_workspaces_css(
    colors: (Seq<char>, Seq<char>, Seq<char>, Seq<char>, Seq<char>),
    border_width: u32,
    icon_size_px: i32,
    label_size_px: i32,
    tag_padding_px: i32,
    is_vertical: bool,
) -> Seq<char> {
    let (active, occupied, empty, container_bg, border) = colors;
    let margins = spec_tag_margins(tag_padding_px, is_vertical);
    ".workspaces.mango { --ws-active-color: "@ + active + "; --ws-occupied-color: "@ + occupied
        + "; --ws-empty-color: "@ + empty + "; --ws-container-bg-color: "@ + container_bg
        + "; --ws-border-color: "@ + border + "; --ws-border-width: "@ + decimal(
        border_width as nat,
    ) + "px; --ws-icon-size-px: "@ + signed_decimal(icon_size_px as int)
        + "; --ws-label-size-px: "@ + signed_decimal(label_size_px as int)
        + "; --ws-margin-vertical-px: "@ + signed_decimal(margins.0 as int)
        + "; --ws-margin-horizontal-px: "@ + signed_decimal(margins.1 as int) + "; }"@
}

/// The switcher's rule for a vertical bar and for a horizontal bar differ
/// only in where the tag padding goes: both share everything up to the
/// vertical margin, which is the padding on a vertical bar and zero on a
/// horizontal one, and the horizontal margin is the other of the two. Either
/// way the icon size follows `--ws-icon-size-px: ` and the label size follows
/// `--ws-label-size-px: `; with no padding the two rules are the same.
pub proof fn lemma_workspaces_css_orientation(
    colors: (Seq<char>, Seq<char>, Seq<char>, Seq<char>, Seq<char>),
    border_width: u32,
    icon_size_px: i32,
    label_size_px: i32,
    tag_padding_px: i32,
    is_vertical: bool,
)
    ensures
        exists|head: Seq<char>|
            {
                &&& #[trigger] spec_workspaces_css(
                    colors,
                    border_width,
                    icon_size_px,
                    label_size_px,
                    tag_padding_px,
                    true,
                ) == head + signed_decimal(tag_padding_px as int)
                    + "; --ws-margin-horizontal-px: 0; }"@
                &&& spec_workspaces_css(
                    colors,
                    border_width,
                    icon_size_px,
                    label_size_px,
                    tag_padding_px,
                    false,
                ) == head + "0; --ws-margin-horizontal-px: "@ + signed_decimal(
                    tag_padding_px as int,
                ) + "; }"@
            },
        crate::text::contains_text(
            spec_workspaces_css(
                colors,
                border_width,
                icon_size_px,
                label_size_px,
                tag_padding_px,
                is_vertical,
            ),
            "--ws-icon-size-px: "@ + signed_decimal(icon_size_px as int) + "; --ws-label-size-px: "@
                + signed_decimal(label_size_px as int) + ";"@,
        ),
        tag_padding_px == 0 ==> spec_workspaces_css(
            colors,
            border_width,
            icon_size_px,
            label_size_px,
            tag_padding_px,
            true,
        ) == spec_workspaces_css(
            colors,
            border_width,
            icon_size_px,
            label_size_px,
            tag_padding_px,
            false,
        ),
{
    reveal_strlit("0");
    let (active, occupied, empty, container_bg, border) = colors;
    let p = signed_decimal(tag_padding_px as int);
    let z = signed_decimal(0);
    assert(z =~= "0"@) by {
        assert(decimal(0) == seq![crate::decimal::digit_char(0)]);
    }
    let lead = ".workspaces.mango { --ws-active-color: "@ + active + "; --ws-occupied-color: "@
        + occupied + "; --ws-empty-color: "@ + empty + "; --ws-container-bg-color: "@
        + container_bg + "; --ws-border-color: "@ + border + "; --ws-border-width: "@ + decimal(
        border_width as nat,
    ) + "px; "@;
    let needle = "--ws-icon-size-px: "@ + signed_decimal(icon_size_px as int)
        + "; --ws-label-size-px: "@ + signed_decimal(label_size_px as int) + ";"@;
    let head = lead + needle + " --ws-margin-vertical-px: "@;
    let v = spec_workspaces_css(colors, border_width, icon_size_px, label_size_px, tag_padding_px, true);
    let h = spec_workspaces_css(colors, border_width, icon_size_px, label_size_px, tag_padding_px, false);
    reveal_strlit("px; --ws-icon-size-px: ");
    reveal_strlit("px; ");
    reveal_strlit("--ws-icon-size-px: ");
    reveal_strlit("; --ws-label-size-px: ");
    reveal_strlit("; --ws-margin-vertical-px: ");
    reveal_strlit(";");
    reveal_strlit(" --ws-margin-vertical-px: ");
    reveal_strlit("; --ws-margin-horizontal-px: ");
    reveal_strlit("; }");
    reveal_strlit("; --ws-margin-horizontal-px: 0; }");
    reveal_strlit("0; --ws-margin-horizontal-px: ");
    assert(v =~= head + p + "; --ws-margin-horizontal-px: 0; }"@);
    assert(h =~= head + "0; --ws-margin-horizontal-px: "@ + p + "; }"@);
    let css = if is_vertical { v } else { h };
    let rest = if is_vertical {
        " --ws-margin-vertical-px: "@ + p + "; --ws-margin-horizontal-px: 0; }"@
    } else {
        " --ws-margin-vertical-px: "@ + "0; --ws-margin-horizontal-px: "@ + p + "; }"@
    };
    assert(css =~= lead + needle + rest);
    assert(css.subrange(lead.len() as int, lead.len() + needle.len() as int) =~= needle);
    assert(crate::text::occurs_at(css, needle, lead.len() as int));
}

/// The colors as texts.
pub open spec fn color_texts(colors: WorkspaceColors) -> (Seq<char>, Seq<char>, Seq<char>, Seq<char>, Seq<char>) {
    (colors.active@, colors.occupied@, colors.empty@, colors.container_bg@, colors.border@)
}

/// The rule that sets the tag switcher's custom properties: its colors, its
/// border width, its icon and label sizes, and its tag margins.
pub fn workspaces_css(colors: &WorkspaceColors, sizes: &WorkspaceSizes, is_vertical: bool) -> (css: String)
    ensures
        css@ == spec_workspaces_css(
            color_texts(*colors),
            sizes.border_width,
            sizes.icon_size_px,
            sizes.label_size_px,
            sizes.tag_padding_px,
            is_vertical,
        ),
{
    let (margin_vertical_px, margin_horizontal_px) = tag_margins(sizes.tag_padding_px, is_vertical);
    let mut css = String::from_str(".workspaces.mango { --ws-active-color: ");
    css.append(colors.active.as_str());
    css.append("; --ws-occupied-color: ");
    css.append(colors.occupied.as_str());
    css.append("; --ws-empty-color: ");
    css.append(colors.empty.as_str());
    css.append("; --ws-container-bg-color: ");
    css.append(colors.container_bg.as_str());
    css.append("; --ws-border-color: ");
    css.append(colors.border.as_str());
    css.append("; --ws-border-width: ");
    push_decimal(&mut css, sizes.border_width as u64);
    css.append("px; --ws-icon-size-px: ");
    push_signed_decimal(&mut css, sizes.icon_size_px as i64);
    css.append("; --ws-label-size-px: ");
    push_signed_decimal(&mut css, sizes.label_size_px as i64);
    css.append("; --ws-margin-vertical-px: ");
    push_signed_decimal(&mut css, margin_vertical_px as i64);
    css.append("; --ws-margin-horizontal-px: ");
    push_signed_decimal(&mut css, margin_horizontal_px as i64);
    css.append("; }");
    css
}

/// The rule that gives one tag its own active color.
pub open spec fn spec_tag_override_rule(index: u32, color_css: Seq<char>) -> Seq<char> {
    ".workspaces.mango .workspace."@ + spec_tag_id_css_class(index) + " { --ws-override-color: "@
        + color_css + "; }"@
}

/// The rules of several tags' own colors, one after the other.
pub open spec fn spec_tag_override_rules(overrides: Seq<(u32, String)>) -> Seq<char>
    decreases overrides.len(),
{
    if overrides.len() == 0 {
        Seq::empty()
    } else {
        spec_tag_override_rules(overrides.drop_last()) + spec_tag_override_rule(
            overrides.last().0,
            overrides.last().1@,
        )
    }
}

/// Appends to `css` the rules that give each listed tag its own color, in
/// the order listed.
pub fn push_tag_override_rules(css: &mut String, overrides: &[(u32, String)])
    ensures
        final(css)@ == old(css)@ + spec_tag_override_rules(overrides@),
{
    let mut i: usize = 0;
    proof {
        assert(overrides@.take(0) =~= Seq::<(u32, String)>::empty());
        assert(css@ =~= old(css)@ + spec_tag_override_rules(overrides@.take(0)));
    }
    while i < overrides.len()
        invariant
            i <= overrides@.len(),
            css@ == old(css)@ + spec_tag_override_rules(overrides@.take(i as int)),
        decreases overrides@.len() - i,
    {
        let (index, color) = &overrides[i];
        let ghost before = css@;
        css.append(".workspaces.mango .workspace.");
        let class = tag_id_css_class(*index);
        css.append(class.as_str());
        css.append(" { --ws-override-color: ");
        css.append(color.as_str());
        css.append("; }");
        proof {
            let t = overrides@.take(i + 1);
            assert(t.drop_last() =~= overrides@.take(i as int));
            assert(t.last() == overrides@[i as int]);
            assert(css@ =~= before + spec_tag_override_rule(*index, color@));
        }
        i = i + 1;
    }
    assert(overrides@.take(overrides@.len() as int) =~= overrides@);
}

/// The size of the separator across and along the bar, as width then height.
pub open spec fn spec_separator_extent(is_vertical: bool, size_px: i32, length_px: i32) -> (i32, i32) {
    if is_vertical {
        (length_px, size_px)
    } else {
        (size_px, length_px)
    }
}

/// The rule that styles the bar separator.
pub open spec fn spec_separator_css(
    color: Seq<char>,
    is_vertical: bool,
    size_px: i32,
    length_px: i32,
) -> Seq<char> {
    let (width, height) = spec_separator_extent(is_vertical, size_px, length_px);
    "separator { background-color: "@ + color + "; min-width: "@ + signed_decimal(width as int)
        + "px; min-height: "@ + signed_decimal(height as int) + "px; }"@
}

/// The rule that styles the bar separator: its color, and its thickness and
/// length laid across and along the bar.
pub fn separator_css(color: &str, is_vertical: bool, size_px: i32, length_px: i32) -> (css: String)
    ensures
        css@ == spec_separator_css(color@, is_vertical, size_px, length_px),
{
    let (width, height) = if is_vertical {
        (length_px, size_px)
    } else {
        (size_px, length_px)
    };
    let mut css = String::from_str("separator { background-color: ");
    css.append(color);
    css.append("; min-width: ");
    push_signed_decimal(&mut css, width as i64);
    css.append("px; min-height: ");
    push_signed_decimal(&mut css, height as i64);
    css.append("px; }");
    css
}

/// Turning the bar swaps the separator's width and height.
pub proof fn lemma_separator_turns(size_px: i32, length_px: i32)
    ensures
        spec_separator_extent(true, size_px, length_px) == ({
            let e = spec_separator_extent(false, size_px, length_px);
            (e.1, e.0)
        }),
{
}

} // verus!
