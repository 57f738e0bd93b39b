//! The per-tag button: what it shows, how its content is laid out, and the CSS
//! classes that style it.

use vstd::prelude::*;

use crate::config::{opt_text, ActiveIndicator, DisplayMode};
use crate::decimal::decimal;
use crate::tags::tag_id_css_class;

verus! {

/// The direction in which a box lays out its children.
#[derive(Debug, Clone, Copy, PartialEq, Eq, Structural)]
pub enum Orientation {
    /// Side by side.
    Horizontal,
    /// One above the other.
    Vertical,
}

/// How a child is placed along one axis of its box.
#[derive(Debug, Clone, Copy, PartialEq, Eq, Structural)]
pub enum Align {
    /// Stretched over the whole axis.
    Fill,
    /// Centered.
    Center,
}

/// The orientation of a bar laid out vertically or not.
pub open spec fn spec_orientation(is_vertical: bool) -> Orientation {
    if is_vertical {
        Orientation::Vertical
    } else {
        Orientation::Horizontal
    }
}

/// The orientation of a bar laid out vertically or not.
pub fn orientation_for(is_vertical: bool) -> (o: Orientation)
    ensures
        o == spec_orientation(is_vertical),
{
    if is_vertical {
        Orientation::Vertical
    } else {
        Orientation::Horizontal
    }
}

/// What a tag button is built from.
#[derive(Debug, Clone)]
pub struct MangoTagButtonInit {
    /// Tag index (1-based).
    pub index: u32,
    /// Text shown as the tag's label.
    pub label: Option<String>,
    /// Icon shown for the tag.
    pub icon: Option<String>,
    /// Whether the tag is active.
    pub is_active: bool,
    /// Whether a client on the tag is urgent.
    pub is_urgent: bool,
    /// Whether the tag has clients.
    pub has_clients: bool,
    /// Whether the bar is vertical.
    pub is_vertical: bool,
    /// What identifies the button.
    pub display_mode: DisplayMode,
    /// How the active tag is marked.
    pub active_indicator: ActiveIndicator,
}

/// A tag button.
#[derive(Debug, Clone)]
pub struct MangoTagButton {
    /// Tag index (1-based).
    pub index: u32,
    /// Text shown as the tag's label.
    pub label: Option<String>,
    /// Icon shown for the tag.
    pub icon: Option<String>,
    /// Whether the bar is vertical.
    pub is_vertical: bool,
    /// What identifies the button.
    pub display_mode: DisplayMode,
    /// The button's CSS classes.
    pub classes: Vec<String>,
}

/// What a button does when it is clicked or scrolled over.
#[derive(Debug, Clone, Copy, PartialEq, Eq, Structural)]
pub enum MangoTagButtonOutput {
    /// The button of this tag was clicked.
    Clicked(u32),
    /// Scrolled up over a button.
    ScrollUp,
    /// Scrolled down over a button.
    ScrollDown,
}

/// The word that names the state of a tag in its classes.
pub open spec fn state_class(init: MangoTagButtonInit) -> Seq<char> {
    if init.is_active {
        "active"@
    } else if init.has_clients {
        "occupied"@
    } else {
        "empty"@
    }
}

/// The CSS classes of a button, in order: `workspace`, its state, `urgent`
/// when urgent, its indicator's class, `vertical` on a vertical bar, and its
/// `tag-id-<index>` class.
pub open spec fn spec_css_classes(init: MangoTagButtonInit) -> Seq<Seq<char>> {
    let head = seq!["workspace"@, state_class(init)];
    let urgent = if init.is_urgent {
        seq!["urgent"@]
    } else {
        Seq::empty()
    };
    let vertical = if init.is_vertical {
        seq!["vertical"@]
    } else {
        Seq::empty()
    };
    head + urgent + seq![init.active_indicator.spec_css_class()] + vertical + seq![
        "tag-id-"@ + decimal(init.index as nat),
    ]
}

/// The words that name a tag's state.
pub open spec fn state_words() -> Seq<Seq<char>> {
    seq!["active"@, "occupied"@, "empty"@]
}

/// A button's classes name exactly one state, `active`, `occupied` or
/// `empty`: the second class, and no other.
pub proof fn lemma_one_state_class(init: MangoTagButtonInit)
    ensures
        state_words().contains(spec_css_classes(init)[1]),
        forall|i: int|
            0 <= i < spec_css_classes(init).len() && i != 1 ==> !state_words().contains(
                #[trigger] spec_css_classes(init)[i],
            ),
{
    reveal_strlit("active");
    reveal_strlit("occupied");
    reveal_strlit("empty");
    reveal_strlit("workspace");
    reveal_strlit("urgent");
    reveal_strlit("indicator-background");
    reveal_strlit("indicator-underline");
    reveal_strlit("vertical");
    reveal_strlit("tag-id-");
    let c = spec_css_classes(init);
    let w = state_words();
    assert(w[0] == "active"@);
    assert(w[1] == "occupied"@);
    assert(w[2] == "empty"@);
    if init.is_active {
        assert(c[1] == w[0]);
    } else if init.has_clients {
        assert(c[1] == w[1]);
    } else {
        assert(c[1] == w[2]);
    }
    assert forall|i: int| 0 <= i < c.len() && i != 1 implies !w.contains(#[trigger] c[i]) by {
        let first = c[i][0];
        assert(first == 'w' || first == 'u' || first == 'i' || first == 'v' || first == 't') by {
            let tail = "tag-id-"@ + decimal(init.index as nat);
            assert(tail[0] == 't');
        }
        if w.contains(c[i]) {
            let j = choose|j: int| 0 <= j < 3 && w[j] == c[i];
            assert(w[j][0] == 'a' || w[j][0] == 'o' || w[j][0] == 'e');
        }
    }
}

/// The text of each string of a list.
pub open spec fn texts(v: Seq<String>) -> Seq<Seq<char>> {
    v.map_values(|s: String| s@)
}

/// The CSS classes of the button that `init` describes.
pub fn compute_css_classes(init: &MangoTagButtonInit) -> (classes: Vec<String>)
    ensures
        texts(classes@) == spec_css_classes(*init),
{
    let mut classes: Vec<String> = Vec::new();
    classes.push(String::from_str("workspace"));
    let state = if init.is_active {
        "active"
    } else if init.has_clients {
        "occupied"
    } else {
        "empty"
    };
    classes.push(String::from_str(state));
    if init.is_urgent {
        classes.push(String::from_str("urgent"));
    }
    classes.push(String::from_str(init.active_indicator.css_class()));
    if init.is_vertical {
        classes.push(String::from_str("vertical"));
    }
    classes.push(tag_id_css_class(init.index));
    assert(texts(classes@) =~= spec_css_classes(*init));
    classes
}

/// Whether a button shows its label: it has a non-empty one, and the mode is
/// `Label`, or `Icon` with no icon to show.
pub open spec fn spec_show_label(
    label: Option<Seq<char>>,
    icon: Option<Seq<char>>,
    mode: DisplayMode,
) -> bool {
    &&& label matches Some(l) && l.len() > 0
    &&& (mode == DisplayMode::Label || (mode == DisplayMode::Icon && icon is None))
}

/// Whether a button shows its icon: the mode is `Icon` and it has one.
pub open spec fn spec_show_icon(icon: Option<Seq<char>>, mode: DisplayMode) -> bool {
    mode == DisplayMode::Icon && icon is Some
}

/// A button never shows both its label and its icon.
pub proof fn lemma_label_or_icon(label: Option<Seq<char>>, icon: Option<Seq<char>>, mode: DisplayMode)
    ensures
        !(spec_show_label(label, icon, mode) && spec_show_icon(icon, mode)),
{
}

/// What a button's classes say of its tag: `workspace` first; then
/// `active` for the active tag whether or not it has clients, else
/// `occupied` when it has clients, else `empty`; `urgent` exactly when the
/// tag is urgent; `vertical` exactly when the bar is vertical; the
/// indicator's class; and last the class that addresses the tag's index.
pub proof fn lemma_css_classes_describe_tag(init: MangoTagButtonInit)
    ensures
        spec_css_classes(init)[0] == "workspace"@,
        init.is_active ==> spec_css_classes(init)[1] == "active"@,
        !init.is_active && init.has_clients ==> spec_css_classes(init)[1] == "occupied"@,
        !init.is_active && !init.has_clients ==> spec_css_classes(init)[1] == "empty"@,
        spec_css_classes(init).contains("urgent"@) <==> init.is_urgent,
        spec_css_classes(init).contains("vertical"@) <==> init.is_vertical,
        spec_css_classes(init).contains(init.active_indicator.spec_css_class()),
        spec_css_classes(init).last() == "tag-id-"@ + decimal(init.index as nat),
        spec_css_classes(init).len() == 4 + (if init.is_urgent {
            1int
        } else {
            0
        }) + (if init.is_vertical {
            1int
        } else {
            0
        }),
{
    reveal_strlit("workspace");
    reveal_strlit("active");
    reveal_strlit("occupied");
    reveal_strlit("empty");
    reveal_strlit("urgent");
    reveal_strlit("vertical");
    reveal_strlit("indicator-background");
    reveal_strlit("indicator-underline");
    reveal_strlit("tag-id-");
    let c = spec_css_classes(init);
    let ind = init.active_indicator.spec_css_class();
    let tail = "tag-id-"@ + decimal(init.index as nat);
    assert(tail[0] == 't');
    // No class other than the ones named is `urgent` or `vertical`.
    assert forall|i: int| 0 <= i < c.len() && c[i] == "urgent"@ implies init.is_urgent by {
        assert(c[i][0] == 'u');
    }
    assert forall|i: int| 0 <= i < c.len() && c[i] == "vertical"@ implies init.is_vertical by {
        assert(c[i][0] == 'v');
    }
    if init.is_urgent {
        assert(c[2] == "urgent"@);
    }
    if init.is_vertical {
        assert(c[c.len() - 2] == "vertical"@);
    }
    let at = if init.is_urgent {
        3int
    } else {
        2
    };
    assert(c[at] == ind);
}

/// In `Label` mode a button with a non-empty label shows it, whatever its
/// icon; in `Icon` mode a button with an icon shows the icon; and a button
/// with a non-empty label shows its label or its icon unless the mode is
/// to show nothing, in which case it shows neither.
pub proof fn lemma_button_shows_something(
    label: Option<Seq<char>>,
    icon: Option<Seq<char>>,
    mode: DisplayMode,
)
    ensures
        mode == DisplayMode::Label && label is Some && label->0.len() > 0 ==> spec_show_label(
            label,
            icon,
            mode,
        ),
        mode == DisplayMode::Icon && icon is Some ==> spec_show_icon(icon, mode),
        mode != DisplayMode::Nothing && label is Some && label->0.len() > 0 ==> spec_show_label(
            label,
            icon,
            mode,
        ) || spec_show_icon(icon, mode),
        mode == DisplayMode::Nothing ==> !spec_show_label(label, icon, mode) && !spec_show_icon(
            icon,
            mode,
        ),
        label is Some && label->0.len() == 0 ==> !spec_show_label(label, icon, mode),
        label is None ==> !spec_show_label(label, icon, mode),
        mode == DisplayMode::Label ==> !spec_show_icon(icon, mode),
{
}

impl MangoTagButton {
    /// Builds a button from its description, with the classes that style it.
    pub fn init_model(init: MangoTagButtonInit) -> (button: MangoTagButton)
        ensures
            button.index == init.index,
            opt_text(button.label) == opt_text(init.label),
            opt_text(button.icon) == opt_text(init.icon),
            button.is_vertical == init.is_vertical,
            button.display_mode == init.display_mode,
            texts(button.classes@) == spec_css_classes(init),
    {
        let classes = compute_css_classes(&init);
        MangoTagButton {
            index: init.index,
            label: init.label,
            icon: init.icon,
            is_vertical: init.is_vertical,
            display_mode: init.display_mode,
            classes,
        }
    }

    /// Whether the button shows its label.
    pub fn show_label(&self) -> (res: bool)
        ensures
            res == spec_show_label(opt_text(self.label), opt_text(self.icon), self.display_mode),
    {
        let has_label = match &self.label {
            Some(label) => label.as_str().unicode_len() > 0,
            None => false,
        };
        if !has_label {
            return false;
        }
        match self.display_mode {
            DisplayMode::Label => true,
            DisplayMode::Icon => self.icon.is_none(),
            DisplayMode::Nothing => false,
        }
    }

    /// Whether the button shows its icon.
    pub fn show_icon(&self) -> (res: bool)
        ensures
            res == spec_show_icon(opt_text(self.icon), self.display_mode),
    {
        match self.display_mode {
            DisplayMode::Icon => self.icon.is_some(),
            _ => false,
        }
    }

    /// The label's text, empty when there is none.
    pub fn label_text(&self) -> (text: &str)
        ensures
            text@ == match self.label {
                Some(l) => l@,
                None => Seq::<char>::empty(),
            },
    {
        match &self.label {
            Some(label) => label.as_str(),
            None => {
                proof { reveal_strlit(""); }
                ""
            },
        }
    }

    /// The direction in which the button lays out its content.
    pub fn orientation(&self) -> (o: Orientation)
        ensures
            o == spec_orientation(self.is_vertical),
    {
        orientation_for(self.is_vertical)
    }

    /// How the content is placed across the bar's width.
    pub fn content_halign(&self) -> (a: Align)
        ensures
            a == if self.is_vertical {
                Align::Fill
            } else {
                Align::Center
            },
    {
        if self.is_vertical {
            Align::Fill
        } else {
            Align::Center
        }
    }

    /// How the content is placed across the bar's height.
    pub fn content_valign(&self) -> (a: Align)
        ensures
            a == if self.is_vertical {
                Align::Center
            } else {
                Align::Fill
            },
    {
        if self.is_vertical {
            Align::Center
        } else {
            Align::Fill
        }
    }
}

} // verus!
