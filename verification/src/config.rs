//! Configuration of the MangoWM tag (workspace) switcher.

use std::collections::HashMap;

use vstd::prelude::*;
use vstd::std_specs::hash::spec_hash_map_iter;
use vstd::std_specs::iter::IteratorSpec;

use crate::decimal::{decimal, lemma_parse_decimal, parse_u32, parse_u32_spec, u32_text};
use crate::text::same_text;

verus! {

broadcast use vstd::std_specs::hash::group_hash_axioms;

/// What identifies each tag button.
#[derive(Debug, Clone, Copy, PartialEq, Eq, Structural)]
pub enum DisplayMode {
    /// Show tag number.
    Label,
    /// Show icon from `tag-map` (falls back to label if unmapped).
    Icon,
    /// Show nothing.
    Nothing,
}

impl Default for DisplayMode {
    fn default() -> (mode: DisplayMode)
        ensures
            mode == DisplayMode::Label,
    {
        DisplayMode::Label
    }
}

/// Visual indicator style for the active tag.
#[derive(Debug, Clone, Copy, PartialEq, Eq, Structural)]
pub enum ActiveIndicator {
    /// Entire button gets a colored background.
    Background,
    /// Small colored bar under the tag button.
    Underline,
}

impl Default for ActiveIndicator {
    fn default() -> (indicator: ActiveIndicator)
        ensures
            indicator == ActiveIndicator::Background,
    {
        ActiveIndicator::Background
    }
}

impl ActiveIndicator {
    /// The CSS class of an indicator style, as text.
    pub open spec fn spec_css_class(self) -> Seq<char> {
        match self {
            ActiveIndicator::Background => "indicator-background"@,
            ActiveIndicator::Underline => "indicator-underline"@,
        }
    }

    /// CSS class for this indicator style.
    pub fn css_class(self) -> (class: &'static str)
        ensures
            class@ == self.spec_css_class(),
    {
        match self {
            ActiveIndicator::Background => "indicator-background",
            ActiveIndicator::Underline => "indicator-underline",
        }
    }
}

/// The theme color tokens that the tag switcher's defaults name.
#[derive(Debug, Clone, Copy, PartialEq, Eq, Structural)]
pub enum CssToken {
    /// The theme's accent color.
    Accent,
    /// Muted foreground.
    FgMuted,
    /// Subtle foreground.
    FgSubtle,
    /// Background of raised surfaces.
    BgSurfaceElevated,
    /// Default border color.
    BorderDefault,
    /// The theme's subtle accent color.
    AccentSubtle,
    /// The theme's red.
    Red,
    /// The theme's yellow.
    Yellow,
}

impl CssToken {
    /// The name of a token in configuration files.
    pub open spec fn spec_name(self) -> Seq<char> {
        match self {
            CssToken::Accent => "accent"@,
            CssToken::FgMuted => "fg-muted"@,
            CssToken::FgSubtle => "fg-subtle"@,
            CssToken::BgSurfaceElevated => "bg-surface-elevated"@,
            CssToken::BorderDefault => "border-default"@,
            CssToken::AccentSubtle => "accent-subtle"@,
            CssToken::Red => "red"@,
            CssToken::Yellow => "yellow"@,
        }
    }

    /// The name of a token in configuration files.
    pub fn name(self) -> (name: &'static str)
        ensures
            name@ == self.spec_name(),
    {
        match self {
            CssToken::Accent => "accent",
            CssToken::FgMuted => "fg-muted",
            CssToken::FgSubtle => "fg-subtle",
            CssToken::BgSurfaceElevated => "bg-surface-elevated",
            CssToken::BorderDefault => "border-default",
            CssToken::AccentSubtle => "accent-subtle",
            CssToken::Red => "red",
            CssToken::Yellow => "yellow",
        }
    }

    /// The token that a name denotes, if any.
    pub open spec fn spec_from_name_opt(text: Seq<char>) -> Option<CssToken> {
        if text == "accent"@ {
            Some(CssToken::Accent)
        } else if text == "fg-muted"@ {
            Some(CssToken::FgMuted)
        } else if text == "fg-subtle"@ {
            Some(CssToken::FgSubtle)
        } else if text == "bg-surface-elevated"@ {
            Some(CssToken::BgSurfaceElevated)
        } else if text == "border-default"@ {
            Some(CssToken::BorderDefault)
        } else if text == "accent-subtle"@ {
            Some(CssToken::AccentSubtle)
        } else if text == "red"@ {
            Some(CssToken::Red)
        } else if text == "yellow"@ {
            Some(CssToken::Yellow)
        } else {
            None
        }
    }

    /// Each token's name denotes that token, and none is `auto`.
    pub proof fn lemma_token_names(t: CssToken)
        ensures
            CssToken::spec_from_name_opt(t.spec_name()) == Some(t),
            t.spec_name() != "auto"@,
    {
        reveal_strlit("accent");
        reveal_strlit("fg-muted");
        reveal_strlit("fg-subtle");
        reveal_strlit("bg-surface-elevated");
        reveal_strlit("border-default");
        reveal_strlit("accent-subtle");
        reveal_strlit("red");
        reveal_strlit("yellow");
        reveal_strlit("auto");
        // Each name differs from every other by its length or its first
        // characters.
        assert("accent"@.len() == 6 && "accent"@[0] == 'a');
        assert("fg-muted"@.len() == 8);
        assert("fg-subtle"@.len() == 9);
        assert("bg-surface-elevated"@.len() == 19);
        assert("border-default"@.len() == 14);
        assert("accent-subtle"@.len() == 13);
        assert("red"@.len() == 3);
        assert("yellow"@.len() == 6 && "yellow"@[0] == 'y');
        assert("auto"@.len() == 4);
    }

    /// The token that a name denotes, if any.
    pub fn from_name(text: &str) -> (token: Option<CssToken>)
        ensures
            token == CssToken::spec_from_name_opt(text@),
    {
        if same_text(text, "accent") {
            Some(CssToken::Accent)
        } else if same_text(text, "fg-muted") {
            Some(CssToken::FgMuted)
        } else if same_text(text, "fg-subtle") {
            Some(CssToken::FgSubtle)
        } else if same_text(text, "bg-surface-elevated") {
            Some(CssToken::BgSurfaceElevated)
        } else if same_text(text, "border-default") {
            Some(CssToken::BorderDefault)
        } else if same_text(text, "accent-subtle") {
            Some(CssToken::AccentSubtle)
        } else if same_text(text, "red") {
            Some(CssToken::Red)
        } else if same_text(text, "yellow") {
            Some(CssToken::Yellow)
        } else {
            None
        }
    }
}

/// A configured color: a theme token, a custom CSS color, or automatic.
#[derive(Debug, Clone, PartialEq)]
pub enum ColorValue {
    /// A color of the theme.
    Token(CssToken),
    /// A literal CSS color such as `#4a90d9`.
    Custom(String),
    /// Chosen automatically.
    Auto,
}

impl ColorValue {
    /// The text of a color in configuration files: the token's name, `auto`,
    /// or the CSS color.
    pub open spec fn spec_text(&self) -> Seq<char> {
        match self {
            ColorValue::Token(t) => t.spec_name(),
            ColorValue::Custom(css) => css@,
            ColorValue::Auto => "auto"@,
        }
    }

    /// The text of a color in configuration files.
    pub fn text(&self) -> (text: String)
        ensures
            text@ == self.spec_text(),
    {
        match self {
            ColorValue::Token(t) => String::from_str(t.name()),
            ColorValue::Custom(css) => css.clone(),
            ColorValue::Auto => String::from_str("auto"),
        }
    }

    /// The color that a text in a configuration file denotes: `auto`, a
    /// token's name, or else a CSS color.
    pub fn from_text(text: String) -> (color: ColorValue)
        ensures
            text@ == "auto"@ ==> color == ColorValue::Auto,
            text@ != "auto"@ ==> match CssToken::spec_from_name_opt(text@) {
                Some(t) => color == ColorValue::Token(t),
                None => color matches ColorValue::Custom(css) && css@ == text@,
            },
    {
        if same_text(text.as_str(), "auto") {
            return ColorValue::Auto;
        }
        match CssToken::from_name(text.as_str()) {
            Some(t) => ColorValue::Token(t),
            None => ColorValue::Custom(text),
        }
    }
}

/// Writing a color out and reading it back gives the same color, unless it
/// is a CSS color written like `auto` or like a token's name.
pub proof fn lemma_color_text_round_trip(c: ColorValue)
    requires
        c matches ColorValue::Custom(css) ==> css@ != "auto"@ && CssToken::spec_from_name_opt(
            css@,
        ) is None,
    ensures
        c.spec_text() == "auto"@ ==> c == ColorValue::Auto,
        c.spec_text() != "auto"@ ==> match CssToken::spec_from_name_opt(c.spec_text()) {
            Some(t) => c == ColorValue::Token(t),
            None => c matches ColorValue::Custom(css) && css@ == c.spec_text(),
        },
{
    if let ColorValue::Token(t) = c {
        CssToken::lemma_token_names(t);
    }
}

/// Per-tag styling override.
#[derive(Debug, Clone, PartialEq)]
pub struct TagStyle {
    /// Custom icon for this tag.
    pub icon: Option<String>,
    /// Custom background color for this tag when active.
    pub color: Option<ColorValue>,
}

impl Default for TagStyle {
    fn default() -> (style: TagStyle)
        ensures
            style.icon is None,
            style.color is None,
    {
        TagStyle { icon: None, color: None }
    }
}

/// The text of an optional string.
pub open spec fn opt_text(o: Option<String>) -> Option<Seq<char>> {
    match o {
        Some(s) => Some(s@),
        None => None,
    }
}

/// A copy of an optional string.
pub fn clone_opt_string(o: &Option<String>) -> (res: Option<String>)
    ensures
        opt_text(res) == opt_text(*o),
{
    match o {
        Some(s) => Some(s.clone()),
        None => None,
    }
}

/// A tag key that does not denote a tag index.
#[derive(Debug, Clone, PartialEq)]
pub struct TagKeyError {
    /// The key as written.
    pub key: String,
}

/// Per-tag icon and color overrides, keyed by tag index (1-based).
#[derive(Debug, Clone, PartialEq)]
pub struct TagMap(HashMap<u32, TagStyle>);

impl View for TagMap {
    type V = Map<u32, TagStyle>;

    closed spec fn view(&self) -> Map<u32, TagStyle> {
        self.0@
    }
}

/// The text and the style of each entry of a listing of tag overrides.
pub open spec fn entries_view(e: Seq<(String, TagStyle)>) -> Seq<(Seq<char>, TagStyle)> {
    e.map_values(|p: (String, TagStyle)| (p.0@, p.1))
}

/// The text and the borrowed style of each entry of a listing of tag overrides.
pub open spec fn borrowed_entries_view(e: Seq<(String, &TagStyle)>) -> Seq<(Seq<char>, TagStyle)> {
    e.map_values(|p: (String, &TagStyle)| (p.0@, *p.1))
}

/// The map that a listing keyed by text builds when each key is parsed as a
/// tag index and the entries are inserted in order; `None` when a key does
/// not parse.
pub open spec fn keys_to_map(e: Seq<(Seq<char>, TagStyle)>) -> Option<Map<u32, TagStyle>>
    decreases e.len(),
{
    if e.len() == 0 {
        Some(Map::empty())
    } else {
        match (keys_to_map(e.drop_last()), parse_u32_spec(e.last().0)) {
            (Some(m), Some(k)) => Some(m.insert(k, e.last().1)),
            _ => None,
        }
    }
}

/// `e` lists the map `m`, in the order of `keys`: each key once, written in
/// decimal, with its style.
pub open spec fn lists_tag_map_by(
    e: Seq<(Seq<char>, TagStyle)>,
    m: Map<u32, TagStyle>,
    keys: Seq<u32>,
) -> bool {
    &&& keys.len() == e.len()
    &&& keys.no_duplicates()
    &&& forall|i: int|
        0 <= i < e.len() ==> {
            &&& #[trigger] e[i].0 == decimal(keys[i] as nat)
            &&& m.contains_key(keys[i])
            &&& e[i].1 == m[keys[i]]
        }
    &&& forall|k: u32| #[trigger] m.contains_key(k) ==> keys.contains(k)
}

/// `e` lists the map `m`, each key once, in some order.
pub open spec fn lists_tag_map(e: Seq<(Seq<char>, TagStyle)>, m: Map<u32, TagStyle>) -> bool {
    exists|keys: Seq<u32>| #[trigger] lists_tag_map_by(e, m, keys)
}

/// `o` lists the tags of `m` that have their own color, each once, with that
/// color.
pub open spec fn lists_color_overrides(o: Seq<(u32, &ColorValue)>, m: Map<u32, TagStyle>) -> bool {
    &&& forall|i: int|
        0 <= i < o.len() ==> m.contains_key(#[trigger] o[i].0) && m[o[i].0].color == Some(*o[i].1)
    &&& forall|a: int, b: int| 0 <= a < b < o.len() ==> o[a].0 != o[b].0
    &&& forall|k: u32|
        m.contains_key(k) && (#[trigger] m[k]).color is Some ==> exists|i: int|
            0 <= i < o.len() && o[i].0 == k
}

/// Every key of a listing parses.
pub open spec fn all_keys_parse(e: Seq<(Seq<char>, TagStyle)>) -> bool {
    forall|i: int| 0 <= i < e.len() ==> (#[trigger] parse_u32_spec(e[i].0)) is Some
}

proof fn lemma_keys_to_map_some(e: Seq<(Seq<char>, TagStyle)>)
    ensures
        keys_to_map(e) is Some <==> all_keys_parse(e),
    decreases e.len(),
{
    if e.len() > 0 {
        lemma_keys_to_map_some(e.drop_last());
        if all_keys_parse(e) {
            assert forall|i: int| 0 <= i < e.drop_last().len() implies (#[trigger] parse_u32_spec(
                e.drop_last()[i].0,
            )) is Some by {
                assert(e.drop_last()[i] == e[i]);
            }
            assert(parse_u32_spec(e[e.len() - 1].0) is Some);
        }
        if keys_to_map(e) is Some {
            assert forall|i: int| 0 <= i < e.len() implies (#[trigger] parse_u32_spec(
                e[i].0,
            )) is Some by {
                if i < e.len() - 1 {
                    assert(e.drop_last()[i] == e[i]);
                }
            }
        }
    }
}

/// Parsing the keys of a listing of a map gives the map back.
pub proof fn lemma_listing_parses_back(e: Seq<(Seq<char>, TagStyle)>, m: Map<u32, TagStyle>)
    requires
        lists_tag_map(e, m),
        m.dom().finite(),
    ensures
        keys_to_map(e) == Some(m),
    decreases e.len(),
{
    let keys = choose|keys: Seq<u32>| #[trigger] lists_tag_map_by(e, m, keys);
    if e.len() == 0 {
        assert forall|k: u32| !m.contains_key(k) by {
            if m.contains_key(k) {
                assert(keys.contains(k));
            }
        }
        assert(m =~= Map::empty());
    } else {
        let k = keys.last();
        let rest = e.drop_last();
        let rest_keys = keys.drop_last();
        let rest_map = m.remove(k);
        assert(e[e.len() - 1].0 == decimal(keys[e.len() - 1] as nat));
        lemma_parse_decimal(k);
        assert forall|kk: u32| #[trigger] rest_map.contains_key(kk) implies rest_keys.contains(kk) by {
            assert(keys.contains(kk));
            let j = choose|j: int| 0 <= j < keys.len() && keys[j] == kk;
            assert(j != keys.len() - 1);
            assert(rest_keys[j] == kk);
        }
        assert forall|i: int| 0 <= i < rest.len() implies {
            &&& #[trigger] rest[i].0 == decimal(rest_keys[i] as nat)
            &&& rest_map.contains_key(rest_keys[i])
            &&& rest[i].1 == rest_map[rest_keys[i]]
        } by {
            assert(rest[i] == e[i]);
            assert(rest_keys[i] == keys[i]);
            assert(e[i].0 == decimal(keys[i] as nat));
            assert(keys[i] != keys[keys.len() - 1]);
        }
        assert(rest_keys.no_duplicates()) by {
            assert forall|a: int, b: int|
                0 <= a < rest_keys.len() && 0 <= b < rest_keys.len() && a != b implies rest_keys[a]
                != rest_keys[b] by {
                assert(rest_keys[a] == keys[a]);
                assert(rest_keys[b] == keys[b]);
            }
        }
        assert(lists_tag_map_by(rest, rest_map, rest_keys));
        lemma_listing_parses_back(rest, rest_map);
        assert(e[e.len() - 1].1 == m[k]);
        assert(rest_map.insert(k, e.last().1) =~= m);
    }
}

/// An override map has finitely many tags.
pub proof fn lemma_tag_map_finite(map: &TagMap)
    ensures
        map@.dom().finite(),
{
}

impl Default for TagMap {
    fn default() -> (map: TagMap)
        ensures
            map@ == Map::<u32, TagStyle>::empty(),
    {
        TagMap(HashMap::new())
    }
}

impl TagMap {
    /// The map of overrides, keyed by tag index.
    pub fn deref(&self) -> (map: &HashMap<u32, TagStyle>)
        ensures
            map@ == self@,
    {
        &self.0
    }

    /// The number of tags with an override.
    pub fn len(&self) -> (n: usize)
        ensures
            n == self@.len(),
    {
        self.0.len()
    }

    /// The override of one tag, if it has one.
    pub fn get(&self, index: u32) -> (style: Option<&TagStyle>)
        ensures
            match style {
                Some(s) => self@.contains_key(index) && *s == self@[index],
                None => !self@.contains_key(index),
            },
    {
        self.0.get(&index)
    }

    /// The overrides listed with their keys written in decimal, in the order
    /// in which the map is walked; this is what the map is written out as.
    pub fn to_string_keys(&self) -> (entries: Vec<(String, &TagStyle)>)
        ensures
            lists_tag_map(borrowed_entries_view(entries@), self@),
    {
        let mut entries: Vec<(String, &TagStyle)> = Vec::new();
        let ghost mut keys: Seq<u32> = Seq::empty();
        let ghost s = spec_hash_map_iter(&self.0).remaining();
        for kv in it: self.0.iter()
            invariant
                entries@.len() == it.index(),
                keys.len() == it.index(),
                it.seq() == s,
                forall|i: int|
                    0 <= i < it.index() ==> {
                        &&& #[trigger] keys[i] == *it.seq()[i].0
                        &&& entries@[i].0@ == decimal(keys[i] as nat)
                        &&& entries@[i].1 == it.seq()[i].1
                    },
        {
            let (k, v) = kv;
            entries.push((u32_text(*k), v));
            proof {
                keys = keys.push(*k);
            }
        }
        proof {
            let e = borrowed_entries_view(entries@);
            assert(keys.no_duplicates()) by {
                assert forall|a: int, b: int|
                    0 <= a < keys.len() && 0 <= b < keys.len() && a != b implies keys[a]
                    != keys[b] by {
                    if keys[a] == keys[b] {
                        assert(s[a].0 == s[b].0);
                        assert(self@[*s[a].0] == *s[a].1);
                        assert(s[a] == s[b]);
                    }
                }
            }
            assert forall|i: int| 0 <= i < e.len() implies {
                &&& #[trigger] e[i].0 == decimal(keys[i] as nat)
                &&& self@.contains_key(keys[i])
                &&& e[i].1 == self@[keys[i]]
            } by {
                assert(self@.contains_key(*s[i].0));
            }
            assert forall|k: u32| #[trigger] self@.contains_key(k) implies keys.contains(k) by {
                assert(s.contains((&k, &self@[k])));
                let j = choose|j: int| 0 <= j < s.len() && s[j] == (&k, &self@[k]);
                assert(keys[j] == k);
            }
            assert(lists_tag_map_by(e, self@, keys));
        }
        entries
    }

    /// The tags that have their own color, with that color, in the order in
    /// which the map is walked.
    pub fn color_overrides(&self) -> (overrides: Vec<(u32, &ColorValue)>)
        ensures
            lists_color_overrides(overrides@, self@),
    {
        let mut overrides: Vec<(u32, &ColorValue)> = Vec::new();
        let ghost s = spec_hash_map_iter(&self.0).remaining();
        let ghost mut taken: Seq<int> = Seq::empty();
        for kv in it: self.0.iter()
            invariant
                it.seq() == s,
                taken.len() == overrides@.len(),
                forall|j: int|
                    0 <= j < taken.len() ==> {
                        &&& 0 <= #[trigger] taken[j] < it.index()
                        &&& overrides@[j].0 == *s[taken[j]].0
                        &&& (*s[taken[j]].1).color == Some(*overrides@[j].1)
                    },
                forall|a: int, b: int| 0 <= a < b < taken.len() ==> taken[a] < taken[b],
                forall|i: int|
                    0 <= i < it.index() && (*s[i].1).color is Some ==> #[trigger] taken.contains(i),
        {
            let ghost idx = it.index() as int;
            let ghost before = taken;
            assert(kv == s[idx]);
            let (k, style) = kv;
            match &style.color {
                Some(color) => {
                    overrides.push((*k, color));
                    proof {
                        taken = taken.push(idx);
                    }
                },
                None => {},
            }
            proof {
                assert forall|i: int|
                    0 <= i < idx + 1 && (*s[i].1).color is Some implies #[trigger] taken.contains(i) by {
                    if i < idx {
                        assert(before.contains(i));
                        let w = choose|w: int| 0 <= w < before.len() && before[w] == i;
                        assert(taken[w] == i);
                    } else {
                        assert(taken[taken.len() - 1] == i);
                    }
                }
            }
        }
        proof {
            let o = overrides@;
            assert forall|i: int| 0 <= i < o.len() implies self@.contains_key(#[trigger] o[i].0)
                && self@[o[i].0].color == Some(*o[i].1) by {
                assert(self@.contains_key(*s[taken[i]].0));
            }
            assert forall|a: int, b: int| 0 <= a < b < o.len() implies o[a].0 != o[b].0 by {
                if o[a].0 == o[b].0 {
                    assert(self@[*s[taken[a]].0] == *s[taken[a]].1);
                    assert(self@[*s[taken[b]].0] == *s[taken[b]].1);
                    assert(s[taken[a]] == s[taken[b]]);
                }
            }
            assert forall|k: u32| self@.contains_key(k) && (#[trigger] self@[k]).color is Some implies exists|i: int|
                0 <= i < o.len() && o[i].0 == k by {
                assert(s.contains((&k, &self@[k])));
                let j = choose|j: int| 0 <= j < s.len() && s[j] == (&k, &self@[k]);
                assert(taken.contains(j));
                let i = choose|i: int| 0 <= i < taken.len() && taken[i] == j;
                assert(o[i].0 == k);
            }
        }
        overrides
    }

    /// Builds the map from overrides keyed by text, parsing each key as a tag
    /// index; this is how the map is read in. Fails on the first key, in
    /// order, that is not a tag index.
    #[verifier::loop_isolation(false)]
    pub fn from_string_keys(entries: Vec<(String, TagStyle)>) -> (res: Result<TagMap, TagKeyError>)
        ensures
            match res {
                Ok(map) => keys_to_map(entries_view(entries@)) == Some(map@),
                Err(err) => {
                    &&& keys_to_map(entries_view(entries@)) is None
                    &&& exists|i: int|
                        0 <= i < entries@.len() && entries@[i].0@ == err.key@ && parse_u32_spec(
                            err.key@,
                        ) is None && forall|j: int|
                            0 <= j < i ==> (#[trigger] parse_u32_spec(entries@[j].0@)) is Some
                },
            },
    {
        let ghost ev = entries_view(entries@);
        let ghost all = entries@;
        let mut rest = entries;
        let mut map: HashMap<u32, TagStyle> = HashMap::new();
        let mut i: usize = 0;
        let n = rest.len();
        while i < n
            invariant
                n == all.len(),
                i <= n,
                ev == entries_view(all),
                rest@ == all.skip(i as int),
                keys_to_map(ev.take(i as int)) == Some(map@),
                forall|j: int| 0 <= j < i ==> (#[trigger] parse_u32_spec(all[j].0@)) is Some,
            decreases n - i,
        {
            let (key, style) = rest.remove(0);
            proof {
                assert(all[i as int] == (key, style));
                assert(ev.take(i + 1).drop_last() =~= ev.take(i as int));
                assert(ev.take(i + 1).last() == (key@, style));
            }
            match parse_u32(key.as_str()) {
                Some(id) => {
                    map.insert(id, style);
                },
                None => {
                    proof {
                        lemma_keys_to_map_some(ev);
                        assert(ev[i as int].0 == key@);
                        assert(parse_u32_spec(ev[i as int].0) is None);
                        assert(!all_keys_parse(ev));
                        assert(all[i as int].0@ == key@);
                        let w = i as int;
                        assert(0 <= w < all.len() && all[w].0@ == key@ && parse_u32_spec(key@) is None
                            && forall|j: int| 0 <= j < w ==> (#[trigger] parse_u32_spec(all[j].0@)) is Some);
                    }
                    return Err(TagKeyError { key });
                },
            }
            i = i + 1;
            proof {
                assert(rest@ =~= all.skip(i as int));
            }
        }
        assert(ev.take(n as int) =~= ev);
        Ok(TagMap(map))
    }
}

/// The module as the settings and the layout know it.
pub struct ModuleInfo {
    /// The module's name in configuration files.
    pub name: String,
    /// The id under which a bar layout places the module.
    pub layout_id: Option<String>,
    /// Whether the module is configured as an array entry.
    pub array_entry: bool,
}

/// MangoWM tag (workspace) switcher configuration, with each property at its
/// current value. The sizes (tag padding and the icon and label scales) are
/// decimal fractions and are kept by the caller.
pub struct MangoWorkspacesConfig {
    /// Minimum number of tag buttons to display.
    ///
    /// When set to 0 (default), only active and occupied tags are shown.
    /// When set to N, at least N buttons are always visible.
    pub min_tag_count: u8,
    /// Show only tags belonging to the bar's monitor.
    pub monitor_specific: bool,
    /// What identifies each tag button.
    pub display_mode: DisplayMode,
    /// Visual indicator for the active tag.
    pub active_indicator: ActiveIndicator,
    /// Tags to hide from the display: glob patterns matched against the tag index.
    pub tag_ignore: Vec<String>,
    /// Color for the active (focused) tag.
    pub active_color: ColorValue,
    /// Color for occupied tags (have clients but not focused).
    pub occupied_color: ColorValue,
    /// Color for empty tags.
    pub empty_color: ColorValue,
    /// Background color for the tags container.
    pub container_bg_color: ColorValue,
    /// Display border around the tags container.
    pub border_show: bool,
    /// Border color for the tags container.
    pub border_color: ColorValue,
    /// Per-tag icon and color overrides, keyed by tag index.
    pub tag_map: TagMap,
}

impl Default for MangoWorkspacesConfig {
    fn default() -> (config: MangoWorkspacesConfig)
        ensures
            config.min_tag_count == 0,
            config.monitor_specific,
            config.display_mode == DisplayMode::Label,
            config.active_indicator == ActiveIndicator::Background,
            config.tag_ignore@.len() == 0,
            config.active_color == ColorValue::Token(CssToken::Accent),
            config.occupied_color == ColorValue::Token(CssToken::FgMuted),
            config.empty_color == ColorValue::Token(CssToken::FgSubtle),
            config.container_bg_color == ColorValue::Token(CssToken::BgSurfaceElevated),
            !config.border_show,
            config.border_color == ColorValue::Token(CssToken::BorderDefault),
            config.tag_map@ == Map::<u32, TagStyle>::empty(),
    {
        MangoWorkspacesConfig {
            min_tag_count: 0,
            monitor_specific: true,
            display_mode: DisplayMode::Label,
            active_indicator: ActiveIndicator::Background,
            tag_ignore: Vec::new(),
            active_color: ColorValue::Token(CssToken::Accent),
            occupied_color: ColorValue::Token(CssToken::FgMuted),
            empty_color: ColorValue::Token(CssToken::FgSubtle),
            container_bg_color: ColorValue::Token(CssToken::BgSurfaceElevated),
            border_show: false,
            border_color: ColorValue::Token(CssToken::BorderDefault),
            tag_map: TagMap::default(),
        }
    }
}

impl MangoWorkspacesConfig {
    /// How the module is registered: its name, its layout id, and that it is
    /// not an array entry.
    pub fn module_info() -> (info: ModuleInfo)
        ensures
            info.name@ == "mango-workspaces"@,
            opt_text(info.layout_id) == Some("mango-workspaces"@),
            !info.array_entry,
    {
        ModuleInfo {
            name: String::from_str("mango-workspaces"),
            layout_id: Some(String::from_str("mango-workspaces")),
            array_entry: false,
        }
    }
}

} // verus!
