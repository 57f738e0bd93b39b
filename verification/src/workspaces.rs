//! The decisions of the tag switcher: what a click or a scroll does, what a
//! change of tags or of configuration redraws, and when its watchers stop.

use vstd::prelude::*;

use crate::button::{texts, MangoTagButtonOutput};
use crate::config::opt_text;
use crate::decimal::{decimal, push_decimal};
use crate::service::MangoTag;
use crate::tags::{next_tag_index, spec_next_tag};

verus! {

/// What the user did to the tag switcher.
#[derive(Debug, Clone, Copy, PartialEq, Eq, Structural)]
pub enum MangoWorkspacesMsg {
    /// The button of a tag was clicked.
    TagClicked(u32),
    /// Scrolled up over the switcher.
    ScrollUp,
    /// Scrolled down over the switcher.
    ScrollDown,
}

/// What changed outside the tag switcher.
#[derive(Debug, Clone, Copy, PartialEq, Eq, Structural)]
pub enum MangoWorkspacesCmd {
    /// The compositor's tags changed.
    TagsChanged,
    /// The configuration changed.
    ConfigChanged,
}

/// What the tag switcher asks the compositor to do.
#[derive(Debug, Clone, Copy, PartialEq, Eq, Structural)]
pub enum WorkspaceAction {
    /// Show this tag.
    SwitchTo(u32),
    /// Move to the next tag (a positive direction) or the previous one.
    Navigate(i32),
}

/// What a change redraws.
#[derive(Debug, Clone, Copy, PartialEq, Eq, Structural)]
pub struct Refresh {
    /// Rebuild the CSS of the switcher.
    pub restyle: bool,
    /// Rebuild the tag buttons.
    pub rebuild: bool,
    /// Have the bar's window take its new size.
    pub resize: bool,
}

/// What a watcher does with what it received.
#[derive(Debug, Clone, Copy, PartialEq, Eq, Structural)]
pub enum WatchStep {
    /// The source ended: stop watching.
    Stop,
    /// Nothing to report: wait for the next one.
    Skip,
    /// Report a change.
    Notify,
}

/// The message of the switcher for what a button reports.
pub fn message_for_output(output: MangoTagButtonOutput) -> (msg: MangoWorkspacesMsg)
    ensures
        msg == match output {
            MangoTagButtonOutput::Clicked(i) => MangoWorkspacesMsg::TagClicked(i),
            MangoTagButtonOutput::ScrollUp => MangoWorkspacesMsg::ScrollUp,
            MangoTagButtonOutput::ScrollDown => MangoWorkspacesMsg::ScrollDown,
        },
{
    match output {
        MangoTagButtonOutput::Clicked(i) => MangoWorkspacesMsg::TagClicked(i),
        MangoTagButtonOutput::ScrollUp => MangoWorkspacesMsg::ScrollUp,
        MangoTagButtonOutput::ScrollDown => MangoWorkspacesMsg::ScrollDown,
    }
}

/// What a message asks of the compositor: a click shows its tag, scrolling
/// up goes back one tag and scrolling down forward one.
pub fn action_for(msg: MangoWorkspacesMsg) -> (action: WorkspaceAction)
    ensures
        action == match msg {
            MangoWorkspacesMsg::TagClicked(i) => WorkspaceAction::SwitchTo(i),
            MangoWorkspacesMsg::ScrollUp => WorkspaceAction::Navigate(-1i32),
            MangoWorkspacesMsg::ScrollDown => WorkspaceAction::Navigate(1i32),
        },
{
    match msg {
        MangoWorkspacesMsg::TagClicked(i) => WorkspaceAction::SwitchTo(i),
        MangoWorkspacesMsg::ScrollUp => WorkspaceAction::Navigate(-1),
        MangoWorkspacesMsg::ScrollDown => WorkspaceAction::Navigate(1),
    }
}

/// What a change redraws: the buttons and the window's size always, the CSS
/// only when the configuration changed.
pub fn refresh_for(cmd: MangoWorkspacesCmd) -> (refresh: Refresh)
    ensures
        refresh.rebuild,
        refresh.resize,
        refresh.restyle == (cmd == MangoWorkspacesCmd::ConfigChanged),
{
    match cmd {
        MangoWorkspacesCmd::TagsChanged => Refresh { restyle: false, rebuild: true, resize: true },
        MangoWorkspacesCmd::ConfigChanged => Refresh { restyle: true, rebuild: true, resize: true },
    }
}

/// One step of redrawing the switcher.
#[derive(Debug, Clone, Copy, PartialEq, Eq, Structural)]
pub enum RefreshStep {
    /// Rebuild the CSS of the switcher.
    Restyle,
    /// Rebuild the tag buttons.
    Rebuild,
    /// Have the bar's window take its new size.
    Resize,
}

/// The steps that a change runs, in order: on a configuration change the
/// CSS first, then the buttons, then the window's size; on a change of tags
/// the buttons, then the size.
pub open spec fn spec_refresh_steps(cmd: MangoWorkspacesCmd) -> Seq<RefreshStep> {
    match cmd {
        MangoWorkspacesCmd::TagsChanged => seq![RefreshStep::Rebuild, RefreshStep::Resize],
        MangoWorkspacesCmd::ConfigChanged => seq![
            RefreshStep::Restyle,
            RefreshStep::Rebuild,
            RefreshStep::Resize,
        ],
    }
}

/// The steps that a change runs, in the order they run.
pub fn refresh_steps(cmd: MangoWorkspacesCmd) -> (steps: Vec<RefreshStep>)
    ensures
        steps@ == spec_refresh_steps(cmd),
{
    let mut steps: Vec<RefreshStep> = Vec::new();
    if cmd == MangoWorkspacesCmd::ConfigChanged {
        steps.push(RefreshStep::Restyle);
    }
    steps.push(RefreshStep::Rebuild);
    steps.push(RefreshStep::Resize);
    assert(steps@ =~= spec_refresh_steps(cmd));
    steps
}

/// The command that has the compositor show a tag.
pub open spec fn spec_view_command(index: u32) -> Seq<char> {
    "view,"@ + decimal(index as nat)
}

/// The command that has the compositor show a tag, e.g. `view,3`.
pub fn view_command(index: u32) -> (cmd: String)
    ensures
        cmd@ == spec_view_command(index),
{
    let mut cmd = String::from_str("view,");
    push_decimal(&mut cmd, index as u64);
    cmd
}

/// The command that scrolling in `direction` sends, given the tags of the
/// monitor; none when there are no tags.
pub fn navigate_command(tags: &[MangoTag], direction: i32) -> (cmd: Option<String>)
    ensures
        match spec_next_tag(tags@, direction) {
            Some(i) => cmd matches Some(c) && c@ == spec_view_command(i),
            None => cmd is None,
        },
{
    match next_tag_index(tags, direction) {
        Some(i) => Some(view_command(i)),
        None => None,
    }
}

/// What the tag watcher does with what the subscription yields: stop at its
/// end, skip a failed update, report any other.
pub fn tag_event_step<T, E>(event: &Option<Result<T, E>>) -> (step: WatchStep)
    ensures
        step == match event {
            None => WatchStep::Stop,
            Some(Err(_)) => WatchStep::Skip,
            Some(Ok(_)) => WatchStep::Notify,
        },
{
    match event {
        None => WatchStep::Stop,
        Some(Err(_)) => WatchStep::Skip,
        Some(Ok(_)) => WatchStep::Notify,
    }
}

/// What the configuration watcher does: stop when its channel closed, else
/// report (once for all the changes waiting).
pub fn config_event_step(received: bool) -> (step: WatchStep)
    ensures
        step == if received {
            WatchStep::Notify
        } else {
            WatchStep::Stop
        },
{
    if received {
        WatchStep::Notify
    } else {
        WatchStep::Stop
    }
}

/// Whether a class is not one of `removed`.
pub open spec fn kept_class(removed: Seq<Seq<char>>) -> spec_fn(Seq<char>) -> bool {
    |c: Seq<char>| !removed.contains(c)
}

/// The container's classes after a border update: every border location's
/// class taken off, the others kept in order, and the chosen location's
/// class added when borders are shown (once).
pub open spec fn spec_border_classes(
    current: Seq<Seq<char>>,
    locations: Seq<Seq<char>>,
    show_border: bool,
    chosen: Option<Seq<char>>,
) -> Seq<Seq<char>> {
    let rest = current.filter(kept_class(locations));
    match chosen {
        Some(c) => if show_border && !rest.contains(c) {
            rest.push(c)
        } else {
            rest
        },
        None => rest,
    }
}

/// A border update keeps every class that names no border location, drops
/// every location's class but the chosen one, which the container then has
/// exactly when borders are shown, and adds nothing else; a second update
/// with the same settings changes nothing.
pub proof fn lemma_border_classes(
    current: Seq<Seq<char>>,
    locations: Seq<Seq<char>>,
    show_border: bool,
    chosen: Option<Seq<char>>,
)
    ensures
        forall|x: Seq<char>|
            current.contains(x) && !locations.contains(x) ==> #[trigger] spec_border_classes(
                current,
                locations,
                show_border,
                chosen,
            ).contains(x),
        forall|x: Seq<char>|
            #[trigger] spec_border_classes(current, locations, show_border, chosen).contains(x) ==> (
            current.contains(x) && !locations.contains(x)) || (show_border && chosen == Some(x)),
        show_border && chosen is Some ==> spec_border_classes(
            current,
            locations,
            show_border,
            chosen,
        ).contains(chosen->0),
        !show_border ==> forall|x: Seq<char>|
            #[trigger] spec_border_classes(current, locations, show_border, chosen).contains(x)
                ==> !locations.contains(x),
        spec_border_classes(
            spec_border_classes(current, locations, show_border, chosen),
            locations,
            show_border,
            chosen,
        ) == spec_border_classes(current, locations, show_border, chosen),
{
    broadcast use vstd::seq_lib::group_filter_ensures;

    let pred = kept_class(locations);
    let rest = current.filter(pred);
    let r = spec_border_classes(current, locations, show_border, chosen);
    assert forall|x: Seq<char>| current.contains(x) && !locations.contains(x) implies r.contains(x) by {
        let i = choose|i: int| 0 <= i < current.len() && current[i] == x;
        current.lemma_filter_contains(pred, i);
        if r != rest {
            assert(r[rest.len() as int] == chosen->0);
            let j = choose|j: int| 0 <= j < rest.len() && rest[j] == x;
            assert(r[j] == x);
        }
    }
    assert forall|x: Seq<char>| r.contains(x) implies (current.contains(x) && !locations.contains(x)) || (
    show_border && chosen == Some(x)) by {
        let j = choose|j: int| 0 <= j < r.len() && r[j] == x;
        if j < rest.len() {
            assert(rest[j] == x);
            assert(rest.contains(x));
            current.lemma_filter_contains_rev(pred, x);
            assert(pred(rest[j]));
        }
    }
    // The classes kept form their own filter.
    let r2 = r.filter(pred);
    let rest_again = rest.filter(pred);
    assert(rest_again =~= rest) by {
        lemma_filter_keeps_all(rest, pred);
    }
    match chosen {
        Some(c) => {
            if show_border {
                if rest.contains(c) {
                    assert(r == rest);
                } else {
                    assert(r[rest.len() as int] == c);
                }
                assert(r.contains(c));
            }
            if show_border && !rest.contains(c) {
                assert(r == rest.push(c));
                rest.lemma_filter_push(c, pred);
                if locations.contains(c) {
                    assert(r2 =~= rest);
                    assert(!r2.contains(c));
                    assert(spec_border_classes(r, locations, show_border, chosen) == r2.push(c));
                } else {
                    assert(r2 =~= r);
                    assert(r.contains(c)) by {
                        assert(r[rest.len() as int] == c);
                    }
                }
            } else {
                assert(r2 =~= r);
            }
        },
        None => {
            assert(r2 =~= r);
        },
    }
}

/// Filtering by a predicate that every element meets keeps them all.
proof fn lemma_filter_keeps_all(s: Seq<Seq<char>>, pred: spec_fn(Seq<char>) -> bool)
    requires
        forall|i: int| 0 <= i < s.len() ==> pred(#[trigger] s[i]),
    ensures
        s.filter(pred) == s,
    decreases s.len(),
{
    if s.len() > 0 {
        lemma_filter_keeps_all(s.drop_last(), pred);
        s.drop_last().lemma_filter_push(s.last(), pred);
        assert(s.drop_last().push(s.last()) =~= s);
    } else {
        assert(s.filter(pred) =~= s);
    }
}

/// Whether a list of strings holds a text.
fn holds_text(list: &[String], text: &String) -> (res: bool)
    ensures
        res == texts(list@).contains(text@),
{
    let mut i: usize = 0;
    while i < list.len()
        invariant
            i <= list@.len(),
            forall|k: int| 0 <= k < i ==> list@[k]@ != text@,
        decreases list@.len() - i,
    {
        if list[i] == *text {
            proof {
                assert(texts(list@)[i as int] == text@);
            }
            return true;
        }
        i = i + 1;
    }
    proof {
        if texts(list@).contains(text@) {
            let k = choose|k: int| 0 <= k < texts(list@).len() && texts(list@)[k] == text@;
            assert(list@[k]@ == text@);
        }
    }
    false
}

/// The container's classes after a border update, from its current classes,
/// the classes of all border locations, whether borders are shown and the
/// chosen location's class.
pub fn update_border_classes(
    current: &Vec<String>,
    locations: &Vec<String>,
    show_border: bool,
    chosen: Option<String>,
) -> (classes: Vec<String>)
    ensures
        texts(classes@) == spec_border_classes(
            texts(current@),
            texts(locations@),
            show_border,
            opt_text(chosen),
        ),
{
    let ghost pred = kept_class(texts(locations@));
    let mut classes: Vec<String> = Vec::new();
    let mut i: usize = 0;
    while i < current.len()
        invariant
            pred == kept_class(texts(locations@)),
            i <= current@.len(),
            texts(classes@) == texts(current@).take(i as int).filter(pred),
        decreases current@.len() - i,
    {
        let c = &current[i];
        proof {
            let t = texts(current@);
            assert(t.take(i + 1) =~= t.take(i as int).push(c@));
            t.take(i as int).lemma_filter_push(c@, pred);
        }
        if !holds_text(locations.as_slice(), c) {
            classes.push(c.clone());
            proof {
                assert(texts(classes@) =~= texts(current@).take(i as int).filter(pred).push(c@));
            }
        }
        i = i + 1;
    }
    proof {
        assert(texts(current@).take(current@.len() as int) =~= texts(current@));
    }
    match chosen {
        Some(c) => {
            if show_border && !holds_text(classes.as_slice(), &c) {
                let ghost before = classes@;
                classes.push(c);
                proof {
                    assert(texts(classes@) =~= texts(before).push(classes@[classes@.len() - 1]@));
                }
            }
        },
        None => {},
    }
    classes
}

} // verus!
