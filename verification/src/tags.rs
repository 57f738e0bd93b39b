//! Which tag buttons a bar shows, in what order, and what each is built from;
//! and which tag scrolling moves to.

use std::collections::HashMap;

use vstd::prelude::*;

use crate::button::MangoTagButtonInit;
use crate::config::{
    clone_opt_string, opt_text, ActiveIndicator, DisplayMode, MangoWorkspacesConfig, TagMap,
    TagStyle,
};
use crate::decimal::{decimal, lemma_decimal_digits, push_decimal, u32_text};
use crate::glob::{glob_match, glob_matches, is_catch_all, lemma_matches_every_text, matches_every_text};
use crate::service::{MangoTag, MangoTagsResponse};

verus! {

broadcast use vstd::std_specs::hash::group_hash_axioms;

/// The text of the CSS class that addresses the button of a tag.
pub open spec fn spec_tag_id_css_class(index: u32) -> Seq<char> {
    "tag-id-"@ + decimal(index as nat)
}

/// CSS class used to address a tag button by index, e.g. `tag-id-3`.
pub fn tag_id_css_class(index: u32) -> (class: String)
    ensures
        class@ == spec_tag_id_css_class(index),
{
    let mut class = String::from_str("tag-id-");
    push_decimal(&mut class, index as u64);
    class
}

/// Distinct tags have distinct CSS classes.
pub proof fn lemma_tag_id_css_class_injective(a: u32, b: u32)
    requires
        spec_tag_id_css_class(a) == spec_tag_id_css_class(b),
    ensures
        a == b,
{
    let prefix = "tag-id-"@;
    assert(decimal(a as nat) =~= spec_tag_id_css_class(a).skip(prefix.len() as int));
    assert(decimal(b as nat) =~= spec_tag_id_css_class(b).skip(prefix.len() as int));
    crate::decimal::lemma_decimal_injective(a as nat, b as nat);
}

/// Looks up a per-tag style override by 1-based index.
pub fn tag_style(index: u32, map: &HashMap<u32, TagStyle>) -> (style: Option<&TagStyle>)
    ensures
        match style {
            Some(s) => map@.contains_key(index) && *s == map@[index],
            None => !map@.contains_key(index),
        },
{
    map.get(&index)
}

/// Whether a tag is hidden: some pattern matches its index written in decimal.
pub open spec fn spec_is_ignored(index: u32, patterns: Seq<String>) -> bool {
    exists|k: int| 0 <= k < patterns.len() && glob_matches(#[trigger] patterns[k]@, decimal(index as nat))
}

proof fn lemma_decimal_len(n: nat)
    ensures
        decimal(n).len() <= n / 10 + 1,
    decreases n,
{
    if n >= 10 {
        lemma_decimal_len(n / 10);
        assert(n / 10 / 10 + 1 <= n / 10);
    }
}

/// Returns `true` when the tag index matches any of the ignore patterns.
pub fn is_ignored(index: u32, patterns: &[String]) -> (res: bool)
    ensures
        res == spec_is_ignored(index, patterns@),
{
    let text = u32_text(index);
    proof {
        lemma_decimal_len(index as nat);
    }
    let mut k: usize = 0;
    while k < patterns.len()
        invariant
            text@ == decimal(index as nat),
            text@.len() < usize::MAX,
            k <= patterns@.len(),
            forall|j: int| 0 <= j < k ==> !glob_matches(#[trigger] patterns@[j]@, decimal(index as nat)),
        decreases patterns@.len() - k,
    {
        if glob_match(patterns[k].as_str(), text.as_str()) {
            return true;
        }
        k = k + 1;
    }
    false
}

/// Tags ordered by index.
pub open spec fn sorted_by_index(s: Seq<MangoTag>) -> bool {
    forall|a: int, b: int| 0 <= a < b < s.len() ==> s[a].index <= s[b].index
}

/// Whether a tag has a given index.
pub open spec fn index_is(k: u32) -> spec_fn(MangoTag) -> bool {
    |t: MangoTag| t.index == k
}

/// The tags with a given index, in their order.
pub open spec fn with_index(s: Seq<MangoTag>, k: u32) -> Seq<MangoTag> {
    s.filter(index_is(k))
}

/// `r` is `s` sorted by index, tags of equal index keeping their order.
pub open spec fn stable_sort_of(r: Seq<MangoTag>, s: Seq<MangoTag>) -> bool {
    &&& r.len() == s.len()
    &&& sorted_by_index(r)
    &&& forall|k: u32| #[trigger] with_index(r, k) == with_index(s, k)
}

/// Whether a tag is in use: active, or with clients.
pub open spec fn in_use(t: MangoTag) -> bool {
    t.is_active || t.client_count > 0
}

/// Whether a tag is shown for itself: it is in use and no ignore pattern
/// hides it.
pub open spec fn shown(patterns: Seq<String>) -> spec_fn(MangoTag) -> bool {
    |t: MangoTag| in_use(t) && !spec_is_ignored(t.index, patterns)
}

/// The tags shown for themselves, in their order.
pub open spec fn kept_tags(tags: Seq<MangoTag>, patterns: Seq<String>) -> Seq<MangoTag> {
    tags.filter(shown(patterns))
}

/// Whether a tag is left over for the minimum count: idle (neither active
/// nor with clients) and not hidden by a pattern.
pub open spec fn spare(patterns: Seq<String>) -> spec_fn(MangoTag) -> bool {
    |t: MangoTag| !in_use(t) && !spec_is_ignored(t.index, patterns)
}

/// The idle tags that no pattern hides, in their order.
pub open spec fn spare_tags(tags: Seq<MangoTag>, patterns: Seq<String>) -> Seq<MangoTag> {
    tags.filter(spare(patterns))
}

/// How many more buttons the minimum count asks for.
pub open spec fn padding_count(shown_count: nat, min_tag_count: u8) -> nat {
    if min_tag_count > shown_count {
        (min_tag_count - shown_count) as nat
    } else {
        0
    }
}

/// The smaller of two counts.
pub open spec fn min_count(a: nat, b: nat) -> nat {
    if a <= b {
        a
    } else {
        b
    }
}

/// A placeholder: an empty, inactive tag with the given index.
pub open spec fn is_placeholder(t: MangoTag, index: int) -> bool {
    &&& t.index == index
    &&& !t.is_active
    &&& !t.is_urgent
    &&& t.layout@.len() == 0
    &&& t.client_count == 0
}

/// Whether a pattern hides the tag index `x`.
pub open spec fn hidden_index(x: int, patterns: Seq<String>) -> bool {
    spec_is_ignored(x as u32, patterns)
}

/// The index after which the `j`-th placeholder comes: `base` for the first,
/// the one before it for the others.
pub open spec fn padding_prev(ph: Seq<MangoTag>, base: int, j: int) -> int {
    if j == 0 {
        base
    } else {
        ph[j - 1].index as int
    }
}

/// The largest index among `base` and the placeholders.
pub open spec fn padding_last(ph: Seq<MangoTag>, base: int) -> int {
    if ph.len() == 0 {
        base
    } else {
        ph.last().index as int
    }
}

/// The `j`-th placeholder is empty, on an index that no pattern hides, the
/// first such index after the one before it.
pub open spec fn next_unhidden(ph: Seq<MangoTag>, base: int, j: int, patterns: Seq<String>) -> bool {
    &&& is_placeholder(ph[j], ph[j].index as int)
    &&& !spec_is_ignored(ph[j].index, patterns)
    &&& padding_prev(ph, base, j) < ph[j].index
    &&& forall|x: int|
        padding_prev(ph, base, j) < x < ph[j].index ==> #[trigger] hidden_index(x, patterns)
}

/// `ph` are the placeholders that follow the index `base`: each takes the
/// next index, after the one before it, that no pattern hides; there are
/// `wanted` of them, or fewer when every index left below 2^32 is hidden.
pub open spec fn are_padding(ph: Seq<MangoTag>, base: int, wanted: nat, patterns: Seq<String>) -> bool {
    &&& ph.len() <= wanted
    &&& forall|j: int| 0 <= j < ph.len() ==> #[trigger] next_unhidden(ph, base, j, patterns)
    &&& ph.len() < wanted ==> forall|x: int|
        padding_last(ph, base) < x <= u32::MAX ==> #[trigger] hidden_index(x, patterns)
}

/// `plan` is what a bar shows of `tags`: laid out as `plan_layout` says,
/// with no button on an index that a pattern hides.
pub open spec fn is_tag_plan(
    tags: Seq<MangoTag>,
    patterns: Seq<String>,
    min_tag_count: u8,
    plan: Seq<MangoTag>,
) -> bool {
    &&& plan_layout(tags, patterns, min_tag_count, plan)
    &&& forall|i: int| 0 <= i < plan.len() ==> !spec_is_ignored(#[trigger] plan[i].index, patterns)
}

/// The layout of what a bar shows of `tags`. First the tags in use (active
/// or with clients) that no pattern hides; while the minimum count asks for
/// more, the idle tags that no pattern hides, smallest indices first; all of
/// these sorted by index, tags of equal index keeping their order. Then, if
/// the minimum count still asks for more, placeholders on the next indices
/// after the largest of those that no pattern hides.
pub open spec fn plan_layout(
    tags: Seq<MangoTag>,
    patterns: Seq<String>,
    min_tag_count: u8,
    plan: Seq<MangoTag>,
) -> bool {
    let kept = kept_tags(tags, patterns);
    let idle = spare_tags(tags, patterns);
    let needed = padding_count(kept.len(), min_tag_count);
    let k = min_count(needed, idle.len());
    let real_len = kept.len() + k;
    let base = if real_len > 0 {
        plan[real_len - 1].index as int
    } else {
        0
    };
    &&& plan.len() >= real_len
    &&& exists|sorted_idle: Seq<MangoTag>|
        #[trigger] stable_sort_of(sorted_idle, idle) && stable_sort_of(
            plan.take(real_len as int),
            kept + sorted_idle.take(k as int),
        )
    &&& are_padding(plan.skip(real_len as int), base, (needed - k) as nat, patterns)
    &&& sorted_by_index(plan)
}

proof fn lemma_filter_none(s: Seq<MangoTag>, k: u32)
    requires
        forall|i: int| 0 <= i < s.len() ==> s[i].index != k,
    ensures
        with_index(s, k) == Seq::<MangoTag>::empty(),
{
    s.lemma_all_neg_filter_empty(index_is(k));
    assert(with_index(s, k) =~= Seq::<MangoTag>::empty());
}

proof fn lemma_filter_single(x: MangoTag, k: u32)
    ensures
        with_index(seq![x], k) == if x.index == k {
            seq![x]
        } else {
            Seq::<MangoTag>::empty()
        },
{
    Seq::<MangoTag>::empty().lemma_filter_push(x, index_is(k));
    assert(Seq::<MangoTag>::empty().push(x) =~= seq![x]);
    lemma_filter_none(Seq::<MangoTag>::empty(), k);
}

/// Inserts a tag after every tag whose index is not larger.
fn insert_sorted(sorted: &mut Vec<MangoTag>, x: MangoTag)
    requires
        sorted_by_index(old(sorted)@),
    ensures
        sorted_by_index(final(sorted)@),
        final(sorted)@.len() == old(sorted)@.len() + 1,
        forall|k: u32|
            #[trigger] with_index(final(sorted)@, k) == if k == x.index {
                with_index(old(sorted)@, k).push(x)
            } else {
                with_index(old(sorted)@, k)
            },
{
    let ghost before = sorted@;
    let mut pos: usize = 0;
    while pos < sorted.len() && sorted[pos].index <= x.index
        invariant
            sorted@ == before,
            pos <= before.len(),
            forall|i: int| 0 <= i < pos ==> before[i].index <= x.index,
        decreases before.len() - pos,
    {
        pos = pos + 1;
    }
    sorted.insert(pos, x);
    proof {
        let left = before.take(pos as int);
        let right = before.skip(pos as int);
        assert(before =~= left + right);
        assert(sorted@ =~= left + seq![x] + right);
        assert forall|i: int| 0 <= i < right.len() implies right[i].index > x.index by {
            assert(before[pos as int].index > x.index);
            assert(right[i] == before[pos + i]);
        }
        assert forall|k: u32| #[trigger] with_index(sorted@, k) == if k == x.index {
            with_index(before, k).push(x)
        } else {
            with_index(before, k)
        } by {
            Seq::filter_distributes_over_add(left, right, index_is(k));
            Seq::filter_distributes_over_add(left + seq![x], right, index_is(k));
            Seq::filter_distributes_over_add(left, seq![x], index_is(k));
            lemma_filter_single(x, k);
            if k == x.index {
                lemma_filter_none(right, k);
                assert(with_index(left, k) + seq![x] =~= with_index(left, k).push(x));
                assert(with_index(left, k) + Seq::<MangoTag>::empty() =~= with_index(left, k));
                assert(with_index(left, k) + seq![x] + Seq::<MangoTag>::empty() =~= with_index(
                    left,
                    k,
                ) + seq![x]);
            } else {
                assert(with_index(left, k) + Seq::<MangoTag>::empty() =~= with_index(left, k));
            }
        }
        assert forall|a: int, b: int| 0 <= a < b < sorted@.len() implies sorted@[a].index
            <= sorted@[b].index by {
            if b < pos {
            } else if b == pos {
                assert(sorted@[a] == before[a]);
            } else if a < pos {
                assert(sorted@[b] == right[b - pos - 1]);
            } else if a == pos {
                assert(sorted@[b] == right[b - pos - 1]);
            } else {
                assert(sorted@[a] == before[a - 1]);
                assert(sorted@[b] == before[b - 1]);
            }
        }
    }
}

/// Whether some pattern matches every non-empty text, and so hides every tag.
pub fn hides_every_index(patterns: &[String]) -> (res: bool)
    ensures
        res == exists|k: int| 0 <= k < patterns@.len() && matches_every_text(#[trigger] patterns@[k]@),
        res ==> forall|x: int| #[trigger] hidden_index(x, patterns@),
{
    let mut k: usize = 0;
    while k < patterns.len()
        invariant
            k <= patterns@.len(),
            forall|j: int| 0 <= j < k ==> !matches_every_text(#[trigger] patterns@[j]@),
        decreases patterns@.len() - k,
    {
        if is_catch_all(patterns[k].as_str()) {
            proof {
                assert forall|x: int| #[trigger] hidden_index(x, patterns@) by {
                    lemma_decimal_digits((x as u32) as nat);
                    lemma_matches_every_text(patterns@[k as int]@, decimal((x as u32) as nat));
                }
            }
            return true;
        }
        k = k + 1;
    }
    false
}

proof fn lemma_filter_step(s: Seq<MangoTag>, i: int, pred: spec_fn(MangoTag) -> bool)
    requires
        0 <= i < s.len(),
    ensures
        s.take(i + 1).filter(pred) == if pred(s[i]) {
            s.take(i).filter(pred).push(s[i])
        } else {
            s.take(i).filter(pred)
        },
{
    assert(s.take(i + 1) =~= s.take(i).push(s[i]));
    s.take(i).lemma_filter_push(s[i], pred);
}

/// Inserting into a stable sort of `s` keeps it a stable sort of `s` with the
/// tag pushed.
proof fn lemma_sort_push(before: Seq<MangoTag>, after: Seq<MangoTag>, s: Seq<MangoTag>, x: MangoTag)
    requires
        stable_sort_of(before, s),
        sorted_by_index(after),
        after.len() == before.len() + 1,
        forall|k: u32|
            #[trigger] with_index(after, k) == if k == x.index {
                with_index(before, k).push(x)
            } else {
                with_index(before, k)
            },
    ensures
        stable_sort_of(after, s.push(x)),
{
    assert forall|k: u32| #[trigger] with_index(after, k) == with_index(s.push(x), k) by {
        s.lemma_filter_push(x, index_is(k));
    }
}

/// The tags a bar shows, in order: those in use (active or with clients)
/// that no pattern hides; while the minimum count asks for more, idle tags
/// that no pattern hides, smallest indices first; then placeholders on the
/// next indices that no pattern hides.
pub fn plan_tags(tags: Vec<MangoTag>, patterns: &[String], min_tag_count: u8) -> (plan: Vec<MangoTag>)
    ensures
        is_tag_plan(tags@, patterns@, min_tag_count, plan@),
{
    let ghost orig = tags@;
    let ghost used_pred = shown(patterns@);
    let ghost idle_pred = spare(patterns@);
    let ghost mut kept: Seq<MangoTag> = Seq::empty();
    let ghost mut idl: Seq<MangoTag> = Seq::empty();
    let mut rest = tags;
    let mut plan: Vec<MangoTag> = Vec::new();
    let mut idle: Vec<MangoTag> = Vec::new();
    let n = rest.len();
    let mut i: usize = 0;
    while i < n
        invariant
            n == orig.len(),
            i <= n,
            used_pred == shown(patterns@),
            idle_pred == spare(patterns@),
            rest@ == orig.skip(i as int),
            kept == orig.take(i as int).filter(used_pred),
            idl == orig.take(i as int).filter(idle_pred),
            stable_sort_of(plan@, kept),
            stable_sort_of(idle@, idl),
        decreases n - i,
    {
        let t = rest.remove(0);
        proof {
            assert(t == orig[i as int]);
            lemma_filter_step(orig, i as int, used_pred);
            lemma_filter_step(orig, i as int, idle_pred);
        }
        if !is_ignored(t.index, patterns) {
            if t.is_active || t.client_count > 0 {
                let ghost before = plan@;
                insert_sorted(&mut plan, t);
                proof {
                    lemma_sort_push(before, plan@, kept, t);
                    kept = kept.push(t);
                }
            } else {
                let ghost before = idle@;
                insert_sorted(&mut idle, t);
                proof {
                    lemma_sort_push(before, idle@, idl, t);
                    idl = idl.push(t);
                }
            }
        }
        i = i + 1;
        proof {
            assert(rest@ =~= orig.skip(i as int));
        }
    }
    proof {
        assert(orig.take(n as int) =~= orig);
    }
    let count = plan.len();
    let needed: usize = if (min_tag_count as usize) > count {
        min_tag_count as usize - count
    } else {
        0
    };
    let take: usize = if needed <= idle.len() {
        needed
    } else {
        idle.len()
    };
    let ghost sorted_idle = idle@;
    let mut j: usize = 0;
    proof {
        assert(kept + sorted_idle.take(0) =~= kept);
    }
    while j < take
        invariant
            take <= sorted_idle.len(),
            j <= take,
            idle@ == sorted_idle.skip(j as int),
            stable_sort_of(plan@, kept + sorted_idle.take(j as int)),
        decreases take - j,
    {
        let x = idle.remove(0);
        let ghost before = plan@;
        insert_sorted(&mut plan, x);
        proof {
            assert(x == sorted_idle[j as int]);
            lemma_sort_push(before, plan@, kept + sorted_idle.take(j as int), x);
            assert((kept + sorted_idle.take(j as int)).push(x) =~= kept + sorted_idle.take(j + 1));
        }
        j = j + 1;
        proof {
            assert(idle@ =~= sorted_idle.skip(j as int));
        }
    }
    let real_len = plan.len();
    let ghost firsts = plan@;
    let base: u32 = if real_len > 0 {
        plan[real_len - 1].index
    } else {
        0
    };
    proof {
        assert(firsts.take(real_len as int) =~= firsts);
        assert(stable_sort_of(sorted_idle, idl));
    }
    let wanted: usize = needed - take;
    if wanted > 0 && !hides_every_index(patterns) {
        let mut c: u64 = base as u64 + 1;
        let mut found: usize = 0;
        while found < wanted && c <= 4294967295u64
            invariant
                real_len == firsts.len(),
                sorted_by_index(firsts),
                base as int == if real_len > 0 {
                    firsts[real_len - 1].index as int
                } else {
                    0
                },
                plan@.take(real_len as int) == firsts,
                plan@.len() == real_len + found,
                found <= wanted,
                padding_last(plan@.skip(real_len as int), base as int) < c,
                c <= u32::MAX + 1,
                forall|x: int|
                    padding_last(plan@.skip(real_len as int), base as int) < x < c ==> #[trigger] hidden_index(
                        x,
                        patterns@,
                    ),
                forall|jj: int|
                    0 <= jj < found ==> #[trigger] next_unhidden(
                        plan@.skip(real_len as int),
                        base as int,
                        jj,
                        patterns@,
                    ),
                sorted_by_index(plan@),
            decreases u32::MAX + 1 - c,
        {
            let index = c as u32;
            if !is_ignored(index, patterns) {
                let ghost before = plan@;
                let ghost last = padding_last(before.skip(real_len as int), base as int);
                plan.push(
                    MangoTag {
                        index,
                        is_active: false,
                        is_urgent: false,
                        layout: String::new(),
                        client_count: 0,
                    },
                );
                found = found + 1;
                proof {
                    let ph0 = before.skip(real_len as int);
                    let ph = plan@.skip(real_len as int);
                    assert(ph =~= ph0.push(plan@[plan@.len() - 1]));
                    assert(plan@.take(real_len as int) =~= before.take(real_len as int));
                    assert(padding_prev(ph, base as int, found - 1) == last);
                    assert forall|jj: int| 0 <= jj < found implies #[trigger] next_unhidden(
                        ph,
                        base as int,
                        jj,
                        patterns@,
                    ) by {
                        if jj < found - 1 {
                            assert(ph[jj] == ph0[jj]);
                            assert(padding_prev(ph, base as int, jj) == padding_prev(ph0, base as int, jj));
                            assert(next_unhidden(ph0, base as int, jj, patterns@));
                        }
                    }
                    assert forall|a: int, b: int| 0 <= a < b < plan@.len() implies plan@[a].index
                        <= plan@[b].index by {
                        if b == plan@.len() - 1 {
                            if a < real_len {
                                assert(plan@[a] == firsts[a]);
                                if real_len > 0 {
                                    assert(firsts[a].index <= firsts[real_len - 1].index);
                                }
                            } else {
                                assert(plan@[a] == before[a]);
                                assert(ph0[a - real_len] == before[a]);
                                if a - real_len < ph0.len() - 1 {
                                    assert(before[a].index <= before[before.len() - 1].index);
                                }
                                assert(ph0.last() == before[before.len() - 1]);
                            }
                        } else {
                            assert(plan@[a] == before[a]);
                            assert(plan@[b] == before[b]);
                        }
                    }
                }
            }
            c = c + 1;
        }
        proof {
            let ph = plan@.skip(real_len as int);
            if found < wanted {
                assert forall|x: int|
                    padding_last(ph, base as int) < x <= u32::MAX implies #[trigger] hidden_index(x, patterns@) by {
                }
            }
        }
    } else {
        proof {
            assert(plan@.skip(real_len as int) =~= Seq::<MangoTag>::empty());
        }
    }
    proof {
        let kept_spec = kept_tags(orig, patterns@);
        assert(kept == kept_spec);
        assert(idl == spare_tags(orig, patterns@));
        assert(take == min_count(padding_count(kept.len(), min_tag_count), idl.len()));
        assert(plan@.take(real_len as int) =~= firsts);
        assert(stable_sort_of(sorted_idle, idl) && stable_sort_of(
            plan@.take(real_len as int),
            kept + sorted_idle.take(take as int),
        ));
        assert(plan_layout(orig, patterns@, min_tag_count, plan@));
        lemma_plan_shows_tags(orig, patterns@, min_tag_count, plan@);
    }
    plan
}

/// The index of the last button, 0 for none.
pub open spec fn last_index(plan: Seq<MangoTag>) -> int {
    if plan.len() > 0 {
        plan.last().index as int
    } else {
        0
    }
}

/// What a bar shows of its monitor's tags: in order of index; every tag in
/// use (active or with clients) that no pattern hides; no button whose index
/// a pattern hides; besides reported tags, only empty placeholders, and
/// those only when the minimum count asks for more; and at least the
/// minimum count of buttons, unless every index above the last one is
/// hidden.
pub proof fn lemma_plan_shows_tags(
    tags: Seq<MangoTag>,
    patterns: Seq<String>,
    min_tag_count: u8,
    plan: Seq<MangoTag>,
)
    requires
        plan_layout(tags, patterns, min_tag_count, plan),
    ensures
        sorted_by_index(plan),
        forall|t: MangoTag|
            tags.contains(t) && in_use(t) && !spec_is_ignored(t.index, patterns)
                ==> #[trigger] plan.contains(t),
        forall|i: int| 0 <= i < plan.len() ==> !spec_is_ignored(#[trigger] plan[i].index, patterns),
        forall|i: int|
            0 <= i < plan.len() ==> {
                ||| tags.contains(#[trigger] plan[i])
                ||| is_placeholder(plan[i], plan[i].index as int) && min_tag_count > 0
            },
        plan.len() < min_tag_count ==> forall|x: int|
            last_index(plan) < x <= u32::MAX ==> #[trigger] hidden_index(x, patterns),
{
    let kept = kept_tags(tags, patterns);
    let idle = spare_tags(tags, patterns);
    let needed = padding_count(kept.len(), min_tag_count);
    let k = min_count(needed, idle.len());
    let real_len = kept.len() + k;
    let sorted_idle = choose|sorted_idle: Seq<MangoTag>|
        #[trigger] stable_sort_of(sorted_idle, idle) && stable_sort_of(
            plan.take(real_len as int),
            kept + sorted_idle.take(k as int),
        );
    let firsts = plan.take(real_len as int);
    let chosen = kept + sorted_idle.take(k as int);
    let ph = plan.skip(real_len as int);
    let base = if real_len > 0 {
        plan[real_len - 1].index as int
    } else {
        0
    };
    let used_pred = shown(patterns);
    let idle_pred = spare(patterns);
    // Every button of the first part is a tag in use or an idle tag, neither hidden.
    assert forall|i: int| 0 <= i < real_len implies tags.contains(#[trigger] plan[i])
        && !spec_is_ignored(plan[i].index, patterns) by {
        let x = plan[i];
        assert(firsts[i] == x);
        firsts.lemma_filter_contains(index_is(x.index), i);
        assert(with_index(firsts, x.index) == with_index(chosen, x.index));
        chosen.lemma_filter_contains_rev(index_is(x.index), x);
        let a = choose|a: int| 0 <= a < chosen.len() && chosen[a] == x;
        if a < kept.len() {
            assert(kept[a] == x);
            tags.lemma_filter_pred(used_pred, a);
            tags.lemma_filter_contains_rev(used_pred, x);
        } else {
            let b = a - kept.len();
            assert(sorted_idle.take(k as int)[b] == x);
            assert(sorted_idle[b] == x);
            sorted_idle.lemma_filter_contains(index_is(x.index), b);
            assert(with_index(sorted_idle, x.index) == with_index(idle, x.index));
            idle.lemma_filter_contains_rev(index_is(x.index), x);
            let c = choose|c: int| 0 <= c < idle.len() && idle[c] == x;
            tags.lemma_filter_pred(idle_pred, c);
            tags.lemma_filter_contains_rev(idle_pred, x);
        }
    }
    assert forall|i: int| 0 <= i < plan.len() implies !spec_is_ignored(#[trigger] plan[i].index, patterns) by {
        if i >= real_len {
            assert(ph[i - real_len] == plan[i]);
            assert(next_unhidden(ph, base, i - real_len, patterns));
        }
    }
    assert forall|i: int| 0 <= i < plan.len() implies {
        ||| tags.contains(#[trigger] plan[i])
        ||| is_placeholder(plan[i], plan[i].index as int) && min_tag_count > 0
    } by {
        if i >= real_len {
            assert(ph[i - real_len] == plan[i]);
            assert(next_unhidden(ph, base, i - real_len, patterns));
        }
    }
    assert forall|t: MangoTag|
        tags.contains(t) && in_use(t) && !spec_is_ignored(t.index, patterns) implies #[trigger] plan.contains(t) by {
        let j = choose|j: int| 0 <= j < tags.len() && tags[j] == t;
        tags.lemma_filter_contains(used_pred, j);
        let a = choose|a: int| 0 <= a < kept.len() && kept[a] == t;
        assert(chosen[a] == t);
        chosen.lemma_filter_contains(index_is(t.index), a);
        assert(with_index(firsts, t.index) == with_index(chosen, t.index));
        firsts.lemma_filter_contains_rev(index_is(t.index), t);
        let b = choose|b: int| 0 <= b < firsts.len() && firsts[b] == t;
        assert(plan[b] == t);
    }
    if plan.len() < min_tag_count {
        assert(ph.len() < needed - k);
        if ph.len() > 0 {
            assert(ph.last() == plan.last());
        } else {
            assert(plan.len() == real_len);
            if real_len > 0 {
                assert(plan.last() == plan[real_len - 1]);
            }
        }
    }
}

/// `init` describes the button of `tag`, its icon taken from the tag's
/// override.
pub open spec fn describes(
    init: MangoTagButtonInit,
    tag: MangoTag,
    map: Map<u32, TagStyle>,
    is_vertical: bool,
    display_mode: DisplayMode,
    active_indicator: ActiveIndicator,
) -> bool {
    &&& init.index == tag.index
    &&& opt_text(init.label) == Some(decimal(tag.index as nat))
    &&& opt_text(init.icon) == if map.contains_key(tag.index) {
        opt_text(map[tag.index].icon)
    } else {
        None
    }
    &&& init.is_active == tag.is_active
    &&& init.is_urgent == tag.is_urgent
    &&& init.has_clients == (tag.client_count > 0)
    &&& init.is_vertical == is_vertical
    &&& init.display_mode == display_mode
    &&& init.active_indicator == active_indicator
}

/// The description of the button of one tag.
pub fn button_init(
    tag: &MangoTag,
    tag_map: &TagMap,
    is_vertical: bool,
    display_mode: DisplayMode,
    active_indicator: ActiveIndicator,
) -> (init: MangoTagButtonInit)
    ensures
        describes(init, *tag, tag_map@, is_vertical, display_mode, active_indicator),
        init.has_clients <==> tag.client_count >= 1,
{
    let icon = match tag_map.get(tag.index) {
        Some(style) => clone_opt_string(&style.icon),
        None => None,
    };
    MangoTagButtonInit {
        index: tag.index,
        label: Some(u32_text(tag.index)),
        icon,
        is_active: tag.is_active,
        is_urgent: tag.is_urgent,
        has_clients: tag.client_count > 0,
        is_vertical,
        display_mode,
        active_indicator,
    }
}

/// The button of a tag follows the tag: it has clients exactly when at least
/// one window is on the tag, it is active and urgent exactly when the tag is,
/// it carries the tag's index, and its label is that index in decimal. Its
/// classes then name the tag's state: `active` for the active tag, else
/// `occupied` when a window is on it, else `empty`.
pub proof fn lemma_button_follows_tag(
    init: MangoTagButtonInit,
    tag: MangoTag,
    map: Map<u32, TagStyle>,
    is_vertical: bool,
    display_mode: DisplayMode,
    active_indicator: ActiveIndicator,
)
    requires
        describes(init, tag, map, is_vertical, display_mode, active_indicator),
    ensures
        init.has_clients <==> tag.client_count >= 1,
        tag.client_count == 0 ==> !init.has_clients,
        init.is_active == tag.is_active,
        init.is_urgent == tag.is_urgent,
        init.index == tag.index,
        init.label is Some && init.label->0@ == decimal(tag.index as nat),
        tag.is_active ==> crate::button::spec_css_classes(init)[1] == "active"@,
        !tag.is_active && tag.client_count >= 1 ==> crate::button::spec_css_classes(init)[1]
            == "occupied"@,
        !tag.is_active && tag.client_count == 0 ==> crate::button::spec_css_classes(init)[1]
            == "empty"@,
{
    crate::button::lemma_css_classes_describe_tag(init);
}

/// The descriptions of the buttons of some tags, in their order.
pub fn button_inits(
    tags: &Vec<MangoTag>,
    tag_map: &TagMap,
    is_vertical: bool,
    display_mode: DisplayMode,
    active_indicator: ActiveIndicator,
) -> (inits: Vec<MangoTagButtonInit>)
    ensures
        inits@.len() == tags@.len(),
        forall|i: int|
            0 <= i < tags@.len() ==> describes(
                #[trigger] inits@[i],
                tags@[i],
                tag_map@,
                is_vertical,
                display_mode,
                active_indicator,
            ),
{
    let mut inits: Vec<MangoTagButtonInit> = Vec::new();
    let mut i: usize = 0;
    while i < tags.len()
        invariant
            i <= tags@.len(),
            inits@.len() == i,
            forall|j: int|
                0 <= j < i ==> describes(
                    #[trigger] inits@[j],
                    tags@[j],
                    tag_map@,
                    is_vertical,
                    display_mode,
                    active_indicator,
                ),
        decreases tags@.len() - i,
    {
        inits.push(button_init(&tags[i], tag_map, is_vertical, display_mode, active_indicator));
        i = i + 1;
    }
    inits
}

/// Whether the tags reported for a monitor are shown on a bar: always when
/// bars are not monitor-specific, else only those of the bar's own monitor.
pub open spec fn monitor_selected(monitor_specific: bool, bar_monitor: Seq<char>, monitor: Seq<char>) -> bool {
    !monitor_specific || monitor == bar_monitor
}

/// The tags a bar draws its buttons from, from the tags reported for each
/// monitor: the tags of the selected monitors, in the order reported.
pub open spec fn selected_tags(
    monitor_specific: bool,
    bar_monitor: Seq<char>,
    reports: Seq<MangoTagsResponse>,
) -> Seq<MangoTag>
    decreases reports.len(),
{
    if reports.len() == 0 {
        Seq::empty()
    } else {
        let r = reports.last();
        selected_tags(monitor_specific, bar_monitor, reports.drop_last()) + if monitor_selected(
            monitor_specific,
            bar_monitor,
            r.monitor@,
        ) {
            r.tags@
        } else {
            Seq::<MangoTag>::empty()
        }
    }
}

/// The tags a bar draws its buttons from: with `monitor_specific`, only the
/// tags reported for the bar's own monitor; without, the tags of every
/// monitor.
pub fn select_tags(monitor_specific: bool, bar_monitor: &String, reports: Vec<MangoTagsResponse>) -> (tags:
    Vec<MangoTag>)
    ensures
        tags@ == selected_tags(monitor_specific, bar_monitor@, reports@),
{
    let ghost all = reports@;
    let mut rest = reports;
    let mut tags: Vec<MangoTag> = Vec::new();
    let n = rest.len();
    let mut i: usize = 0;
    while i < n
        invariant
            n == all.len(),
            i <= n,
            rest@ == all.skip(i as int),
            tags@ == selected_tags(monitor_specific, bar_monitor@, all.take(i as int)),
        decreases n - i,
    {
        let r = rest.remove(0);
        proof {
            assert(r == all[i as int]);
            assert(all.take(i + 1).drop_last() =~= all.take(i as int));
            assert(all.take(i + 1).last() == r);
        }
        let selected = !monitor_specific || r.monitor == *bar_monitor;
        let ghost before = tags@;
        if selected {
            let mut more = r.tags;
            tags.append(&mut more);
        }
        proof {
            if !selected {
                assert(tags@ =~= before + Seq::<MangoTag>::empty());
            }
        }
        i = i + 1;
        proof {
            assert(rest@ =~= all.skip(i as int));
        }
    }
    proof {
        assert(all.take(n as int) =~= all);
    }
    tags
}

/// On a monitor-specific bar, every tag drawn from is one reported for the
/// bar's own monitor; on another bar, every tag reported for any monitor is
/// drawn from.
pub proof fn lemma_selected_monitors(
    monitor_specific: bool,
    bar_monitor: Seq<char>,
    reports: Seq<MangoTagsResponse>,
)
    ensures
        monitor_specific ==> forall|t: MangoTag|
            #[trigger] selected_tags(monitor_specific, bar_monitor, reports).contains(t) ==> exists|i: int|
                0 <= i < reports.len() && reports[i].monitor@ == bar_monitor && reports[i].tags@.contains(t),
        !monitor_specific ==> forall|i: int, t: MangoTag|
            0 <= i < reports.len() && #[trigger] reports[i].tags@.contains(t) ==> selected_tags(
                monitor_specific,
                bar_monitor,
                reports,
            ).contains(t),
    decreases reports.len(),
{
    if reports.len() > 0 {
        let init = reports.drop_last();
        let r = reports.last();
        lemma_selected_monitors(monitor_specific, bar_monitor, init);
        let a = selected_tags(monitor_specific, bar_monitor, init);
        let b = if monitor_selected(monitor_specific, bar_monitor, r.monitor@) {
            r.tags@
        } else {
            Seq::<MangoTag>::empty()
        };
        assert(selected_tags(monitor_specific, bar_monitor, reports) == a + b);
        if monitor_specific {
            assert forall|t: MangoTag| #[trigger] (a + b).contains(t) implies exists|i: int|
                0 <= i < reports.len() && reports[i].monitor@ == bar_monitor && reports[i].tags@.contains(t) by {
                let j = choose|j: int| 0 <= j < (a + b).len() && (a + b)[j] == t;
                if j < a.len() {
                    assert(a.contains(t));
                    let i = choose|i: int|
                        0 <= i < init.len() && init[i].monitor@ == bar_monitor && init[i].tags@.contains(t);
                    assert(reports[i] == init[i]);
                } else {
                    assert(b[j - a.len()] == t);
                    assert(reports[reports.len() - 1] == r);
                    assert(r.tags@.contains(t));
                }
            }
        } else {
            assert forall|i: int, t: MangoTag|
                0 <= i < reports.len() && #[trigger] reports[i].tags@.contains(t) implies (a + b).contains(t) by {
                if i < reports.len() - 1 {
                    assert(init[i] == reports[i]);
                    assert(a.contains(t));
                    let j = choose|j: int| 0 <= j < a.len() && a[j] == t;
                    assert((a + b)[j] == t);
                } else {
                    assert(reports[i] == r);
                    let j = choose|j: int| 0 <= j < b.len() && b[j] == t;
                    assert((a + b)[a.len() + j] == t);
                }
            }
        }
    }
}

/// The buttons a bar shows for the tags of its monitor under a configuration.
pub fn tag_buttons(tags: Vec<MangoTag>, config: &MangoWorkspacesConfig, is_vertical: bool) -> (inits:
    Vec<MangoTagButtonInit>)
    ensures
        exists|plan: Seq<MangoTag>|
            {
                &&& #[trigger] is_tag_plan(tags@, config.tag_ignore@, config.min_tag_count, plan)
                &&& inits@.len() == plan.len()
                &&& forall|i: int|
                    0 <= i < plan.len() ==> describes(
                        #[trigger] inits@[i],
                        plan[i],
                        config.tag_map@,
                        is_vertical,
                        config.display_mode,
                        config.active_indicator,
                    )
            },
{
    let plan = plan_tags(tags, config.tag_ignore.as_slice(), config.min_tag_count);
    let inits = button_inits(
        &plan,
        &config.tag_map,
        is_vertical,
        config.display_mode,
        config.active_indicator,
    );
    assert(is_tag_plan(tags@, config.tag_ignore@, config.min_tag_count, plan@));
    inits
}

/// The index of the first active tag, in order.
pub open spec fn first_active(tags: Seq<MangoTag>) -> Option<u32>
    decreases tags.len(),
{
    if tags.len() == 0 {
        None
    } else if tags[0].is_active {
        Some(tags[0].index)
    } else {
        first_active(tags.drop_first())
    }
}

/// The index of the first tag, in order, with a larger index than `current`.
pub open spec fn first_after(tags: Seq<MangoTag>, current: u32) -> Option<u32>
    decreases tags.len(),
{
    if tags.len() == 0 {
        None
    } else if tags[0].index > current {
        Some(tags[0].index)
    } else {
        first_after(tags.drop_first(), current)
    }
}

/// The index of the last tag, in order, with a smaller index than `current`.
pub open spec fn last_before(tags: Seq<MangoTag>, current: u32) -> Option<u32>
    decreases tags.len(),
{
    if tags.len() == 0 {
        None
    } else if tags.last().index < current {
        Some(tags.last().index)
    } else {
        last_before(tags.drop_last(), current)
    }
}

/// The tag that scrolling moves to from the first active one (tag 1 when
/// none is active): forward, the next tag in order with a larger index, else
/// the first tag; backward, the last tag in order with a smaller index, else
/// the last tag. `None` when there are no tags.
pub open spec fn spec_next_tag(tags: Seq<MangoTag>, direction: i32) -> Option<u32> {
    let current = match first_active(tags) {
        Some(i) => i,
        None => 1,
    };
    if direction > 0 {
        match first_after(tags, current) {
            Some(i) => Some(i),
            None => if tags.len() > 0 {
                Some(tags[0].index)
            } else {
                None
            },
        }
    } else {
        match last_before(tags, current) {
            Some(i) => Some(i),
            None => if tags.len() > 0 {
                Some(tags.last().index)
            } else {
                None
            },
        }
    }
}

proof fn lemma_first_active_step(tags: Seq<MangoTag>, i: int)
    requires
        0 <= i < tags.len(),
    ensures
        first_active(tags.skip(i)) == if tags[i].is_active {
            Some(tags[i].index)
        } else {
            first_active(tags.skip(i + 1))
        },
{
    assert(tags.skip(i).drop_first() =~= tags.skip(i + 1));
}

proof fn lemma_first_after_step(tags: Seq<MangoTag>, i: int, current: u32)
    requires
        0 <= i < tags.len(),
    ensures
        first_after(tags.skip(i), current) == if tags[i].index > current {
            Some(tags[i].index)
        } else {
            first_after(tags.skip(i + 1), current)
        },
{
    assert(tags.skip(i).drop_first() =~= tags.skip(i + 1));
}

proof fn lemma_last_before_step(tags: Seq<MangoTag>, i: int, current: u32)
    requires
        0 < i <= tags.len(),
    ensures
        last_before(tags.take(i), current) == if tags[i - 1].index < current {
            Some(tags[i - 1].index)
        } else {
            last_before(tags.take(i - 1), current)
        },
{
    assert(tags.take(i).drop_last() =~= tags.take(i - 1));
}

/// The tag that scrolling in `direction` moves to.
pub fn next_tag_index(tags: &[MangoTag], direction: i32) -> (next: Option<u32>)
    ensures
        next == spec_next_tag(tags@, direction),
{
    let n = tags.len();
    let mut i: usize = 0;
    proof {
        assert(tags@.skip(0) =~= tags@);
    }
    while i < n && !tags[i].is_active
        invariant
            n == tags@.len(),
            i <= n,
            first_active(tags@.skip(i as int)) == first_active(tags@),
        decreases n - i,
    {
        proof {
            lemma_first_active_step(tags@, i as int);
        }
        i = i + 1;
    }
    proof {
        if i == n {
            assert(tags@.skip(n as int).len() == 0);
        } else {
            lemma_first_active_step(tags@, i as int);
        }
    }
    let current: u32 = if i < n {
        tags[i].index
    } else {
        1
    };
    assert(current == match first_active(tags@) {
        Some(x) => x,
        None => 1u32,
    });
    if direction > 0 {
        let mut k: usize = 0;
        proof {
            assert(tags@.skip(0) =~= tags@);
        }
        while k < n
            invariant
                n == tags@.len(),
                k <= n,
                first_after(tags@.skip(k as int), current) == first_after(tags@, current),
                direction > 0,
                current == match first_active(tags@) {
                    Some(x) => x,
                    None => 1u32,
                },
            decreases n - k,
        {
            proof {
                lemma_first_after_step(tags@, k as int, current);
            }
            if tags[k].index > current {
                return Some(tags[k].index);
            }
            k = k + 1;
        }
        proof {
            assert(tags@.skip(n as int).len() == 0);
        }
        if n > 0 {
            Some(tags[0].index)
        } else {
            None
        }
    } else {
        let mut k: usize = n;
        proof {
            assert(tags@.take(n as int) =~= tags@);
        }
        while k > 0
            invariant
                n == tags@.len(),
                k <= n,
                last_before(tags@.take(k as int), current) == last_before(tags@, current),
                direction <= 0,
                current == match first_active(tags@) {
                    Some(x) => x,
                    None => 1u32,
                },
            decreases k,
        {
            proof {
                lemma_last_before_step(tags@, k as int, current);
            }
            if tags[k - 1].index < current {
                return Some(tags[k - 1].index);
            }
            k = k - 1;
        }
        proof {
            assert(tags@.take(0).len() == 0);
        }
        if n > 0 {
            Some(tags[n - 1].index)
        } else {
            None
        }
    }
}

/// Scrolling moves to one of the tags, and only when there is one.
pub proof fn lemma_next_tag_is_a_tag(tags: Seq<MangoTag>, direction: i32)
    ensures
        spec_next_tag(tags, direction) is Some <==> tags.len() > 0,
        spec_next_tag(tags, direction) matches Some(i) ==> exists|j: int|
            0 <= j < tags.len() && (#[trigger] tags[j]).index == i,
{
    let current = match first_active(tags) {
        Some(i) => i,
        None => 1u32,
    };
    lemma_first_after_member(tags, current);
    lemma_last_before_member(tags, current);
    if tags.len() > 0 {
        assert(tags[tags.len() - 1] == tags.last());
    }
}

proof fn lemma_first_after_member(tags: Seq<MangoTag>, current: u32)
    ensures
        first_after(tags, current) matches Some(i) ==> exists|j: int|
            0 <= j < tags.len() && (#[trigger] tags[j]).index == i,
    decreases tags.len(),
{
    if tags.len() > 0 && tags[0].index <= current {
        lemma_first_after_member(tags.drop_first(), current);
        if let Some(i) = first_after(tags.drop_first(), current) {
            let j = choose|j: int| 0 <= j < tags.drop_first().len() && (#[trigger] tags.drop_first()[j]).index == i;
            assert(tags[j + 1] == tags.drop_first()[j]);
        }
    }
}

proof fn lemma_last_before_member(tags: Seq<MangoTag>, current: u32)
    ensures
        last_before(tags, current) matches Some(i) ==> exists|j: int|
            0 <= j < tags.len() && (#[trigger] tags[j]).index == i,
    decreases tags.len(),
{
    if tags.len() > 0 {
        if tags.last().index < current {
            assert(tags[tags.len() - 1] == tags.last());
        } else {
            lemma_last_before_member(tags.drop_last(), current);
            if let Some(i) = last_before(tags.drop_last(), current) {
                let j = choose|j: int| 0 <= j < tags.drop_last().len() && (#[trigger] tags.drop_last()[j]).index == i;
                assert(tags[j] == tags.drop_last()[j]);
            }
        }
    }
}

/// `cur` is the tag that scrolling starts from: the index of the first
/// active tag, in the reported order, or 1 when no tag is active.
pub open spec fn is_current_tag(tags: Seq<MangoTag>, cur: u32) -> bool {
    ||| exists|a: int|
        0 <= a < tags.len() && (#[trigger] tags[a]).is_active && tags[a].index == cur && forall|k: int|
            0 <= k < a ==> !tags[k].is_active
    ||| (forall|k: int| 0 <= k < tags.len() ==> !(#[trigger] tags[k]).is_active) && cur == 1
}

proof fn lemma_first_active_at(tags: Seq<MangoTag>, a: int)
    requires
        0 <= a < tags.len(),
        tags[a].is_active,
        forall|k: int| 0 <= k < a ==> !tags[k].is_active,
    ensures
        first_active(tags) == Some(tags[a].index),
    decreases a,
{
    if a > 0 {
        let rest = tags.drop_first();
        assert forall|k: int| 0 <= k < a - 1 implies !rest[k].is_active by {
            assert(rest[k] == tags[k + 1]);
        }
        lemma_first_active_at(rest, a - 1);
    }
}

proof fn lemma_first_active_none(tags: Seq<MangoTag>)
    requires
        forall|k: int| 0 <= k < tags.len() ==> !(#[trigger] tags[k]).is_active,
    ensures
        first_active(tags) is None,
    decreases tags.len(),
{
    if tags.len() > 0 {
        let rest = tags.drop_first();
        assert forall|k: int| 0 <= k < rest.len() implies !(#[trigger] rest[k]).is_active by {
            assert(rest[k] == tags[k + 1]);
        }
        assert(!tags[0].is_active);
        lemma_first_active_none(rest);
    }
}

proof fn lemma_current_tag(tags: Seq<MangoTag>, cur: u32)
    requires
        is_current_tag(tags, cur),
    ensures
        match first_active(tags) {
            Some(x) => x,
            None => 1u32,
        } == cur,
{
    if exists|a: int|
        0 <= a < tags.len() && (#[trigger] tags[a]).is_active && tags[a].index == cur && forall|k: int|
            0 <= k < a ==> !tags[k].is_active {
        let a = choose|a: int|
            0 <= a < tags.len() && (#[trigger] tags[a]).is_active && tags[a].index == cur && forall|k: int|
                0 <= k < a ==> !tags[k].is_active;
        lemma_first_active_at(tags, a);
    } else {
        lemma_first_active_none(tags);
    }
}

/// The position of the first tag with an index above `cur`.
proof fn first_larger(tags: Seq<MangoTag>, cur: u32) -> (j: int)
    requires
        exists|i: int| 0 <= i < tags.len() && (#[trigger] tags[i]).index > cur,
    ensures
        0 <= j < tags.len(),
        tags[j].index > cur,
        forall|k: int| 0 <= k < j ==> tags[k].index <= cur,
        first_after(tags, cur) == Some(tags[j].index),
    decreases tags.len(),
{
    if tags[0].index > cur {
        0
    } else {
        let rest = tags.drop_first();
        let i = choose|i: int| 0 <= i < tags.len() && (#[trigger] tags[i]).index > cur;
        assert(rest[i - 1] == tags[i]);
        let j = first_larger(rest, cur);
        assert forall|k: int| 0 <= k < j + 1 implies tags[k].index <= cur by {
            if k > 0 {
                assert(rest[k - 1] == tags[k]);
            }
        }
        assert(rest[j] == tags[j + 1]);
        j + 1
    }
}

proof fn lemma_first_after_none(tags: Seq<MangoTag>, cur: u32)
    requires
        forall|i: int| 0 <= i < tags.len() ==> (#[trigger] tags[i]).index <= cur,
    ensures
        first_after(tags, cur) is None,
    decreases tags.len(),
{
    if tags.len() > 0 {
        let rest = tags.drop_first();
        assert forall|i: int| 0 <= i < rest.len() implies (#[trigger] rest[i]).index <= cur by {
            assert(rest[i] == tags[i + 1]);
        }
        assert(tags[0].index <= cur);
        lemma_first_after_none(rest, cur);
    }
}

/// The position of the last tag with an index below `cur`.
proof fn last_smaller(tags: Seq<MangoTag>, cur: u32) -> (j: int)
    requires
        exists|i: int| 0 <= i < tags.len() && (#[trigger] tags[i]).index < cur,
    ensures
        0 <= j < tags.len(),
        tags[j].index < cur,
        forall|k: int| j < k < tags.len() ==> tags[k].index >= cur,
        last_before(tags, cur) == Some(tags[j].index),
    decreases tags.len(),
{
    let n = tags.len();
    if tags[n - 1].index < cur {
        assert(tags.last() == tags[n - 1]);
        n - 1
    } else {
        let init = tags.drop_last();
        let i = choose|i: int| 0 <= i < tags.len() && (#[trigger] tags[i]).index < cur;
        assert(i < n - 1);
        assert(init[i] == tags[i]);
        let j = last_smaller(init, cur);
        assert forall|k: int| j < k < n implies tags[k].index >= cur by {
            if k < n - 1 {
                assert(init[k] == tags[k]);
            }
        }
        assert(init[j] == tags[j]);
        assert(tags.last() == tags[n - 1]);
        j
    }
}

proof fn lemma_last_before_none(tags: Seq<MangoTag>, cur: u32)
    requires
        forall|i: int| 0 <= i < tags.len() ==> (#[trigger] tags[i]).index >= cur,
    ensures
        last_before(tags, cur) is None,
    decreases tags.len(),
{
    if tags.len() > 0 {
        let init = tags.drop_last();
        assert forall|i: int| 0 <= i < init.len() implies (#[trigger] init[i]).index >= cur by {
            assert(init[i] == tags[i]);
        }
        assert(tags.last() == tags[tags.len() - 1]);
        lemma_last_before_none(init, cur);
    }
}

/// Scrolling forward from the current tag goes to the first tag, in the
/// reported order, whose index is larger than the current one; when there is
/// none it wraps around to the first tag; with no tags it goes nowhere.
pub proof fn lemma_scroll_forward(tags: Seq<MangoTag>, direction: i32, cur: u32)
    requires
        direction > 0,
        is_current_tag(tags, cur),
    ensures
        (exists|i: int| 0 <= i < tags.len() && (#[trigger] tags[i]).index > cur) ==> exists|j: int|
            0 <= j < tags.len() && spec_next_tag(tags, direction) == Some((#[trigger] tags[j]).index)
                && tags[j].index > cur && forall|k: int| 0 <= k < j ==> tags[k].index <= cur,
        (forall|i: int| 0 <= i < tags.len() ==> (#[trigger] tags[i]).index <= cur) && tags.len() > 0
            ==> spec_next_tag(tags, direction) == Some(tags[0].index),
        tags.len() == 0 ==> spec_next_tag(tags, direction) is None,
{
    lemma_current_tag(tags, cur);
    if exists|i: int| 0 <= i < tags.len() && (#[trigger] tags[i]).index > cur {
        let j = first_larger(tags, cur);
        assert(spec_next_tag(tags, direction) == Some(tags[j].index));
    } else {
        lemma_first_after_none(tags, cur);
    }
}

/// Scrolling backward from the current tag goes to the last tag, in the
/// reported order, whose index is smaller than the current one; when there
/// is none it wraps around to the last tag; with no tags it goes nowhere.
pub proof fn lemma_scroll_backward(tags: Seq<MangoTag>, direction: i32, cur: u32)
    requires
        direction <= 0,
        is_current_tag(tags, cur),
    ensures
        (exists|i: int| 0 <= i < tags.len() && (#[trigger] tags[i]).index < cur) ==> exists|j: int|
            0 <= j < tags.len() && spec_next_tag(tags, direction) == Some((#[trigger] tags[j]).index)
                && tags[j].index < cur && forall|k: int| j < k < tags.len() ==> tags[k].index >= cur,
        (forall|i: int| 0 <= i < tags.len() ==> (#[trigger] tags[i]).index >= cur) && tags.len() > 0
            ==> spec_next_tag(tags, direction) == Some(tags[tags.len() - 1].index),
        tags.len() == 0 ==> spec_next_tag(tags, direction) is None,
{
    lemma_current_tag(tags, cur);
    if exists|i: int| 0 <= i < tags.len() && (#[trigger] tags[i]).index < cur {
        let j = last_smaller(tags, cur);
        assert(spec_next_tag(tags, direction) == Some(tags[j].index));
    } else {
        lemma_last_before_none(tags, cur);
        if tags.len() > 0 {
            assert(tags.last() == tags[tags.len() - 1]);
        }
    }
}

} // verus!
