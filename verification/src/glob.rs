//! Glob patterns: `*` matches any run of characters (the empty one too), `?`
//! matches exactly one character, and every other character matches itself.

use vstd::prelude::*;

use crate::text::chars_of;

verus! {

/// Whether the whole of `text` matches the whole of `pattern`.
pub open spec fn glob_matches(pattern: Seq<char>, text: Seq<char>) -> bool
    decreases pattern.len(), text.len(),
{
    if pattern.len() == 0 {
        text.len() == 0
    } else if pattern[0] == '*' {
        glob_matches(pattern.drop_first(), text) || (text.len() > 0 && glob_matches(
            pattern,
            text.drop_first(),
        ))
    } else if text.len() == 0 {
        false
    } else if pattern[0] == '?' || pattern[0] == text[0] {
        glob_matches(pattern.drop_first(), text.drop_first())
    } else {
        false
    }
}

/// One step of the match, on suffixes of the pattern and of the text.
proof fn lemma_glob_step(p: Seq<char>, s: Seq<char>, i: int, j: int)
    requires
        0 <= i < p.len(),
        0 <= j <= s.len(),
    ensures
        glob_matches(p.skip(i), s.skip(j)) == if p[i] == '*' {
            glob_matches(p.skip(i + 1), s.skip(j)) || (j < s.len() && glob_matches(
                p.skip(i),
                s.skip(j + 1),
            ))
        } else if j == s.len() {
            false
        } else if p[i] == '?' || p[i] == s[j] {
            glob_matches(p.skip(i + 1), s.skip(j + 1))
        } else {
            false
        },
{
    assert(p.skip(i).drop_first() =~= p.skip(i + 1));
    assert(p.skip(i)[0] == p[i]);
    if j < s.len() {
        assert(s.skip(j).drop_first() =~= s.skip(j + 1));
        assert(s.skip(j)[0] == s[j]);
    }
}

/// Whether `text` matches `pattern` as a whole.
pub fn glob_match(pattern: &str, text: &str) -> (res: bool)
    requires
        text@.len() < usize::MAX,
    ensures
        res == glob_matches(pattern@, text@),
{
    let p = chars_of(pattern);
    let s = chars_of(text);
    let n = p.len();
    let m = s.len();
    let ghost ps = p@;
    let ghost ss = s@;
    // `next[j]` tells whether the pattern from position `i` on matches the
    // text from position `j` on; it starts with the empty pattern.
    let mut next: Vec<bool> = Vec::new();
    let mut j: usize = 0;
    while j <= m
        invariant
            m == ss.len(),
            m < usize::MAX,
            j <= m + 1,
            next@.len() == j,
            forall|k: int| 0 <= k < j ==> next@[k] == (k == m),
        decreases m + 1 - j,
    {
        next.push(j == m);
        j = j + 1;
    }
    proof {
        assert forall|k: int| 0 <= k <= m implies next@[k] == glob_matches(
            ps.skip(n as int),
            ss.skip(k),
        ) by {
            assert(ps.skip(n as int).len() == 0);
        }
    }
    let mut i: usize = n;
    while i > 0
        invariant
            p@ == ps,
            s@ == ss,
            n == ps.len(),
            m == ss.len(),
            m < usize::MAX,
            i <= n,
            next@.len() == m + 1,
            forall|k: int| 0 <= k <= m ==> next@[k] == glob_matches(ps.skip(i as int), ss.skip(k)),
        decreases i,
    {
        i = i - 1;
        let mut cur: Vec<bool> = Vec::new();
        let mut k: usize = 0;
        while k <= m
            invariant
                m < usize::MAX,
                k <= m + 1,
                cur@.len() == k,
            decreases m + 1 - k,
        {
            cur.push(false);
            k = k + 1;
        }
        let c = p[i];
        let mut jj: usize = m + 1;
        while jj > 0
            invariant
                p@ == ps,
                s@ == ss,
                n == ps.len(),
                m == ss.len(),
                m < usize::MAX,
                i < n,
                c == ps[i as int],
                jj <= m + 1,
                next@.len() == m + 1,
                cur@.len() == m + 1,
                forall|k: int|
                    0 <= k <= m ==> next@[k] == glob_matches(ps.skip(i + 1), ss.skip(k)),
                forall|k: int|
                    jj <= k <= m ==> cur@[k] == glob_matches(ps.skip(i as int), ss.skip(k)),
            decreases jj,
        {
            jj = jj - 1;
            let v = if c == '*' {
                next[jj] || (jj < m && cur[jj + 1])
            } else if jj == m {
                false
            } else if c == '?' || c == s[jj] {
                next[jj + 1]
            } else {
                false
            };
            proof {
                lemma_glob_step(ps, ss, i as int, jj as int);
            }
            cur.set(jj, v);
        }
        next = cur;
    }
    assert(ps.skip(0) =~= ps);
    assert(ss.skip(0) =~= ss);
    next[0]
}

/// Whether a pattern holds no wildcard.
pub open spec fn is_literal(p: Seq<char>) -> bool {
    forall|i: int| 0 <= i < p.len() ==> #[trigger] p[i] != '*' && p[i] != '?'
}

/// A pattern without wildcards matches exactly the text it spells.
pub proof fn lemma_literal_matches_itself(p: Seq<char>, s: Seq<char>)
    requires
        is_literal(p),
    ensures
        glob_matches(p, s) <==> s == p,
    decreases p.len(),
{
    if p.len() > 0 {
        let rest = p.drop_first();
        assert(is_literal(rest)) by {
            assert forall|i: int| 0 <= i < rest.len() implies #[trigger] rest[i] != '*' && rest[i] != '?' by {
                assert(rest[i] == p[i + 1]);
            }
        }
        assert(p[0] != '*' && p[0] != '?');
        if s.len() > 0 {
            lemma_literal_matches_itself(rest, s.drop_first());
            if s == p {
                assert(s.drop_first() == rest);
            }
            if s.drop_first() == rest && p[0] == s[0] {
                assert(s =~= p) by {
                    assert forall|i: int| 0 <= i < s.len() implies s[i] == p[i] by {
                        if i > 0 {
                            assert(s[i] == s.drop_first()[i - 1]);
                            assert(p[i] == rest[i - 1]);
                        }
                    }
                }
            }
        }
    } else {
        if s.len() == 0 {
            assert(s =~= p);
        }
    }
}

/// `?` matches exactly the texts of one character, and `*` matches every
/// text, the empty one too.
pub proof fn lemma_single_wildcards(s: Seq<char>)
    ensures
        glob_matches(seq!['?'], s) <==> s.len() == 1,
        glob_matches(seq!['*'], s),
    decreases s.len(),
{
    let q = seq!['?'];
    let st = seq!['*'];
    assert(q.drop_first() =~= Seq::<char>::empty());
    assert(st.drop_first() =~= Seq::<char>::empty());
    assert(q[0] == '?' && q.len() == 1);
    assert(st[0] == '*' && st.len() == 1);
    if s.len() > 0 {
        lemma_single_wildcards(s.drop_first());
        assert(glob_matches(q, s) == glob_matches(Seq::<char>::empty(), s.drop_first()));
        assert(glob_matches(st, s.drop_first()));
        assert(glob_matches(st, s));
    } else {
        assert(glob_matches(Seq::<char>::empty(), s));
    }
}

/// Patterns match piecewise: where one pattern matches one text and another
/// pattern matches another text, the first pattern followed by the second
/// matches the first text followed by the second.
pub proof fn lemma_matches_joined(p1: Seq<char>, s1: Seq<char>, p2: Seq<char>, s2: Seq<char>)
    requires
        glob_matches(p1, s1),
        glob_matches(p2, s2),
    ensures
        glob_matches(p1 + p2, s1 + s2),
    decreases p1.len(), s1.len(),
{
    if p1.len() == 0 {
        assert(p1 + p2 =~= p2);
        assert(s1 + s2 =~= s2);
    } else {
        let p = p1 + p2;
        let s = s1 + s2;
        assert(p[0] == p1[0]);
        assert(p.drop_first() =~= p1.drop_first() + p2);
        if s1.len() > 0 {
            assert(s[0] == s1[0]);
            assert(s.drop_first() =~= s1.drop_first() + s2);
        }
        if p1[0] == '*' {
            if glob_matches(p1.drop_first(), s1) {
                lemma_matches_joined(p1.drop_first(), s1, p2, s2);
            } else {
                lemma_matches_joined(p1, s1.drop_first(), p2, s2);
            }
        } else {
            lemma_matches_joined(p1.drop_first(), s1.drop_first(), p2, s2);
        }
    }
}

/// Whether a pattern is made of `*` and `?` only.
pub open spec fn only_wildcards(p: Seq<char>) -> bool {
    forall|i: int| 0 <= i < p.len() ==> (#[trigger] p[i] == '*' || p[i] == '?')
}

/// How many `?` a pattern holds.
pub open spec fn count_single(p: Seq<char>) -> nat
    decreases p.len(),
{
    if p.len() == 0 {
        0
    } else {
        (if p[0] == '?' {
            1nat
        } else {
            0nat
        }) + count_single(p.drop_first())
    }
}

/// Whether a pattern holds a `*`.
pub open spec fn has_star(p: Seq<char>) -> bool {
    exists|i: int| 0 <= i < p.len() && p[i] == '*'
}

/// A pattern of wildcards only matches every text at least as long as its
/// `?`s, and, without a `*`, exactly as long.
proof fn lemma_wildcards_match(p: Seq<char>, s: Seq<char>)
    requires
        only_wildcards(p),
        s.len() >= count_single(p),
        has_star(p) || s.len() == count_single(p),
    ensures
        glob_matches(p, s),
    decreases p.len() + s.len(),
{
    if p.len() == 0 {
    } else {
        let rest = p.drop_first();
        assert(only_wildcards(rest)) by {
            assert forall|i: int| 0 <= i < rest.len() implies (#[trigger] rest[i] == '*' || rest[i] == '?') by {
                assert(rest[i] == p[i + 1]);
            }
        }
        assert(p[0] == '*' || p[0] == '?');
        if p[0] == '*' {
            if s.len() > count_single(p) {
                lemma_wildcards_match(p, s.drop_first());
            } else {
                if !has_star(rest) {
                    assert(s.len() == count_single(rest));
                } else {
                }
                lemma_wildcards_match(rest, s);
            }
        } else {
            if has_star(p) {
                let i = choose|i: int| 0 <= i < p.len() && p[i] == '*';
                assert(rest[i - 1] == '*');
            }
            lemma_wildcards_match(rest, s.drop_first());
        }
    }
}

/// Whether a pattern matches every non-empty text: it is made of wildcards,
/// with a `*` and at most one `?`.
pub open spec fn matches_every_text(p: Seq<char>) -> bool {
    only_wildcards(p) && has_star(p) && count_single(p) <= 1
}

/// A pattern that matches every non-empty text matches each of them.
pub proof fn lemma_matches_every_text(p: Seq<char>, s: Seq<char>)
    requires
        matches_every_text(p),
        s.len() > 0,
    ensures
        glob_matches(p, s),
{
    lemma_wildcards_match(p, s);
}

/// Whether a pattern matches every non-empty text.
pub fn is_catch_all(pattern: &str) -> (res: bool)
    ensures
        res == matches_every_text(pattern@),
{
    let p = chars_of(pattern);
    let n = p.len();
    let mut stars: usize = 0;
    let mut singles: usize = 0;
    let mut i: usize = n;
    proof {
        assert(p@.skip(n as int).len() == 0);
    }
    while i > 0
        invariant
            p@ == pattern@,
            n == p@.len(),
            i <= n,
            singles == count_single(p@.skip(i as int)),
            singles <= n - i,
            stars <= n - i,
            (stars > 0) == has_star(p@.skip(i as int)),
            only_wildcards(p@.skip(i as int)),
        decreases i,
    {
        i = i - 1;
        let c = p[i];
        let ghost t = p@.skip(i as int);
        proof {
            assert(t.drop_first() =~= p@.skip(i + 1));
            assert(t[0] == c);
        }
        if c == '*' {
            stars = stars + 1;
            proof {
                assert(t[0] == '*');
            }
        } else if c == '?' {
            singles = singles + 1;
        } else {
            proof {
                assert(!only_wildcards(p@));
            }
            return false;
        }
        proof {
            assert forall|j: int| 0 <= j < t.len() implies (#[trigger] t[j] == '*' || t[j] == '?') by {
                if j > 0 {
                    assert(t[j] == t.drop_first()[j - 1]);
                }
            }
            if has_star(t.drop_first()) {
                let j = choose|j: int| 0 <= j < t.drop_first().len() && t.drop_first()[j] == '*';
                assert(t[j + 1] == '*');
            }
            if has_star(t) && c != '*' {
                let j = choose|j: int| 0 <= j < t.len() && t[j] == '*';
                assert(t.drop_first()[j - 1] == '*');
            }
        }
    }
    assert(p@.skip(0) =~= p@);
    stars > 0 && singles <= 1
}

} // verus!
