//! What the rewriting guarantees of its output: no role mention survives it,
//! and neither do the broadcast and here mentions.

use vstd::prelude::*;
use crate::text::{contains, occurs_at, replace_all};
use crate::transform::{
    role_digits, role_at, roles_stripped, role_placeholder, everyone_token, everyone_safe,
    here_token, here_safe, neutralized, unlinked, links_wrapped, bracketed, action_formatted,
    action_marker, is_action, trim_start, with_author, message_of,
};

verus! {

/// A role mention starts somewhere in `s`.
pub open spec fn has_role_mention(s: Seq<char>) -> bool {
    exists|k: int| 0 <= k <= s.len() && role_digits(#[trigger] s.subrange(k, s.len() as int)) > 0
}

proof fn lemma_role_starts_with_bracket(t: Seq<char>)
    requires
        role_digits(t) > 0,
    ensures
        t.len() > 0,
        t[0] == '<',
        t.len() >= 4 + role_digits(t),
{
}

/// What `roles_stripped` puts out first, at most `w.len()` characters of it,
/// comes from the input unchanged when `w` holds no `a`: a placeholder
/// starts with one.
proof fn lemma_roles_prefix_back(x: Seq<char>, w: Seq<char>)
    requires
        w.len() <= roles_stripped(x).len(),
        roles_stripped(x).subrange(0, w.len() as int) == w,
        forall|j: int| 0 <= j < w.len() ==> w[j] != 'a',
    ensures
        w.len() <= x.len(),
        x.subrange(0, w.len() as int) == w,
    decreases w.len(),
{
    if w.len() == 0 {
        assert(x.subrange(0, 0) =~= w);
    } else if x.len() == 0 {
    } else if role_digits(x) > 0 {
        assert(roles_stripped(x)[0] == 'a');
        assert(w[0] == roles_stripped(x).subrange(0, w.len() as int)[0]);
    } else {
        let x1 = x.subrange(1, x.len() as int);
        let w1 = w.drop_first();
        assert(roles_stripped(x) == seq![x[0]] + roles_stripped(x1));
        assert(roles_stripped(x1).subrange(0, w1.len() as int) =~= w1) by {
            assert forall|j: int| 0 <= j < w1.len() implies roles_stripped(x1)[j] == w1[j] by {
                assert(roles_stripped(x)[j + 1] == roles_stripped(x1)[j]);
                assert(roles_stripped(x).subrange(0, w.len() as int)[j + 1] == w[j + 1]);
            }
        }
        lemma_roles_prefix_back(x1, w1);
        assert(w[0] == roles_stripped(x).subrange(0, w.len() as int)[0]);
        assert(x.subrange(0, w.len() as int) =~= w) by {
            assert forall|j: int| 0 <= j < w.len() implies x.subrange(0, w.len() as int)[j] == w[j] by {
                if j > 0 {
                    assert(x1.subrange(0, w1.len() as int)[j - 1] == w1[j - 1]);
                }
            }
        }
    }
}

/// No role mention is left once they are replaced: each one of the input
/// becomes `at-role-` and its digits, and the replacement forms no new one.
pub proof fn lemma_no_role_mention_left(s: Seq<char>)
    ensures
        !has_role_mention(roles_stripped(s)),
    decreases s.len(),
{
    let out = roles_stripped(s);
    if s.len() == 0 {
        assert forall|k: int| 0 <= k <= out.len() implies role_digits(
            #[trigger] out.subrange(k, out.len() as int),
        ) == 0 by {
            if role_digits(out.subrange(k, out.len() as int)) > 0 {
                lemma_role_starts_with_bracket(out.subrange(k, out.len() as int));
            }
        }
    } else if role_digits(s) > 0 {
        let d = role_digits(s);
        let rest = s.subrange(4 + d, s.len() as int);
        let head = role_placeholder() + s.subrange(3, 3 + d);
        let r = roles_stripped(rest);
        lemma_no_role_mention_left(rest);
        assert(out == head + r);
        assert forall|k: int| 0 <= k <= out.len() implies role_digits(
            #[trigger] out.subrange(k, out.len() as int),
        ) == 0 by {
            let t = out.subrange(k, out.len() as int);
            if k < head.len() {
                if role_digits(t) > 0 {
                    lemma_role_starts_with_bracket(t);
                    assert(t[0] == head[k]);
                    if k >= 8 {
                        assert(head[k] == s[3 + k - 8]);
                        assert(role_at(s, d));
                    }
                }
            } else {
                assert(t =~= r.subrange(k - head.len(), r.len() as int));
            }
        }
    } else {
        let s1 = s.subrange(1, s.len() as int);
        let r = roles_stripped(s1);
        lemma_no_role_mention_left(s1);
        assert(out == seq![s[0]] + r);
        assert forall|k: int| 0 <= k <= out.len() implies role_digits(
            #[trigger] out.subrange(k, out.len() as int),
        ) == 0 by {
            let t = out.subrange(k, out.len() as int);
            if k >= 1 {
                assert(t =~= r.subrange(k - 1, r.len() as int));
            } else if role_digits(t) > 0 {
                let e = role_digits(t);
                assert(t =~= out);
                assert(role_at(out, e));
                let w = out.subrange(1, 4 + e);
                assert forall|j: int| 0 <= j < w.len() implies w[j] != 'a' by {
                    assert(w[j] == out[j + 1]);
                    if 3 <= j + 1 < 3 + e {
                        assert(crate::transform::is_digit(out[j + 1]));
                    }
                }
                assert(r.subrange(0, w.len() as int) =~= w);
                lemma_roles_prefix_back(s1, w);
                assert forall|j: int| 1 <= j < 4 + e implies s[j] == out[j] by {
                    assert(s1.subrange(0, w.len() as int)[j - 1] == w[j - 1]);
                }
                assert(role_at(s, e));
            }
        }
    }
}

/// Neither a broadcast nor a here mention occurs in `s`.
pub open spec fn mention_free(s: Seq<char>) -> bool {
    !contains(s, everyone_token()) && !contains(s, here_token())
}

/// What `replace_all` puts out first, at most `w.len()` characters of it,
/// comes from the input unchanged when `w` never holds the first character
/// of the replacement.
proof fn lemma_replace_prefix_back(x: Seq<char>, p: Seq<char>, r: Seq<char>, w: Seq<char>)
    requires
        p.len() > 0,
        r.len() > 0,
        w.len() <= replace_all(x, p, r).len(),
        replace_all(x, p, r).subrange(0, w.len() as int) == w,
        forall|j: int| 0 <= j < w.len() ==> w[j] != r[0],
    ensures
        w.len() <= x.len(),
        x.subrange(0, w.len() as int) == w,
    decreases w.len(),
{
    let out = replace_all(x, p, r);
    if w.len() == 0 {
        assert(x.subrange(0, 0) =~= w);
    } else if x.len() == 0 {
    } else if occurs_at(x, 0, p) {
        assert(out[0] == r[0]);
        assert(w[0] == out.subrange(0, w.len() as int)[0]);
    } else {
        let x1 = x.subrange(1, x.len() as int);
        let w1 = w.drop_first();
        let r1 = replace_all(x1, p, r);
        assert(out == seq![x[0]] + r1);
        assert(r1.subrange(0, w1.len() as int) =~= w1) by {
            assert forall|j: int| 0 <= j < w1.len() implies r1[j] == w1[j] by {
                assert(out[j + 1] == r1[j]);
                assert(out.subrange(0, w.len() as int)[j + 1] == w[j + 1]);
            }
        }
        lemma_replace_prefix_back(x1, p, r, w1);
        assert(w[0] == out.subrange(0, w.len() as int)[0]);
        assert(x.subrange(0, w.len() as int) =~= w) by {
            assert forall|j: int| 0 <= j < w.len() implies x.subrange(0, w.len() as int)[j] == w[j] by {
                if j > 0 {
                    assert(x1.subrange(0, w1.len() as int)[j - 1] == w1[j - 1]);
                }
            }
        }
    }
}

proof fn lemma_occurs_shift(s: Seq<char>, m: int, q: Seq<char>, k: int)
    requires
        0 <= m <= s.len(),
        occurs_at(s.subrange(m, s.len() as int), k, q),
    ensures
        occurs_at(s, m + k, q),
{
    assert(s.subrange(m + k, m + k + q.len()) =~= s.subrange(m, s.len() as int).subrange(k, k + q.len()));
}

/// An occurrence of `q` that starts where `out` is `head + tail`, past
/// `head`, is an occurrence in `tail`.
proof fn lemma_occurs_in_tail(head: Seq<char>, tail: Seq<char>, q: Seq<char>, k: int)
    requires
        occurs_at(head + tail, k, q),
        k >= head.len(),
    ensures
        occurs_at(tail, k - head.len(), q),
{
    assert((head + tail).subrange(k, k + q.len()) =~= tail.subrange(k - head.len(), k - head.len() + q.len()));
}

/// An occurrence of `q` at the very start of `seq![c] + rest(x)` where the
/// rest never starts with the first character of the replacement: `c` and
/// `x` begin with `q`.
proof fn lemma_first_char_occurrence(c: char, x: Seq<char>, p: Seq<char>, r: Seq<char>, q: Seq<char>)
    requires
        p.len() > 0,
        r.len() > 0,
        q.len() > 0,
        occurs_at(seq![c] + replace_all(x, p, r), 0, q),
        forall|j: int| 1 <= j < q.len() ==> q[j] != r[0],
    ensures
        occurs_at(seq![c] + x, 0, q),
{
    let out = seq![c] + replace_all(x, p, r);
    let w = q.drop_first();
    assert(replace_all(x, p, r).subrange(0, w.len() as int) =~= w) by {
        assert forall|j: int| 0 <= j < w.len() implies replace_all(x, p, r)[j] == w[j] by {
            assert(out.subrange(0, q.len() as int)[j + 1] == q[j + 1]);
        }
    }
    lemma_replace_prefix_back(x, p, r, w);
    assert((seq![c] + x).subrange(0, q.len() as int) =~= q) by {
        assert(out.subrange(0, q.len() as int)[0] == q[0]);
        assert forall|j: int| 1 <= j < q.len() implies (seq![c] + x)[j] == q[j] by {
            assert(x.subrange(0, w.len() as int)[j - 1] == w[j - 1]);
        }
    }
}

/// Replacing `p` by `r` leaves no `p`, and forms no `q` that was not there,
/// when `r` never holds the first character of either and neither holds the
/// first character of `r` past its own first place.
proof fn lemma_replace_clears(s: Seq<char>, p: Seq<char>, r: Seq<char>, q: Seq<char>)
    requires
        p.len() > 0,
        r.len() > 0,
        q.len() > 0,
        q == p || !contains(s, q),
        forall|j: int| 0 <= j < r.len() ==> r[j] != q[0],
        forall|j: int| 1 <= j < q.len() ==> q[j] != r[0],
    ensures
        !contains(replace_all(s, p, r), q),
    decreases s.len(),
{
    let out = replace_all(s, p, r);
    if s.len() == 0 {
        if contains(out, q) {
            let k = choose|k: int| occurs_at(out, k, q);
        }
    } else if occurs_at(s, 0, p) {
        let rest = s.subrange(p.len() as int, s.len() as int);
        if q != p && contains(rest, q) {
            let k = choose|k: int| occurs_at(rest, k, q);
            lemma_occurs_shift(s, p.len() as int, q, k);
        }
        lemma_replace_clears(rest, p, r, q);
        assert(out == r + replace_all(rest, p, r));
        if contains(out, q) {
            let k = choose|k: int| occurs_at(out, k, q);
            if k < r.len() {
                assert(out.subrange(k, k + q.len())[0] == q[0]);
            } else {
                lemma_occurs_in_tail(r, replace_all(rest, p, r), q, k);
            }
        }
    } else {
        let s1 = s.subrange(1, s.len() as int);
        if q != p && contains(s1, q) {
            let k = choose|k: int| occurs_at(s1, k, q);
            lemma_occurs_shift(s, 1, q, k);
        }
        lemma_replace_clears(s1, p, r, q);
        assert(out == seq![s[0]] + replace_all(s1, p, r));
        if contains(out, q) {
            let k = choose|k: int| occurs_at(out, k, q);
            if k >= 1 {
                lemma_occurs_in_tail(seq![s[0]], replace_all(s1, p, r), q, k);
            } else {
                lemma_first_char_occurrence(s[0], s1, p, r, q);
                assert(seq![s[0]] + s1 =~= s);
            }
        }
    }
}

/// Wrapping a link in angle brackets forms no `q` that was not there, when
/// `q` holds no angle bracket.
proof fn lemma_bracket_keeps_absent(s: Seq<char>, l: Seq<char>, q: Seq<char>)
    requires
        l.len() > 0,
        q.len() > 0,
        !contains(s, q),
        forall|j: int| 0 <= j < q.len() ==> q[j] != '<' && q[j] != '>',
    ensures
        !contains(replace_all(s, l, bracketed(l)), q),
    decreases s.len(),
{
    let r = bracketed(l);
    let out = replace_all(s, l, r);
    if s.len() == 0 {
        if contains(out, q) {
            let k = choose|k: int| occurs_at(out, k, q);
        }
    } else if occurs_at(s, 0, l) {
        let rest = s.subrange(l.len() as int, s.len() as int);
        if contains(rest, q) {
            let k = choose|k: int| occurs_at(rest, k, q);
            lemma_occurs_shift(s, l.len() as int, q, k);
        }
        lemma_bracket_keeps_absent(rest, l, q);
        assert(out == r + replace_all(rest, l, r));
        if contains(out, q) {
            let k = choose|k: int| occurs_at(out, k, q);
            let o = out.subrange(k, k + q.len());
            if k == 0 {
                assert(o[0] == q[0]);
            } else if k <= l.len() {
                if k + q.len() <= l.len() + 1 {
                    assert(s.subrange(k - 1, k - 1 + q.len()) =~= o);
                    assert(occurs_at(s, k - 1, q));
                } else {
                    assert(o[l.len() + 1 - k] == '>');
                    assert(q[l.len() + 1 - k] == o[l.len() + 1 - k]);
                }
            } else if k == l.len() + 1 {
                assert(o[0] == q[0]);
            } else {
                lemma_occurs_in_tail(r, replace_all(rest, l, r), q, k);
            }
        }
    } else {
        let s1 = s.subrange(1, s.len() as int);
        if contains(s1, q) {
            let k = choose|k: int| occurs_at(s1, k, q);
            lemma_occurs_shift(s, 1, q, k);
        }
        lemma_bracket_keeps_absent(s1, l, q);
        assert(out == seq![s[0]] + replace_all(s1, l, r));
        if contains(out, q) {
            let k = choose|k: int| occurs_at(out, k, q);
            if k >= 1 {
                lemma_occurs_in_tail(seq![s[0]], replace_all(s1, l, r), q, k);
            } else {
                lemma_first_char_occurrence(s[0], s1, l, r, q);
                assert(seq![s[0]] + s1 =~= s);
            }
        }
    }
}

proof fn lemma_links_keep_absent(s: Seq<char>, links: Seq<Seq<char>>, q: Seq<char>)
    requires
        q.len() > 0,
        !contains(s, q),
        forall|j: int| 0 <= j < q.len() ==> q[j] != '<' && q[j] != '>',
    ensures
        !contains(links_wrapped(s, links), q),
    decreases links.len(),
{
    if links.len() > 0 {
        lemma_links_keep_absent(s, links.drop_last(), q);
        let l = links.last();
        if l.len() > 0 && !links.drop_last().contains(l) {
            lemma_bracket_keeps_absent(links_wrapped(s, links.drop_last()), l, q);
        }
    }
}

/// Replacing role mentions forms no `q` that was not there, when `q` starts
/// with `@` and holds no `a` after it.
proof fn lemma_roles_keep_absent(s: Seq<char>, q: Seq<char>)
    requires
        q.len() > 0,
        q[0] == '@',
        forall|j: int| 1 <= j < q.len() ==> q[j] != 'a',
        !contains(s, q),
    ensures
        !contains(roles_stripped(s), q),
    decreases s.len(),
{
    let out = roles_stripped(s);
    if s.len() == 0 {
        if contains(out, q) {
            let k = choose|k: int| occurs_at(out, k, q);
        }
    } else if role_digits(s) > 0 {
        let d = role_digits(s);
        let rest = s.subrange(4 + d, s.len() as int);
        let head = role_placeholder() + s.subrange(3, 3 + d);
        if contains(rest, q) {
            let k = choose|k: int| occurs_at(rest, k, q);
            lemma_occurs_shift(s, 4 + d, q, k);
        }
        lemma_roles_keep_absent(rest, q);
        assert(out == head + roles_stripped(rest));
        if contains(out, q) {
            let k = choose|k: int| occurs_at(out, k, q);
            if k < head.len() {
                assert(out.subrange(k, k + q.len())[0] == q[0]);
                if k >= 8 {
                    assert(head[k] == s[3 + k - 8]);
                    assert(role_at(s, d));
                }
            } else {
                lemma_occurs_in_tail(head, roles_stripped(rest), q, k);
            }
        }
    } else {
        let s1 = s.subrange(1, s.len() as int);
        let r = roles_stripped(s1);
        if contains(s1, q) {
            let k = choose|k: int| occurs_at(s1, k, q);
            lemma_occurs_shift(s, 1, q, k);
        }
        lemma_roles_keep_absent(s1, q);
        assert(out == seq![s[0]] + r);
        if contains(out, q) {
            let k = choose|k: int| occurs_at(out, k, q);
            if k >= 1 {
                lemma_occurs_in_tail(seq![s[0]], r, q, k);
            } else {
                let w = q.drop_first();
                assert(r.subrange(0, w.len() as int) =~= w) by {
                    assert forall|j: int| 0 <= j < w.len() implies r[j] == w[j] by {
                        assert(out.subrange(0, q.len() as int)[j + 1] == q[j + 1]);
                    }
                }
                lemma_roles_prefix_back(s1, w);
                assert(s.subrange(0, q.len() as int) =~= q) by {
                    assert(out.subrange(0, q.len() as int)[0] == q[0]);
                    assert forall|j: int| 1 <= j < q.len() implies s[j] == q[j] by {
                        assert(s1.subrange(0, w.len() as int)[j - 1] == w[j - 1]);
                    }
                }
                assert(occurs_at(s, 0, q));
            }
        }
    }
}

/// `trim_start` keeps a suffix.
proof fn lemma_trim_start_suffix(m: Seq<char>) -> (i: int)
    ensures
        0 <= i <= m.len(),
        trim_start(m) == m.subrange(i, m.len() as int),
    decreases m.len(),
{
    if m.len() > 0 && crate::transform::is_space(m[0]) {
        let i = lemma_trim_start_suffix(m.drop_first());
        assert(m.drop_first().subrange(i, m.len() - 1) =~= m.subrange(i + 1, m.len() as int));
        i + 1
    } else {
        assert(m.subrange(0, m.len() as int) =~= m);
        0
    }
}

proof fn lemma_action_keeps_absent(s: Seq<char>, q: Seq<char>)
    requires
        q.len() > 0,
        q[0] == '@',
        !contains(s, q),
    ensures
        !contains(action_formatted(s), q),
{
    if is_action(s) {
        let mid = s.subrange(7, s.len() - 1);
        let i = lemma_trim_start_suffix(mid);
        let tail = trim_start(mid);
        let out = action_marker() + tail;
        if contains(out, q) {
            let k = choose|k: int| occurs_at(out, k, q);
            if k < 4 {
                assert(out.subrange(k, k + q.len())[0] == q[0]);
            } else {
                lemma_occurs_in_tail(action_marker(), tail, q, k);
                assert(s.subrange(7 + i + k - 4, 7 + i + k - 4 + q.len())
                    =~= tail.subrange(k - 4, k - 4 + q.len()));
                assert(occurs_at(s, 7 + i + k - 4, q));
            }
        }
    }
}

proof fn lemma_author_keeps_absent(author: Seq<char>, text: Seq<char>, q: Seq<char>)
    requires
        q.len() > 0,
        q[0] == '@',
        forall|j: int| 0 <= j < q.len() ==> q[j] != ']',
        !contains(author, q),
        !contains(text, q),
    ensures
        !contains(with_author(author, text), q),
{
    let head = seq!['['] + author + seq![']', ' '];
    let out = with_author(author, text);
    assert(out == head + text);
    if contains(out, q) {
        let k = choose|k: int| occurs_at(out, k, q);
        let o = out.subrange(k, k + q.len());
        if k == 0 {
            assert(o[0] == q[0]);
        } else if k <= author.len() {
            if k + q.len() <= author.len() + 1 {
                assert(author.subrange(k - 1, k - 1 + q.len()) =~= o);
                assert(occurs_at(author, k - 1, q));
            } else {
                assert(o[author.len() + 1 - k] == ']');
                assert(q[author.len() + 1 - k] == o[author.len() + 1 - k]);
            }
        } else if k < head.len() {
            assert(o[0] == q[0]);
        } else {
            lemma_occurs_in_tail(head, text, q, k);
        }
    }
}

/// The text of a relayed post, after the author's name, holds neither a
/// broadcast mention (`@everyone`) nor a here mention (`@here`), whatever the
/// body and whatever links were found in it.
pub proof fn lemma_text_without_mass_mention(body: Seq<char>, links: Seq<Seq<char>>)
    ensures
        mention_free(action_formatted(links_wrapped(unlinked(body), links))),
{
    let e = everyone_token();
    let h = here_token();
    assert(forall|j: int| 0 <= j < everyone_safe().len() ==> everyone_safe()[j] != '@');
    assert(forall|j: int| 0 <= j < here_safe().len() ==> here_safe()[j] != '@');
    assert(forall|j: int| 1 <= j < e.len() ==> e[j] != 'a' && e[j] != '@');
    assert(forall|j: int| 1 <= j < h.len() ==> h[j] != 'a' && h[j] != '@');
    assert(forall|j: int| 0 <= j < e.len() ==> e[j] != '<' && e[j] != '>');
    assert(forall|j: int| 0 <= j < h.len() ==> h[j] != '<' && h[j] != '>');
    let a = replace_all(body, e, everyone_safe());
    lemma_replace_clears(body, e, everyone_safe(), e);
    let b = replace_all(a, h, here_safe());
    lemma_replace_clears(a, h, here_safe(), h);
    lemma_replace_clears(a, h, here_safe(), e);
    assert(b == neutralized(body));
    let c = roles_stripped(b);
    lemma_roles_keep_absent(b, e);
    lemma_roles_keep_absent(b, h);
    assert(c == unlinked(body));
    let d = links_wrapped(c, links);
    lemma_links_keep_absent(c, links, e);
    lemma_links_keep_absent(c, links, h);
    lemma_action_keeps_absent(d, e);
    lemma_action_keeps_absent(d, h);
}

/// The whole relayed message holds neither mention either, so long as the
/// author's name holds none.
pub proof fn lemma_no_mass_mention(author: Seq<char>, body: Seq<char>, links: Seq<Seq<char>>)
    requires
        mention_free(author),
    ensures
        mention_free(message_of(author, unlinked(body), links)),
{
    let e = everyone_token();
    let h = here_token();
    assert(forall|j: int| 0 <= j < e.len() ==> e[j] != ']');
    assert(forall|j: int| 0 <= j < h.len() ==> h[j] != ']');
    lemma_text_without_mass_mention(body, links);
    let text = action_formatted(links_wrapped(unlinked(body), links));
    lemma_author_keeps_absent(author, text, e);
    lemma_author_keeps_absent(author, text, h);
}

/// A role mention that no `<` comes before is replaced by `at-role-` and
/// the same digits, and the rest of the text is treated on its own.
pub proof fn lemma_role_replaced(u: Seq<char>, t: Seq<char>)
    requires
        forall|j: int| 0 <= j < u.len() ==> u[j] != '<',
        role_digits(t) > 0,
    ensures
        roles_stripped(u + t) == u + role_placeholder() + t.subrange(3, 3 + role_digits(t))
            + roles_stripped(t.subrange(4 + role_digits(t), t.len() as int)),
    decreases u.len(),
{
    let d = role_digits(t);
    if u.len() == 0 {
        assert(u + t =~= t);
        assert(u + role_placeholder() =~= role_placeholder());
    } else {
        let s = u + t;
        lemma_role_replaced(u.drop_first(), t);
        if role_digits(s) > 0 {
            lemma_role_starts_with_bracket(s);
            assert(s[0] == u[0]);
        }
        assert(s.subrange(1, s.len() as int) =~= u.drop_first() + t);
        assert(roles_stripped(s) == seq![u[0]] + roles_stripped(u.drop_first() + t));
        assert(seq![u[0]] + (u.drop_first() + role_placeholder() + t.subrange(3, 3 + d)
            + roles_stripped(t.subrange(4 + d, t.len() as int)))
            =~= u + role_placeholder() + t.subrange(3, 3 + d)
            + roles_stripped(t.subrange(4 + d, t.len() as int)));
    }
}

} // verus!
