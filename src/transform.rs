//! The rewriting of a chat post for the destination platform: mentions made
//! harmless, links kept from unfurling, action posts in their own form, and
//! the author in front.

use vstd::prelude::*;
use crate::text::{from_chars, to_chars, occurs_at, replace_all, occurs_at_exec, replace_all_exec};
use crate::protocol::slice_chars;

verus! {

pub open spec fn everyone_token() -> Seq<char> {
    seq!['@', 'e', 'v', 'e', 'r', 'y', 'o', 'n', 'e']
}

pub open spec fn everyone_safe() -> Seq<char> {
    seq!['a', 't', '-', 'e', 'v', 'e', 'r', 'y', 'o', 'n', 'e']
}

pub open spec fn here_token() -> Seq<char> {
    seq!['@', 'h', 'e', 'r', 'e']
}

pub open spec fn here_safe() -> Seq<char> {
    seq!['a', 't', '-', 'h', 'e', 'r', 'e']
}

/// The broadcast and here mentions replaced by look-alikes that notify nobody.
pub open spec fn neutralized(s: Seq<char>) -> Seq<char> {
    replace_all(replace_all(s, everyone_token(), everyone_safe()), here_token(), here_safe())
}

pub open spec fn is_digit(c: char) -> bool {
    '0' <= c <= '9'
}

/// `s` starts with a role mention of `d` digits: `<@&`, the digits, `>`.
pub open spec fn role_at(s: Seq<char>, d: int) -> bool {
    &&& s.len() >= d + 4
    &&& s[0] == '<' && s[1] == '@' && s[2] == '&'
    &&& forall|j: int| 3 <= j < 3 + d ==> is_digit(#[trigger] s[j])
    &&& s[3 + d] == '>'
}

/// The number of digits of the role mention that `s` starts with, or 0.
pub open spec fn role_digits(s: Seq<char>) -> int {
    if role_at(s, 17) {
        17
    } else if role_at(s, 18) {
        18
    } else if role_at(s, 19) {
        19
    } else {
        0
    }
}

pub open spec fn role_placeholder() -> Seq<char> {
    seq!['a', 't', '-', 'r', 'o', 'l', 'e', '-']
}

/// Every role mention replaced, from left to right, by a placeholder that
/// holds its digits.
pub open spec fn roles_stripped(s: Seq<char>) -> Seq<char>
    decreases s.len(),
{
    if s.len() == 0 {
        s
    } else if role_digits(s) > 0 {
        let d = role_digits(s);
        role_placeholder() + s.subrange(3, 3 + d) + roles_stripped(s.subrange(4 + d, s.len() as int))
    } else {
        seq![s[0]] + roles_stripped(s.subrange(1, s.len() as int))
    }
}

/// The links, with or without a scheme, that linkify finds in `s`, in order.
pub uninterp spec fn links_of(s: Seq<char>) -> Seq<Seq<char>>;

pub open spec fn bracketed(l: Seq<char>) -> Seq<char> {
    seq!['<'] + l + seq!['>']
}

/// Each distinct link of `links`, in order, wrapped in angle brackets at
/// every place where it occurs.
pub open spec fn links_wrapped(s: Seq<char>, links: Seq<Seq<char>>) -> Seq<char>
    decreases links.len(),
{
    if links.len() == 0 {
        s
    } else {
        let prev = links_wrapped(s, links.drop_last());
        let l = links.last();
        if l.len() == 0 || links.drop_last().contains(l) {
            prev
        } else {
            replace_all(prev, l, bracketed(l))
        }
    }
}

pub open spec fn action_open() -> Seq<char> {
    seq!['\u{1}', 'A', 'C', 'T', 'I', 'O', 'N']
}

/// An action post: the control byte, `ACTION`, optionally a space and free
/// text, and the control byte again.
pub open spec fn is_action(s: Seq<char>) -> bool {
    &&& s.len() >= 8
    &&& s.subrange(0, 7) == action_open()
    &&& s.last() == '\u{1}'
    &&& (s.len() == 8 || s[7] == ' ')
}

/// What `char::is_whitespace` accepts: the Unicode White_Space characters.
pub open spec fn is_space(c: char) -> bool {
    ('\u{9}' <= c <= '\u{d}') || c == ' ' || c == '\u{85}' || c == '\u{a0}' || c == '\u{1680}'
        || ('\u{2000}' <= c <= '\u{200a}') || c == '\u{2028}' || c == '\u{2029}'
        || c == '\u{202f}' || c == '\u{205f}' || c == '\u{3000}'
}

pub open spec fn trim_start(s: Seq<char>) -> Seq<char>
    decreases s.len(),
{
    if s.len() > 0 && is_space(s[0]) {
        trim_start(s.drop_first())
    } else {
        s
    }
}

pub open spec fn action_marker() -> Seq<char> {
    seq!['(', '*', ')', ' ']
}

/// An action post rewritten as `(*) ` and its text; any other text as it is.
pub open spec fn action_formatted(s: Seq<char>) -> Seq<char> {
    if is_action(s) {
        action_marker() + trim_start(s.subrange(7, s.len() - 1))
    } else {
        s
    }
}

/// The body after the steps that come before the search for links.
pub open spec fn unlinked(body: Seq<char>) -> Seq<char> {
    roles_stripped(neutralized(body))
}

pub open spec fn with_author(author: Seq<char>, text: Seq<char>) -> Seq<char> {
    seq!['['] + author + seq![']', ' '] + text
}

/// The finished message, given the links found in the unlinked body.
pub open spec fn message_of(author: Seq<char>, unlinked_body: Seq<char>, links: Seq<Seq<char>>) -> Seq<char> {
    with_author(author, action_formatted(links_wrapped(unlinked_body, links)))
}

/// Relies on `linkify::LinkFinder::links`, set to find URLs with or without
/// a scheme: the links it finds in `text`, as strings, in the order it
/// yields them.
#[verifier::external_body]
fn find_links(text: &str) -> (r: Vec<String>)
    ensures
        r@.map_values(|l: String| l@) == links_of(text@),
{
    let mut finder = linkify::LinkFinder::new();
    finder.url_must_have_scheme(false);
    finder.links(text).map(|l| l.as_str().to_string()).collect()
}

fn neutralize_chars(s: &Vec<char>) -> (r: Vec<char>)
    ensures
        r@ == neutralized(s@),
{
    let everyone = vec!['@', 'e', 'v', 'e', 'r', 'y', 'o', 'n', 'e'];
    let everyone_sub = vec!['a', 't', '-', 'e', 'v', 'e', 'r', 'y', 'o', 'n', 'e'];
    let here = vec!['@', 'h', 'e', 'r', 'e'];
    let here_sub = vec!['a', 't', '-', 'h', 'e', 'r', 'e'];
    let first = replace_all_exec(s, &everyone, &everyone_sub);
    replace_all_exec(&first, &here, &here_sub)
}

/// The broadcast (`@everyone`) and here (`@here`) mentions of `text` replaced
/// by `at-everyone` and `at-here`.
pub fn neutralize_mentions(text: &str) -> (r: String)
    ensures
        r@ == neutralized(text@),
{
    from_chars(&neutralize_chars(&to_chars(text)))
}

/// The number of digits of the role mention that starts at `i`, or 0.
fn role_digits_at(s: &Vec<char>, i: usize) -> (r: usize)
    requires
        i <= s@.len(),
    ensures
        r == role_digits(s@.subrange(i as int, s@.len() as int)),
{
    let ghost t = s@.subrange(i as int, s@.len() as int);
    let n = s.len();
    if n - i < 4 || s[i] != '<' || s[i + 1] != '@' || s[i + 2] != '&' {
        return 0;
    }
    let mut d: usize = 0;
    while d < 20 && i + 3 + d < n && '0' <= s[i + 3 + d] && s[i + 3 + d] <= '9'
        invariant
            n == s@.len(),
            i + 4 <= n,
            d <= 20,
            i + 3 + d <= n,
            t == s@.subrange(i as int, n as int),
            forall|j: int| 3 <= j < 3 + d ==> is_digit(#[trigger] t[j]),
        decreases 20 - d,
    {
        d = d + 1;
    }
    // `d` digits follow `<@&`, and then no digit (or a twentieth one).
    let ok = 17 <= d && d <= 19 && i + 3 + d < n && s[i + 3 + d] == '>';
    proof {
        assert forall|e: int| 17 <= e <= 19 && e != d implies !role_at(t, e) by {
            if e < d {
                assert(is_digit(t[3 + e]));
            } else if role_at(t, e) {
                assert(is_digit(t[3 + d as int]));
            }
        }
    }
    if ok {
        assert(role_at(t, d as int));
        d
    } else {
        0
    }
}

fn strip_roles_chars(s: &Vec<char>) -> (out: Vec<char>)
    ensures
        out@ == roles_stripped(s@),
{
    let mut out: Vec<char> = Vec::new();
    let mut i: usize = 0;
    assert(s@.subrange(0, s@.len() as int) =~= s@);
    assert(out@ + roles_stripped(s@) =~= roles_stripped(s@));
    while i < s.len()
        invariant
            i <= s@.len(),
            out@ + roles_stripped(s@.subrange(i as int, s@.len() as int)) == roles_stripped(s@),
        decreases s@.len() - i,
    {
        let ghost rest = s@.subrange(i as int, s@.len() as int);
        let d = role_digits_at(s, i);
        if d > 0 {
            out.extend_from_slice(&[ 'a', 't', '-', 'r', 'o', 'l', 'e', '-']);
            let digits = slice_chars(s, i + 3, i + 3 + d);
            out.extend_from_slice(digits.as_slice());
            assert(rest.subrange(3, 3 + d) =~= digits@);
            assert(rest.subrange(4 + d, rest.len() as int) =~= s@.subrange(i + 4 + d, s@.len() as int));
            i = i + 4 + d;
        } else {
            assert(rest.subrange(1, rest.len() as int) =~= s@.subrange(i + 1, s@.len() as int));
            out.push(s[i]);
            i = i + 1;
        }
        assert(out@ + roles_stripped(s@.subrange(i as int, s@.len() as int)) =~= roles_stripped(s@));
    }
    assert(s@.subrange(i as int, s@.len() as int) =~= Seq::<char>::empty());
    assert(out@ + Seq::<char>::empty() =~= out@);
    out
}

/// Every role mention (`<@&` with 17 to 19 digits and `>`) of `text` replaced
/// by `at-role-` and its digits.
pub fn strip_role_mentions(text: &str) -> (r: String)
    ensures
        r@ == roles_stripped(text@),
{
    from_chars(&strip_roles_chars(&to_chars(text)))
}

fn wrap_links_chars(s: &Vec<char>, links: &Vec<String>) -> (r: Vec<char>)
    ensures
        r@ == links_wrapped(s@, links@.map_values(|l: String| l@)),
{
    let ghost ls = links@.map_values(|l: String| l@);
    let mut cur: Vec<char> = s.clone();
    let mut i: usize = 0;
    assert(ls.take(0).len() == 0);
    while i < links.len()
        invariant
            i <= links@.len(),
            ls == links@.map_values(|l: String| l@),
            cur@ == links_wrapped(s@, ls.take(i as int)),
        decreases links@.len() - i,
    {
        let mut seen = false;
        let mut j: usize = 0;
        while j < i
            invariant
                i < links@.len(),
                j <= i,
                ls == links@.map_values(|l: String| l@),
                seen == (exists|k: int| 0 <= k < j && ls[k] == ls[i as int]),
            decreases i - j,
        {
            let same = links[j] == links[i];
            assert(ls[j as int] == links@[j as int]@ && ls[i as int] == links@[i as int]@);
            if same {
                seen = true;
            }
            assert(same == (ls[j as int] == ls[i as int]));
            j = j + 1;
            assert(seen == (exists|k: int| 0 <= k < j && ls[k] == ls[i as int])) by {
                if same {
                    assert(0 <= j - 1 < j && ls[j - 1] == ls[i as int]);
                }
            }
        }
        let l = to_chars(links[i].as_str());
        assert(ls.take(i + 1).drop_last() =~= ls.take(i as int));
        assert(ls.take(i + 1).last() == l@);
        assert(seen == ls.take(i as int).contains(l@)) by {
            if seen {
                let k = choose|k: int| 0 <= k < i && ls[k] == ls[i as int];
                assert(ls.take(i as int)[k] == l@);
            }
            if ls.take(i as int).contains(l@) {
                let k = choose|k: int| 0 <= k < i && ls.take(i as int)[k] == l@;
                assert(ls[k] == ls[i as int]);
            }
        }
        if l.len() > 0 && !seen {
            let mut b: Vec<char> = vec!['<'];
            b.extend_from_slice(l.as_slice());
            b.push('>');
            assert(b@ =~= bracketed(l@));
            cur = replace_all_exec(&cur, &l, &b);
        }
        i = i + 1;
    }
    assert(ls.take(links@.len() as int) =~= ls);
    cur
}

/// Each distinct non-empty link of `links`, in order, wrapped in angle
/// brackets wherever it occurs in `text`; a link met before is skipped, so
/// that nothing is wrapped twice.
pub fn wrap_links(text: &str, links: &Vec<String>) -> (r: String)
    ensures
        r@ == links_wrapped(text@, links@.map_values(|l: String| l@)),
{
    from_chars(&wrap_links_chars(&to_chars(text), links))
}

fn is_space_exec(c: char) -> (r: bool)
    ensures
        r == is_space(c),
{
    ('\u{9}' <= c && c <= '\u{d}') || c == ' ' || c == '\u{85}' || c == '\u{a0}' || c == '\u{1680}'
        || ('\u{2000}' <= c && c <= '\u{200a}') || c == '\u{2028}' || c == '\u{2029}'
        || c == '\u{202f}' || c == '\u{205f}' || c == '\u{3000}'
}

fn action_chars(s: &Vec<char>) -> (r: Vec<char>)
    ensures
        r@ == action_formatted(s@),
{
    let n = s.len();
    let open = vec!['\u{1}', 'A', 'C', 'T', 'I', 'O', 'N'];
    if n < 8 || !occurs_at_exec(s, 0, &open) || s[n - 1] != '\u{1}' || (n != 8 && s[7] != ' ') {
        proof {
            if is_action(s@) {
                assert(occurs_at(s@, 0, open@));
            }
        }
        return s.clone();
    }
    let mut start: usize = 7;
    let ghost mid = s@.subrange(7, n - 1);
    assert(mid.subrange(0, mid.len() as int) =~= mid);
    while start < n - 1 && is_space_exec(s[start])
        invariant
            n == s@.len(),
            n >= 8,
            7 <= start <= n - 1,
            mid == s@.subrange(7, n - 1),
            trim_start(s@.subrange(start as int, n - 1)) == trim_start(mid),
        decreases n - start,
    {
        assert(s@.subrange(start as int, n - 1).drop_first() =~= s@.subrange(start + 1, n - 1));
        start = start + 1;
    }
    let mut r: Vec<char> = vec!['(', '*', ')', ' '];
    let rest = slice_chars(s, start, n - 1);
    r.extend_from_slice(rest.as_slice());
    r
}

/// An action post (control byte, `ACTION`, optionally a space and text,
/// control byte) rewritten as `(*) ` and its text without leading
/// whitespace; any other text unchanged.
pub fn format_action(text: &str) -> (r: String)
    ensures
        r@ == action_formatted(text@),
{
    from_chars(&action_chars(&to_chars(text)))
}

/// The finished message, `[author] ` and the text, given the body as it
/// stands before the search for links and the links found in it.
pub fn finish_message(author: &str, unlinked_body: &str, links: &Vec<String>) -> (r: String)
    ensures
        r@ == message_of(author@, unlinked_body@, links@.map_values(|l: String| l@)),
{
    let wrapped = wrap_links_chars(&to_chars(unlinked_body), links);
    let text = action_chars(&wrapped);
    let mut r: Vec<char> = vec!['['];
    r.extend_from_slice(to_chars(author).as_slice());
    r.push(']');
    r.push(' ');
    r.extend_from_slice(text.as_slice());
    assert(r@ =~= message_of(author@, unlinked_body@, links@.map_values(|l: String| l@)));
    from_chars(&r)
}

/// The message relayed for a chat post of `author` with text `body`.
pub fn transform(author: &str, body: &str) -> (r: String)
    ensures
        r@ == message_of(author@, unlinked(body@), links_of(unlinked(body@))),
{
    let stage = from_chars(&strip_roles_chars(&neutralize_chars(&to_chars(body))));
    let links = find_links(stage.as_str());
    finish_message(author, stage.as_str(), &links)
}

} // verus!
