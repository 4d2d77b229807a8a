//! The IRC wire grammar: a line loses its terminator and splits into at most
//! four fields on its first three spaces; the replies the session sends.

use vstd::prelude::*;
use crate::text::{from_chars, to_chars};

verus! {

/// The most fields a line splits into; the last keeps its spaces.
pub const MAX_FIELDS: usize = 4;

/// The length of the host part at the end of a sender prefix.
pub const HOST_SUFFIX_LEN: usize = 11;

pub open spec fn is_terminator(c: char) -> bool {
    c == '\n' || c == '\r'
}

/// `s` without the line terminator characters at its end.
pub open spec fn trim_terminator(s: Seq<char>) -> Seq<char>
    decreases s.len(),
{
    if s.len() > 0 && is_terminator(s.last()) {
        trim_terminator(s.drop_last())
    } else {
        s
    }
}

/// The index of the first `c` in `s`, or -1 where there is none.
pub open spec fn index_of(s: Seq<char>, c: char) -> int
    decreases s.len(),
{
    if s.len() == 0 {
        -1
    } else if s[0] == c {
        0
    } else {
        let k = index_of(s.drop_first(), c);
        if k < 0 { -1 } else { k + 1 }
    }
}

/// `s` split on its first `n - 1` spaces.
pub open spec fn split_fields(s: Seq<char>, n: nat) -> Seq<Seq<char>>
    decreases n,
{
    let k = index_of(s, ' ');
    if n <= 1 || k < 0 {
        seq![s]
    } else {
        seq![s.subrange(0, k)] + split_fields(s.subrange(k + 1, s.len() as int), (n - 1) as nat)
    }
}

/// The fields of a line as it came off the wire.
pub open spec fn fields(line: Seq<char>) -> Seq<Seq<char>> {
    split_fields(trim_terminator(line), MAX_FIELDS as nat)
}

pub open spec fn ping_word() -> Seq<char> {
    seq!['P', 'I', 'N', 'G']
}

pub open spec fn pong_prefix() -> Seq<char> {
    seq!['P', 'O', 'N', 'G', ' ']
}

/// Everything after the first space of a line, once its terminator is gone:
/// the token of a keep-alive probe, spaces and all.
pub open spec fn ping_token(line: Seq<char>) -> Seq<char> {
    let t = trim_terminator(line);
    t.subrange(index_of(t, ' ') + 1, t.len() as int)
}

/// The answer to a keep-alive probe carrying `token`.
pub open spec fn pong_of(token: Seq<char>) -> Seq<char> {
    pong_prefix() + token
}

/// The nickname in a sender prefix: without its leading sigil and its host
/// suffix.
pub open spec fn author_of(prefix: Seq<char>) -> Seq<char> {
    prefix.subrange(1, prefix.len() - HOST_SUFFIX_LEN)
}

/// The text of a chat post: its trailing field without the leading marker.
pub open spec fn body_of(trailing: Seq<char>) -> Seq<char> {
    if trailing.len() > 0 { trailing.drop_first() } else { trailing }
}

pub open spec fn handshake_of(username: Seq<char>, password: Seq<char>, channel: Seq<char>) -> Seq<Seq<char>> {
    seq![
        seq!['P', 'A', 'S', 'S', ' '] + password,
        seq!['N', 'I', 'C', 'K', ' '] + username,
        seq!['J', 'O', 'I', 'N', ' '] + channel,
    ]
}

pub proof fn lemma_index_of(s: Seq<char>, c: char, k: int)
    requires
        0 <= k <= s.len(),
        forall|j: int| 0 <= j < k ==> s[j] != c,
        k == s.len() || s[k] == c,
    ensures
        index_of(s, c) == if k == s.len() { -1 } else { k },
    decreases k,
{
    if k > 0 {
        lemma_index_of(s.drop_first(), c, k - 1);
    }
}

/// A line that starts with `h`, which holds no space, and a space splits into
/// `h` and the fields of what follows.
pub proof fn lemma_split_head(h: Seq<char>, rest: Seq<char>, n: nat)
    requires
        n >= 2,
        forall|j: int| 0 <= j < h.len() ==> h[j] != ' ',
    ensures
        index_of(h + seq![' '] + rest, ' ') == h.len(),
        split_fields(h + seq![' '] + rest, n) == seq![h] + split_fields(rest, (n - 1) as nat),
{
    let s = h + seq![' '] + rest;
    lemma_index_of(s, ' ', h.len() as int);
    assert(s.subrange(0, h.len() as int) =~= h);
    assert(s.subrange(h.len() as int + 1, s.len() as int) =~= rest);
}

/// A split always has a first field.
pub proof fn lemma_split_nonempty(s: Seq<char>, n: nat)
    ensures
        split_fields(s, n).len() >= 1,
{
}

/// The index of the first `c` in `s`, if any.
pub fn find_char(s: &Vec<char>, c: char) -> (r: Option<usize>)
    ensures
        match r {
            Some(k) => index_of(s@, c) == k && k < s@.len() && s@[k as int] == c,
            None => index_of(s@, c) == -1,
        },
{
    let mut i: usize = 0;
    while i < s.len()
        invariant
            i <= s@.len(),
            forall|j: int| 0 <= j < i ==> s@[j] != c,
        decreases s@.len() - i,
    {
        if s[i] == c {
            proof { lemma_index_of(s@, c, i as int); }
            return Some(i);
        }
        i = i + 1;
    }
    proof { lemma_index_of(s@, c, i as int); }
    None
}

/// The characters of `s` from index `from` up to `to`.
pub fn slice_chars(s: &Vec<char>, from: usize, to: usize) -> (r: Vec<char>)
    requires
        from <= to <= s@.len(),
    ensures
        r@ == s@.subrange(from as int, to as int),
{
    let mut r: Vec<char> = Vec::new();
    let mut i: usize = from;
    while i < to
        invariant
            from <= i <= to <= s@.len(),
            r@ == s@.subrange(from as int, i as int),
        decreases to - i,
    {
        r.push(s[i]);
        i = i + 1;
        assert(r@ =~= s@.subrange(from as int, i as int));
    }
    r
}

/// `s` without the line terminator characters at its end.
pub fn trim_terminator_exec(s: &Vec<char>) -> (r: Vec<char>)
    ensures
        r@ == trim_terminator(s@),
{
    let mut end: usize = s.len();
    assert(s@.subrange(0, end as int) =~= s@);
    while end > 0 && (s[end - 1] == '\n' || s[end - 1] == '\r')
        invariant
            end <= s@.len(),
            trim_terminator(s@.subrange(0, end as int)) == trim_terminator(s@),
        decreases end,
    {
        assert(s@.subrange(0, end as int).drop_last() =~= s@.subrange(0, end - 1));
        end = end - 1;
    }
    slice_chars(s, 0, end)
}

/// The fields of `line`: at most four, split on the first three spaces once
/// the terminator is gone.
pub fn parse_fields(line: &str) -> (r: Vec<String>)
    ensures
        r@.map_values(|f: String| f@) == fields(line@),
{
    let chars = to_chars(line);
    let mut rest = trim_terminator_exec(&chars);
    let mut out: Vec<String> = Vec::new();
    let mut n: usize = MAX_FIELDS;
    loop
        invariant
            1 <= n <= MAX_FIELDS,
            out@.map_values(|f: String| f@) + split_fields(rest@, n as nat) == fields(line@),
        decreases n,
    {
        let k = if n <= 1 { None } else { find_char(&rest, ' ') };
        match k {
            None => {
                let ghost before = out@.map_values(|f: String| f@);
                out.push(from_chars(&rest));
                assert(out@.map_values(|f: String| f@) =~= before + seq![rest@]);
                return out;
            },
            Some(k) => {
                let ghost before = out@.map_values(|f: String| f@);
                let head = slice_chars(&rest, 0, k);
                let tail = slice_chars(&rest, k + 1, rest.len());
                out.push(from_chars(&head));
                assert(out@.map_values(|f: String| f@) =~= before + seq![head@]);
                proof {
                    assert(split_fields(rest@, n as nat) == seq![head@] + split_fields(tail@, (n - 1) as nat));
                }
                rest = tail;
                n = n - 1;
            },
        }
    }
}

/// The answer to a keep-alive probe: `PONG` and the same token.
pub fn pong_line(token: &str) -> (r: String)
    ensures
        r@ == pong_of(token@),
{
    let mut v: Vec<char> = vec!['P', 'O', 'N', 'G', ' '];
    let t = to_chars(token);
    v.extend_from_slice(t.as_slice());
    from_chars(&v)
}

fn prefixed(word: Vec<char>, s: &str) -> (r: String)
    ensures
        r@ == word@ + s@,
{
    let mut v = word;
    let t = to_chars(s);
    v.extend_from_slice(t.as_slice());
    from_chars(&v)
}

/// The lines that open a session, in order: the password, the nickname, and
/// the join of `channel`.
pub fn handshake_lines(username: &str, password: &str, channel: &str) -> (r: Vec<String>)
    ensures
        r@.map_values(|l: String| l@) == handshake_of(username@, password@, channel@),
{
    let mut r: Vec<String> = Vec::new();
    r.push(prefixed(vec!['P', 'A', 'S', 'S', ' '], password));
    r.push(prefixed(vec!['N', 'I', 'C', 'K', ' '], username));
    r.push(prefixed(vec!['J', 'O', 'I', 'N', ' '], channel));
    assert(r@.map_values(|l: String| l@) =~= handshake_of(username@, password@, channel@));
    r
}

} // verus!
