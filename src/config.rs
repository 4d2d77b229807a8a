//! The list of destination channels, read from its comma-separated form.

use vstd::prelude::*;
use crate::text::to_chars;
use crate::protocol::{index_of, find_char, slice_chars};

verus! {

/// The bridged source channel.
pub const SOURCE_CHANNEL: &'static str = "#vietnamese";

/// `s` cut at every `c`.
pub open spec fn split_all(s: Seq<char>, c: char) -> Seq<Seq<char>>
    decreases s.len(),
{
    let k = index_of(s, c);
    if k < 0 || k >= s.len() {
        seq![s]
    } else {
        seq![s.subrange(0, k)] + split_all(s.subrange(k + 1, s.len() as int), c)
    }
}

pub open spec fn is_decimal(c: char) -> bool {
    '0' <= c <= '9'
}

/// The number that the decimal digits `s` write.
pub open spec fn decimal_value(s: Seq<char>) -> int
    decreases s.len(),
{
    if s.len() == 0 {
        0
    } else {
        decimal_value(s.drop_last()) * 10 + (s.last() as int - '0' as int)
    }
}

/// The digits of an entry: without one leading `+`, as `u64`'s parser reads it.
pub open spec fn unsigned_digits(s: Seq<char>) -> Seq<char> {
    if s.len() > 0 && s[0] == '+' { s.drop_first() } else { s }
}

/// The channel identifier that an entry names, if it names one.
pub open spec fn entry_value(s: Seq<char>) -> Option<u64> {
    let d = unsigned_digits(s);
    if d.len() > 0 && (forall|j: int| 0 <= j < d.len() ==> is_decimal(#[trigger] d[j]))
        && decimal_value(d) <= u64::MAX {
        Some(decimal_value(d) as u64)
    } else {
        None
    }
}

/// The identifiers that the entries name, in order; the others are dropped.
pub open spec fn values_of(entries: Seq<Seq<char>>) -> Seq<u64>
    decreases entries.len(),
{
    if entries.len() == 0 {
        Seq::empty()
    } else {
        let prev = values_of(entries.drop_last());
        match entry_value(entries.last()) {
            Some(v) => prev.push(v),
            None => prev,
        }
    }
}

pub open spec fn targets_of(s: Seq<char>) -> Seq<u64> {
    values_of(split_all(s, ','))
}

proof fn lemma_decimal_grows(s: Seq<char>)
    requires
        s.len() > 0,
        forall|j: int| 0 <= j < s.len() ==> is_decimal(#[trigger] s[j]),
    ensures
        decimal_value(s) >= decimal_value(s.drop_last()),
        decimal_value(s.drop_last()) >= 0,
    decreases s.len(),
{
    if s.len() > 1 {
        lemma_decimal_grows(s.drop_last());
    }
    assert(is_decimal(s[s.len() - 1]));
}

/// The identifier that `s` names, as `u64`'s parser reads it.
fn parse_entry(s: &Vec<char>) -> (r: Option<u64>)
    ensures
        r == entry_value(s@),
{
    let start: usize = if s.len() > 0 && s[0] == '+' { 1 } else { 0 };
    let ghost d = unsigned_digits(s@);
    assert(d =~= s@.subrange(start as int, s@.len() as int));
    if start >= s.len() {
        return None;
    }
    let mut v: u64 = 0;
    let mut i: usize = start;
    assert(d.subrange(0, 0) =~= Seq::<char>::empty());
    while i < s.len()
        invariant
            start < s@.len(),
            start <= i <= s@.len(),
            d == s@.subrange(start as int, s@.len() as int),
            d == unsigned_digits(s@),
            forall|j: int| 0 <= j < i - start ==> is_decimal(#[trigger] d[j]),
            v == decimal_value(d.subrange(0, i - start)),
        decreases s@.len() - i,
    {
        let c = s[i];
        let ghost pre = d.subrange(0, i - start);
        let ghost next = d.subrange(0, i - start + 1);
        assert(next.drop_last() =~= pre);
        if c < '0' || c > '9' {
            assert(d[i - start] == c);
            assert(!is_decimal(d[i - start]));
            return None;
        }
        let digit: u64 = (c as u32 - '0' as u32) as u64;
        if v > (u64::MAX - digit) / 10 {
            proof {
                assert(v * 10 + digit > u64::MAX) by (nonlinear_arith)
                    requires
                        v > (u64::MAX - digit) / 10,
                        digit <= 9,
                ;
                assert(d[i - start] == c);
                assert(decimal_value(next) > u64::MAX);
                if forall|j: int| 0 <= j < d.len() ==> is_decimal(#[trigger] d[j]) {
                    lemma_prefix_too_large(d, i - start + 1, d.len() as int);
                    assert(d.subrange(0, d.len() as int) =~= d);
                }
            }
            return None;
        }
        proof {
            assert(v * 10 + digit <= u64::MAX) by (nonlinear_arith)
                requires
                    v <= (u64::MAX - digit) / 10,
                    digit <= 9,
            ;
        }
        v = v * 10 + digit;
        i = i + 1;
    }
    assert(d.subrange(0, d.len() as int) =~= d);
    Some(v)
}

proof fn lemma_prefix_too_large(d: Seq<char>, a: int, m: int)
    requires
        0 < a <= m <= d.len(),
        decimal_value(d.subrange(0, a)) > u64::MAX,
        forall|j: int| 0 <= j < m ==> is_decimal(#[trigger] d[j]),
    ensures
        decimal_value(d.subrange(0, m)) > u64::MAX,
    decreases m - a,
{
    if m > a {
        lemma_prefix_too_large(d, a, m - 1);
        let p = d.subrange(0, m);
        assert(p.drop_last() =~= d.subrange(0, m - 1));
        lemma_decimal_grows(p);
    }
}

/// The destination channel identifiers in `list`, a comma-separated list, in
/// order; an entry that names no `u64` (empty, blank, not a number, too
/// large) is dropped.
pub fn parse_targets(list: &str) -> (r: Vec<u64>)
    ensures
        r@ == targets_of(list@),
{
    let mut rest = to_chars(list);
    let mut out: Vec<u64> = Vec::new();
    let ghost done: Seq<Seq<char>> = Seq::empty();
    loop
        invariant
            done + split_all(rest@, ',') == split_all(list@, ','),
            out@ == values_of(done),
        decreases rest@.len(),
    {
        match find_char(&rest, ',') {
            None => {
                let e = parse_entry(&rest);
                proof {
                    assert(split_all(rest@, ',') == seq![rest@]);
                    assert((done + seq![rest@]).drop_last() =~= done);
                }
                if let Some(v) = e {
                    out.push(v);
                }
                proof {
                    assert(done + split_all(rest@, ',') =~= done + seq![rest@]);
                }
                return out;
            },
            Some(k) => {
                let n = rest.len();
                let entry = slice_chars(&rest, 0, k);
                let tail = slice_chars(&rest, k + 1, n);
                let e = parse_entry(&entry);
                proof {
                    assert(split_all(rest@, ',') == seq![entry@] + split_all(tail@, ','));
                    assert((done + seq![entry@]).drop_last() =~= done);
                    assert(done + seq![entry@] + split_all(tail@, ',') =~= done + split_all(rest@, ','));
                    done = done + seq![entry@];
                }
                if let Some(v) = e {
                    out.push(v);
                }
                rest = tail;
            },
        }
    }
}

} // verus!
