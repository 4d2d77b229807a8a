//! The protocol session: what each line from the server asks of the relay,
//! and what happens once the connection is gone.

use vstd::prelude::*;
use crate::text::{contains, to_chars, from_chars, contains_exec, occurs_at_exec};
use crate::protocol::{
    index_of, fields, ping_word, pong_of, pong_prefix, ping_token, trim_terminator,
    trim_terminator_exec, find_char, lemma_split_head, lemma_split_nonempty, pong_line, author_of,
    body_of, parse_fields, slice_chars, HOST_SUFFIX_LEN, MAX_FIELDS,
};
use crate::reconnect::{Decision, ReconnectModel, ReconnectState};
use crate::transform::{
    links_of, message_of, unlinked, transform, with_author, action_formatted, links_wrapped,
};
use crate::safety::{mention_free, lemma_text_without_mass_mention};

verus! {

/// What the relay does with one line from the server.
#[derive(Debug, PartialEq, Eq)]
pub enum Action {
    /// Write this line back to the server.
    Reply(String),
    /// Send this message to every destination channel.
    Relay(String),
    /// The server welcomed the session.
    Welcomed,
    /// The server rejected the credentials.
    Rejected,
    /// Nothing to do.
    Ignored,
    /// The line has too few fields to act on, and is skipped.
    Malformed,
}

pub open spec fn privmsg_word() -> Seq<char> {
    seq!['P', 'R', 'I', 'V', 'M', 'S', 'G']
}

pub open spec fn welcome_code() -> Seq<char> {
    seq!['0', '0', '1']
}

pub open spec fn rejected_code() -> Seq<char> {
    seq!['4', '6', '4']
}

/// The shortest sender prefix that holds a sigil and a host suffix.
pub open spec fn min_prefix_len() -> int {
    HOST_SUFFIX_LEN + 1
}

/// The message relayed for a chat post with fields `f`.
pub open spec fn relayed(f: Seq<Seq<char>>) -> Seq<char> {
    let body = unlinked(body_of(f[3]));
    message_of(author_of(f[0]), body, links_of(body))
}

/// What follows `[author] ` in the message relayed for fields `f`.
pub open spec fn relayed_text(f: Seq<Seq<char>>) -> Seq<char> {
    let body = unlinked(body_of(f[3]));
    action_formatted(links_wrapped(body, links_of(body)))
}

/// The line is a command `cmd` (and no keep-alive probe).
pub open spec fn is_command(f: Seq<Seq<char>>, cmd: Seq<char>) -> bool {
    f[0] != ping_word() && f.len() >= 2 && f[1] == cmd
}

/// `a` is what the relay does with `line` while it bridges `channel`.
pub open spec fn expected_action(a: Action, channel: Seq<char>, line: Seq<char>) -> bool {
    let f = fields(line);
    if f[0] == ping_word() {
        if f.len() >= 2 {
            match a {
                Action::Reply(s) => s@ == pong_of(ping_token(line)),
                _ => false,
            }
        } else {
            a == Action::Malformed
        }
    } else if f.len() < 2 {
        a == Action::Malformed
    } else if f[1] == privmsg_word() {
        if f.len() < 3 {
            a == Action::Malformed
        } else if !contains(f[2], channel) {
            a == Action::Ignored
        } else if f.len() < 4 || f[0].len() < min_prefix_len() {
            a == Action::Malformed
        } else {
            match a {
                Action::Relay(m) => m@ == relayed(f),
                _ => false,
            }
        }
    } else if f[1] == welcome_code() {
        a == Action::Welcomed
    } else if f[1] == rejected_code() {
        a == Action::Rejected
    } else {
        a == Action::Ignored
    }
}

/// The reconnection state after `line`.
pub open spec fn reconnect_after(s: ReconnectModel, line: Seq<char>) -> ReconnectModel {
    let f = fields(line);
    if is_command(f, welcome_code()) {
        s.welcomed()
    } else if is_command(f, rejected_code()) {
        s.rejected()
    } else {
        s
    }
}

fn same_chars(a: &Vec<char>, b: &Vec<char>) -> (r: bool)
    ensures
        r == (a@ == b@),
{
    if a.len() != b.len() {
        return false;
    }
    let r = occurs_at_exec(a, 0, b);
    assert(a@.subrange(0, b@.len() as int) =~= a@);
    r
}

/// One session with the server, bridging one channel.
pub struct Session {
    channel: String,
    reconnect: ReconnectState,
}

impl Session {
    /// The name of the bridged channel.
    pub closed spec fn source_channel(&self) -> Seq<char> {
        self.channel@
    }

    /// The reconnection state.
    pub closed spec fn policy(&self) -> ReconnectModel {
        self.reconnect@
    }

    pub open spec fn wf(&self) -> bool {
        self.policy().wf()
    }

    pub fn reconnect_state(&self) -> (r: ReconnectState)
        ensures
            r@ == self.policy(),
    {
        self.reconnect
    }

    /// A session for `channel`, before any disconnect.
    pub fn new(channel: String) -> (r: Session)
        ensures
            r.source_channel() == channel@,
            r.policy() == ReconnectModel::fresh(),
            r.wf(),
    {
        Session { channel, reconnect: ReconnectState::new() }
    }

    /// Acts on one line from the server: answers a keep-alive probe with the
    /// same token, turns a chat post to the bridged channel into a message,
    /// and follows a welcome or a rejection of the credentials.
    pub fn on_line(&mut self, line: &str) -> (r: Action)
        requires
            old(self).wf(),
        ensures
            expected_action(r, old(self).source_channel(), line@),
            final(self).source_channel() == old(self).source_channel(),
            final(self).policy() == reconnect_after(old(self).policy(), line@),
            final(self).wf(),
    {
        let parts = parse_fields(line);
        let ghost f = fields(line@);
        assert(parts@.len() == f.len());
        assert(f.len() >= 1) by {
            reveal_with_fuel(crate::protocol::split_fields, 1);
        }
        let f0 = to_chars(parts[0].as_str());
        assert(f0@ == f[0]);
        if same_chars(&f0, &vec!['P', 'I', 'N', 'G']) {
            if parts.len() < 2 {
                return Action::Malformed;
            }
            let t = trim_terminator_exec(&to_chars(line));
            proof {
                if index_of(t@, ' ') < 0 {
                    assert(f == seq![t@]);
                }
            }
            match find_char(&t, ' ') {
                Some(k) => {
                    let token = slice_chars(&t, k + 1, t.len());
                    return Action::Reply(pong_line(from_chars(&token).as_str()));
                },
                None => {
                    return Action::Malformed;
                },
            }
        }
        if parts.len() < 2 {
            return Action::Malformed;
        }
        let f1 = to_chars(parts[1].as_str());
        assert(f1@ == f[1]);
        if same_chars(&f1, &vec!['P', 'R', 'I', 'V', 'M', 'S', 'G']) {
            if parts.len() < 3 {
                return Action::Malformed;
            }
            let target = to_chars(parts[2].as_str());
            let channel = to_chars(self.channel.as_str());
            assert(target@ == f[2]);
            if !contains_exec(&target, &channel) {
                return Action::Ignored;
            }
            if parts.len() < 4 || f0.len() < HOST_SUFFIX_LEN + 1 {
                return Action::Malformed;
            }
            let trailing = to_chars(parts[3].as_str());
            assert(trailing@ == f[3]);
            let author = slice_chars(&f0, 1, f0.len() - HOST_SUFFIX_LEN);
            let body = if trailing.len() > 0 {
                slice_chars(&trailing, 1, trailing.len())
            } else {
                trailing
            };
            assert(body@ =~= body_of(f[3]));
            let m = transform(from_chars(&author).as_str(), from_chars(&body).as_str());
            return Action::Relay(m);
        }
        if same_chars(&f1, &vec!['0', '0', '1']) {
            self.reconnect.on_welcome();
            return Action::Welcomed;
        }
        if same_chars(&f1, &vec!['4', '6', '4']) {
            self.reconnect.on_auth_rejected();
            return Action::Rejected;
        }
        Action::Ignored
    }

    /// The connection is gone: what the reconnection policy decides.
    pub fn on_disconnect(&mut self) -> (r: Decision)
        requires
            old(self).wf(),
        ensures
            r == old(self).policy().decision(),
            final(self).policy() == old(self).policy().after_disconnect(),
            final(self).source_channel() == old(self).source_channel(),
            final(self).wf(),
    {
        self.reconnect.on_disconnect()
    }
}

/// A keep-alive probe `PING T` is answered by `PONG ` and exactly `T`, all
/// of it, spaces included.
pub proof fn lemma_ping_echoes_token(a: Action, channel: Seq<char>, line: Seq<char>, token: Seq<char>)
    requires
        expected_action(a, channel, line),
        trim_terminator(line) == ping_word() + seq![' '] + token,
    ensures
        match a {
            Action::Reply(s) => s@ == pong_prefix() + token,
            _ => false,
        },
{
    lemma_split_head(ping_word(), token, MAX_FIELDS as nat);
    lemma_split_nonempty(token, (MAX_FIELDS - 1) as nat);
    let t = trim_terminator(line);
    assert(t.subrange(5, t.len() as int) =~= token);
}

/// A chat post `P PRIVMSG T B` whose target `T` does not name the bridged
/// channel relays nothing, and leaves the reconnection state as it was.
pub proof fn lemma_other_channel_ignored(
    a: Action,
    channel: Seq<char>,
    line: Seq<char>,
    prefix: Seq<char>,
    target: Seq<char>,
    rest: Seq<char>,
    s: ReconnectModel,
)
    requires
        expected_action(a, channel, line),
        trim_terminator(line) == prefix + seq![' '] + privmsg_word() + seq![' '] + target + seq![' ']
            + rest,
        forall|j: int| 0 <= j < prefix.len() ==> prefix[j] != ' ',
        forall|j: int| 0 <= j < target.len() ==> target[j] != ' ',
        prefix != ping_word(),
        !contains(target, channel),
    ensures
        a == Action::Ignored,
        reconnect_after(s, line) == s,
{
    let r2 = target + seq![' '] + rest;
    let r1 = privmsg_word() + seq![' '] + r2;
    assert(trim_terminator(line) =~= prefix + seq![' '] + r1);
    assert(forall|j: int| 0 <= j < privmsg_word().len() ==> privmsg_word()[j] != ' ');
    lemma_split_head(prefix, r1, MAX_FIELDS as nat);
    lemma_split_head(privmsg_word(), r2, (MAX_FIELDS - 1) as nat);
    lemma_split_head(target, rest, (MAX_FIELDS - 2) as nat);
    lemma_split_nonempty(rest, (MAX_FIELDS - 3) as nat);
    let f = fields(line);
    assert(f[0] == prefix && f[1] == privmsg_word() && f[2] == target);
    assert(privmsg_word() != welcome_code() && privmsg_word() != rejected_code()) by {
        assert(privmsg_word().len() != welcome_code().len());
    }
}

/// A relayed chat post is `[`, the author's name, `] ` and a text that holds
/// neither a broadcast mention nor a here mention, whatever the body.
pub proof fn lemma_relay_without_mass_mention(a: Action, channel: Seq<char>, line: Seq<char>)
    requires
        expected_action(a, channel, line),
        a is Relay,
    ensures
        match a {
            Action::Relay(m) => m@ == with_author(author_of(fields(line)[0]), relayed_text(fields(line)))
                && mention_free(relayed_text(fields(line))),
            _ => false,
        },
{
    let f = fields(line);
    let body = unlinked(body_of(f[3]));
    lemma_text_without_mass_mention(body_of(f[3]), links_of(body));
}

} // verus!
