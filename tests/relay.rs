use irc_relay::config::{parse_targets, SOURCE_CHANNEL};
use irc_relay::dispatch::{deliveries, Delivery};
use irc_relay::protocol::{handshake_lines, parse_fields, pong_line};
use irc_relay::reconnect::{Decision, ReconnectState};
use irc_relay::session::{Action, Session};
use irc_relay::transform::{
    finish_message, format_action, neutralize_mentions, strip_role_mentions, transform, wrap_links,
};

fn session() -> Session {
    Session::new(SOURCE_CHANNEL.to_string())
}

fn relayed(line: &str) -> Action {
    session().on_line(line)
}

#[test]
fn ping_is_answered_with_same_token() {
    let mut s = session();
    assert_eq!(s.on_line("PING :cho.ppy.sh\r\n"), Action::Reply("PONG :cho.ppy.sh".to_string()));
    assert_eq!(s.on_line("PING 12345\n"), Action::Reply("PONG 12345".to_string()));
    assert_eq!(pong_line("xyz"), "PONG xyz");
}

#[test]
fn ping_token_with_spaces_is_echoed_whole() {
    let mut s = session();
    assert_eq!(s.on_line("PING :a b\r\n"), Action::Reply("PONG :a b".to_string()));
    assert_eq!(s.on_line("PING x y z w\n"), Action::Reply("PONG x y z w".to_string()));
    assert_eq!(s.on_line("PING \r\n"), Action::Reply("PONG ".to_string()));
}

#[test]
fn ping_without_token_is_malformed() {
    assert_eq!(relayed("PING\r\n"), Action::Malformed);
}

#[test]
fn short_line_is_malformed() {
    assert_eq!(relayed("NOTICE\r\n"), Action::Malformed);
    assert_eq!(relayed(":alice!cho@ppy.sh PRIVMSG\r\n"), Action::Malformed);
    assert_eq!(relayed(":alice!cho@ppy.sh PRIVMSG #vietnamese\r\n"), Action::Malformed);
}

#[test]
fn short_prefix_is_malformed() {
    assert_eq!(relayed(":bob PRIVMSG #vietnamese :hi\r\n"), Action::Malformed);
}

#[test]
fn chat_post_is_relayed() {
    assert_eq!(
        relayed(":alice!cho@ppy.sh PRIVMSG #vietnamese :hello there\r\n"),
        Action::Relay("[alice] hello there".to_string())
    );
}

#[test]
fn chat_post_to_other_channel_is_ignored() {
    assert_eq!(relayed(":alice!cho@ppy.sh PRIVMSG #english :hello\r\n"), Action::Ignored);
    assert_eq!(relayed(":alice!cho@ppy.sh PRIVMSG bob :hello\r\n"), Action::Ignored);
}

#[test]
fn other_commands_are_ignored() {
    assert_eq!(relayed(":cho.ppy.sh 372 alice :motd\r\n"), Action::Ignored);
    assert_eq!(relayed(":alice!cho@ppy.sh JOIN #vietnamese\r\n"), Action::Ignored);
}

#[test]
fn mentions_are_neutralized() {
    assert_eq!(neutralize_mentions("hi @everyone and @here!"), "hi at-everyone and at-here!");
    let out = relayed(":alice!cho@ppy.sh PRIVMSG #vietnamese :@everyone @here @@everyoneeveryone\r\n");
    match out {
        Action::Relay(m) => {
            assert!(!m.contains("@everyone"));
            assert!(!m.contains("@here"));
            assert_eq!(m, "[alice] at-everyone at-here @at-everyoneeveryone");
        }
        other => panic!("unexpected {:?}", other),
    }
}

#[test]
fn role_mentions_become_placeholders() {
    assert_eq!(
        strip_role_mentions("hi <@&123456789012345678> and <@&12345678901234567>"),
        "hi at-role-123456789012345678 and at-role-12345678901234567"
    );
    assert_eq!(strip_role_mentions("<@&1234567890123456789>"), "at-role-1234567890123456789");
}

#[test]
fn role_mentions_of_other_lengths_stay() {
    assert_eq!(strip_role_mentions("<@&1234567890123456>"), "<@&1234567890123456>");
    assert_eq!(strip_role_mentions("<@&12345678901234567890>"), "<@&12345678901234567890>");
    assert_eq!(strip_role_mentions("<@&12345678901234567"), "<@&12345678901234567");
}

#[test]
fn repeated_link_is_wrapped_once_each() {
    assert_eq!(
        transform("alice", "check https://a.example and https://a.example"),
        "[alice] check <https://a.example> and <https://a.example>"
    );
}

#[test]
fn bare_domain_is_wrapped() {
    assert_eq!(transform("dave", "look example.org/foo now"), "[dave] look <example.org/foo> now");
}

#[test]
fn wrap_links_skips_repeats_and_empty() {
    let links = vec!["http://x.io".to_string(), "".to_string(), "http://x.io".to_string()];
    assert_eq!(wrap_links("a http://x.io b", &links), "a <http://x.io> b");
    assert_eq!(wrap_links("no links", &vec![]), "no links");
}

#[test]
fn action_post_is_reformatted() {
    assert_eq!(transform("bob", "\u{1}ACTION waves\u{1}"), "[bob] (*) waves");
    assert_eq!(format_action("\u{1}ACTION   dances\u{1}"), "(*) dances");
    assert_eq!(format_action("\u{1}ACTION\u{1}"), "(*) ");
    assert_eq!(format_action("\u{1}ACTIONX\u{1}"), "\u{1}ACTIONX\u{1}");
    assert_eq!(format_action("plain"), "plain");
}

#[test]
fn action_line_from_server() {
    assert_eq!(
        relayed(":bob!cho@ppy.sh PRIVMSG #vietnamese :\u{1}ACTION waves\u{1}\r\n"),
        Action::Relay("[bob] (*) waves".to_string())
    );
}

#[test]
fn finish_message_uses_given_links() {
    let links = vec!["https://b.example".to_string()];
    assert_eq!(
        finish_message("carol", "see https://b.example", &links),
        "[carol] see <https://b.example>"
    );
}

#[test]
fn backoff_grows_and_caps() {
    let mut s = session();
    for n in 0..70u64 {
        let expected = std::cmp::min(n * 1000, 60000);
        assert_eq!(s.on_disconnect(), Decision::Reconnect { wait_ms: expected });
    }
    assert_eq!(s.reconnect_state().delay_ms(), 60000);
}

#[test]
fn welcome_resets_backoff() {
    let mut s = session();
    for _ in 0..5 {
        s.on_disconnect();
    }
    assert_eq!(s.on_line(":cho.ppy.sh 001 alice :Welcome to osu!Bancho.\r\n"), Action::Welcomed);
    assert_eq!(s.on_disconnect(), Decision::Reconnect { wait_ms: 1000 });
    assert_eq!(s.on_disconnect(), Decision::Reconnect { wait_ms: 2000 });
}

#[test]
fn rejection_stops_reconnecting() {
    let mut s = session();
    assert_eq!(s.on_line(":cho.ppy.sh 464 alice :Bad authentication token.\r\n"), Action::Rejected);
    assert_eq!(s.on_disconnect(), Decision::Terminate);
    assert_eq!(s.on_line(":cho.ppy.sh 001 alice :Welcome\r\n"), Action::Welcomed);
    assert_eq!(s.on_disconnect(), Decision::Terminate);
    assert!(!s.reconnect_state().allow_reconnect());
}

#[test]
fn rejection_when_already_disallowed() {
    let mut r = ReconnectState::new();
    r.on_auth_rejected();
    r.on_auth_rejected();
    assert_eq!(r.on_disconnect(), Decision::Terminate);
}

#[test]
fn fields_split_on_first_three_spaces() {
    assert_eq!(parse_fields("a b c d e\r\n"), vec!["a", "b", "c", "d e"]);
    assert_eq!(parse_fields("one"), vec!["one"]);
    assert_eq!(parse_fields(""), vec![""]);
}

#[test]
fn handshake_order() {
    assert_eq!(
        handshake_lines("alice", "SECRET-REDACTED", "#vietnamese"),
        vec!["PASS SECRET-REDACTED", "NICK alice", "JOIN #vietnamese"]
    );
}

#[test]
fn fan_out_in_channel_order() {
    let targets = vec![11u64, 22, 33];
    let a = deliveries(&targets, &"A".to_string());
    let b = deliveries(&targets, &"B".to_string());
    let all: Vec<Delivery> = a.into_iter().chain(b).collect();
    let order: Vec<(u64, String)> = all.into_iter().map(|d| (d.channel, d.text)).collect();
    assert_eq!(
        order,
        vec![
            (11, "A".to_string()),
            (22, "A".to_string()),
            (33, "A".to_string()),
            (11, "B".to_string()),
            (22, "B".to_string()),
            (33, "B".to_string()),
        ]
    );
    assert!(deliveries(&vec![], &"A".to_string()).is_empty());
}

#[test]
fn targets_drop_bad_entries() {
    assert_eq!(parse_targets("123,,abc, 5,456,+7"), vec![123, 456, 7]);
    assert_eq!(parse_targets(""), Vec::<u64>::new());
    assert_eq!(parse_targets("18446744073709551615,18446744073709551616"), vec![u64::MAX]);
}
