use mafia::clock::ClockTime;
use mafia::message::{Message, MuteLevel};
use mafia::chat::private_line;
use mafia::order::{dedup_adjacent, sort_strs, str_eq, str_le};
use mafia::text::{join, trim_str, two_digits};

#[test]
fn parse_public_line() {
    match Message::parse("hi all") {
        Message::Public(body) => assert_eq!(body, "hi all"),
        _ => panic!("expected a public message"),
    }
}

#[test]
fn parse_empty_line_is_public() {
    match Message::parse("") {
        Message::Public(body) => assert_eq!(body, ""),
        _ => panic!("expected a public message"),
    }
}

#[test]
fn parse_private_recipients_and_body() {
    match Message::parse("+a +b +c hello world") {
        Message::Private(body, recips) => {
            assert_eq!(recips, vec!["a".to_string(), "b".to_string(), "c".to_string()]);
            assert_eq!(body, "hello world");
        }
        _ => panic!("expected a private message"),
    }
}

#[test]
fn reformat_private_keeps_order_and_body() {
    match Message::parse("+a +b +c hello world") {
        Message::Private(body, recips) => {
            let t = ClockTime::new(12, 34);
            let line = private_line(t, "x", &recips, &body);
            assert_eq!(line, "12:34 [x]->[a]+[b]+[c] hello world\n");
            // sorting and deduplication leave the body untouched
            let sorted = dedup_adjacent(sort_strs(recips));
            assert_eq!(sorted, vec!["a".to_string(), "b".to_string(), "c".to_string()]);
            assert_eq!(body, "hello world");
        }
        _ => panic!("expected a private message"),
    }
}

#[test]
fn parse_private_preserves_inner_whitespace() {
    match Message::parse("+a   hello   world ") {
        Message::Private(body, recips) => {
            assert_eq!(recips, vec!["a".to_string()]);
            assert_eq!(body, "hello   world ");
        }
        _ => panic!("expected a private message"),
    }
}

#[test]
fn parse_private_without_body() {
    match Message::parse("+a +b") {
        Message::Private(body, recips) => {
            assert_eq!(recips, vec!["a".to_string(), "b".to_string()]);
            assert_eq!(body, "");
        }
        _ => panic!("expected a private message"),
    }
}

#[test]
fn parse_command_and_action() {
    match Message::parse("!help") {
        Message::Command(cmd) => assert_eq!(cmd, "help"),
        _ => panic!("expected a command"),
    }
    match Message::parse("!!bob") {
        Message::Action(arg) => assert_eq!(arg, "bob"),
        _ => panic!("expected an action"),
    }
    match Message::parse("!") {
        Message::Command(cmd) => assert_eq!(cmd, ""),
        _ => panic!("expected a command"),
    }
}

#[test]
fn mute_levels() {
    let allow = MuteLevel::AllowAll;
    assert!(allow.public_allowed());
    assert!(allow.private_allowed());
    assert_eq!(allow.get_reason(), "");
    let deny_public = MuteLevel::DenyPublic("no public\n".to_string());
    assert!(!deny_public.public_allowed());
    assert!(deny_public.private_allowed());
    assert_eq!(deny_public.get_reason(), "no public\n");
    let deny_all = MuteLevel::DenyAll("quiet\n".to_string());
    assert!(!deny_all.public_allowed());
    assert!(!deny_all.private_allowed());
    assert_eq!(deny_all.get_reason(), "quiet\n");
}

#[test]
fn text_utilities() {
    assert_eq!(trim_str("  hi \r"), "hi");
    assert_eq!(trim_str(""), "");
    assert_eq!(trim_str(" \t "), "");
    assert_eq!(two_digits(7), "07");
    assert_eq!(two_digits(23), "23");
    let parts = vec!["a".to_string(), "b".to_string(), "c".to_string()];
    assert_eq!(join(&parts, ", "), "a, b, c");
    assert_eq!(join(&Vec::new(), ", "), "");
    let t = ClockTime::new(9, 5);
    assert_eq!(mafia::clock::format_hh_mm(t), "09:05");
}

#[test]
fn ordering_utilities() {
    assert!(str_le("abc", "abd"));
    assert!(!str_le("b", "abc"));
    assert!(str_le("ab", "abc"));
    assert!(str_eq("same", "same"));
    assert!(!str_eq("same", "sane"));
    let v = vec!["bob".to_string(), "alice".to_string(), "bob".to_string()];
    let sorted = sort_strs(v);
    assert_eq!(sorted, vec!["alice".to_string(), "bob".to_string(), "bob".to_string()]);
    let unique = dedup_adjacent(sorted);
    assert_eq!(unique, vec!["alice".to_string(), "bob".to_string()]);
}
