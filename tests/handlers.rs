use std::cell::RefCell;
use std::collections::HashMap;

use chatbot::backoff::JoinState;
use chatbot::dispatch::{route, string_eq};
use chatbot::event::{Event, Membership, Room, RoomState};
use chatbot::plugins::{
    dispatch_to, is_blank, reply, strip_prefix, Outcome, AutoJoinPlugin, BacronymPlugin, EventForwarder, HandlerError,
    PartyPlugin, Plugin, Reaction, WoopPlugin, HANDLER_COUNT,
};

fn room(id: &str, state: RoomState) -> Room {
    Room { room_id: id.to_owned(), state }
}

#[test]
fn reply_only_into_joined_rooms_with_text() {
    assert!(matches!(
        reply(&room("!r", RoomState::Joined), "hi".to_owned()),
        Some(Reaction::Send { room_id, text }) if room_id == "!r" && text == "hi"
    ));
    assert!(reply(&room("!r", RoomState::Invited), "hi".to_owned()).is_none());
    assert!(reply(&room("!r", RoomState::Joined), " \t\n\u{3000}".to_owned()).is_none());
    assert!(reply(&room("!r", RoomState::Joined), String::new()).is_none());
}

#[test]
fn blank_follows_trim() {
    for s in ["", " ", "\u{85}\u{a0}", "\u{2009}"] {
        assert_eq!(is_blank(s), s.trim().is_empty());
        assert!(is_blank(s));
    }
    for s in ["x", " x ", "\u{200b}"] {
        assert_eq!(is_blank(s), s.trim().is_empty());
        assert!(!is_blank(s));
    }
}

#[test]
fn string_eq_compares_characters() {
    assert!(string_eq("abc", "abc"));
    assert!(!string_eq("abc", "abd"));
    assert!(!string_eq("abc", "ab"));
    assert!(string_eq("", ""));
}

#[test]
fn party_answers_only_its_command() {
    let p = PartyPlugin {};
    let joined = room("!r", RoomState::Joined);
    assert!(matches!(p.room_message(&joined, ".party"), Ok(Some(Reaction::Send { .. }))));
    assert!(matches!(p.room_message(&joined, ".party now"), Ok(None)));
    assert!(matches!(p.room_message(&joined, "party"), Ok(None)));
    assert!(matches!(p.room_message(&room("!r", RoomState::Invited), ".party"), Ok(None)));
    assert!(matches!(p.membership_change(&joined, Membership::Invite), Ok(None)));
}

#[test]
fn woop_hands_over_argument() {
    let w = WoopPlugin {};
    let joined = room("!r", RoomState::Joined);
    match w.room_message(&joined, ".woop 2.5") {
        Ok(Some(Reaction::Woop { room, argument })) => {
            assert_eq!(room.room_id, "!r");
            assert_eq!(argument, " 2.5");
        }
        other => panic!("expected woops, got {:?}", other),
    }
    assert!(matches!(w.room_message(&joined, ".woop"), Ok(Some(Reaction::Woop { argument, .. })) if argument.is_empty()));
    assert!(matches!(w.room_message(&joined, "woop"), Ok(None)));
    assert!(matches!(w.room_message(&joined, ".wo"), Ok(None)));
}

#[test]
fn strip_prefix_cases() {
    assert_eq!(strip_prefix(".woop 10", ".woop"), Some(" 10".to_owned()));
    assert_eq!(strip_prefix("🎉.woop", ".woop"), None);
    assert_eq!(strip_prefix("", ""), Some(String::new()));
}

#[test]
fn autojoin_on_invite_only() {
    let a = AutoJoinPlugin {};
    match a.membership_change(&room("!r", RoomState::Invited), Membership::Invite) {
        Ok(Some(Reaction::Join(j))) => {
            assert_eq!(j.room_id, "!r");
            assert_eq!(j.state, JoinState::Attempting { delay: 2 });
        }
        other => panic!("expected a join, got {:?}", other),
    }
    assert!(matches!(a.membership_change(&room("!r", RoomState::Joined), Membership::Invite), Ok(None)));
    assert!(matches!(a.membership_change(&room("!r", RoomState::Invited), Membership::Leave), Ok(None)));
    assert!(matches!(a.room_message(&room("!r", RoomState::Joined), ".party"), Ok(None)));
}

#[test]
fn bacronym_handler_replies() {
    let mut words: HashMap<u32, Vec<String>> = HashMap::new();
    words.insert('o' as u32, vec!["otter".to_owned()]);
    words.insert('k' as u32, vec!["koala".to_owned()]);
    let mut plugin = BacronymPlugin::new();
    plugin.words = words;
    let joined = room("!r", RoomState::Joined);
    match plugin.room_message(&joined, ".b OK") {
        Ok(Some(Reaction::Send { room_id, text })) => {
            assert_eq!(room_id, "!r");
            assert_eq!(text, "otter koala");
        }
        other => panic!("expected a reply, got {:?}", other),
    }
    assert!(matches!(plugin.room_message(&joined, "hello"), Ok(None)));
    assert!(matches!(plugin.room_message(&joined, ".b 123"), Ok(None)));
}

#[test]
fn bacronym_handler_with_invalid_pattern_fails() {
    let plugin = BacronymPlugin { words: HashMap::new(), pattern: "(".to_owned() };
    assert_eq!(plugin.extract_acronym(".b ok"), None);
    assert_eq!(plugin.room_message(&room("!r", RoomState::Joined), ".b ok").unwrap_err(), HandlerError::Unavailable);
}

#[test]
fn failing_handler_does_not_stop_others() {
    let mut forwarder = EventForwarder::new();
    forwarder.bacronym = BacronymPlugin { words: HashMap::new(), pattern: "(".to_owned() };
    let events = vec![Event::Message {
        room: room("!r", RoomState::Joined),
        sender: "@alice:x".to_owned(),
        body: Some(".party".to_owned()),
    }];
    let deliveries = route("@bot:x", &events, HANDLER_COUNT);
    assert_eq!(deliveries.len(), 4);
    assert!(forwarder.handle(&deliveries[1]).is_err());
    let reactions = forwarder.dispatch(&deliveries);
    assert_eq!(reactions.len(), 1);
    assert!(matches!(&reactions[0], Reaction::Send { room_id, .. } if room_id == "!r"));
}

#[test]
fn forwarder_routes_invite_to_autojoin() {
    let forwarder = EventForwarder::new();
    let events = vec![Event::Member {
        room: room("!r", RoomState::Invited),
        target: "@bot:x".to_owned(),
        change: Membership::Invite,
    }];
    let reactions = forwarder.dispatch(&route("@bot:x", &events, HANDLER_COUNT));
    assert_eq!(reactions.len(), 1);
    assert!(matches!(&reactions[0], Reaction::Join(j) if j.room_id == "!r"));
}

enum TestPlugin {
    Failing,
    Echo(RefCell<Vec<String>>),
}

impl Plugin for TestPlugin {
    fn room_message(&self, room: &Room, msg_body: &str) -> Outcome {
        match self {
            TestPlugin::Failing => Err(HandlerError::Unavailable),
            TestPlugin::Echo(seen) => {
                seen.borrow_mut().push(msg_body.to_owned());
                Ok(reply(room, msg_body.to_owned()))
            }
        }
    }
}

fn seen_by(p: &TestPlugin) -> Vec<String> {
    match p {
        TestPlugin::Echo(seen) => seen.borrow().clone(),
        TestPlugin::Failing => Vec::new(),
    }
}

#[test]
fn failing_plugin_isolated_from_succeeding_one() {
    let plugins = vec![TestPlugin::Failing, TestPlugin::Echo(RefCell::new(Vec::new()))];
    let events = vec![Event::Message {
        room: room("!r", RoomState::Joined),
        sender: "@alice:x".to_owned(),
        body: Some("hello".to_owned()),
    }];
    let deliveries = route("@bot:x", &events, plugins.len());
    let reactions = dispatch_to(&plugins, &deliveries);
    assert_eq!(seen_by(&plugins[1]), vec!["hello".to_owned()]);
    assert_eq!(reactions.len(), 1);
    assert!(matches!(&reactions[0], Reaction::Send { room_id, text } if room_id == "!r" && text == "hello"));
}

#[test]
fn dispatch_to_skips_unknown_handlers_and_defaults() {
    let plugins = vec![TestPlugin::Echo(RefCell::new(Vec::new()))];
    let events = vec![Event::Member {
        room: room("!r", RoomState::Invited),
        target: "@bot:x".to_owned(),
        change: Membership::Invite,
    }];
    assert!(dispatch_to(&plugins, &route("@bot:x", &events, 3)).is_empty());
    assert!(seen_by(&plugins[0]).is_empty());
}
