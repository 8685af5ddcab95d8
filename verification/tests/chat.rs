use mafia::chat::{ChatAction, ChatRequest, ChatService, GameEvent, Player};
use mafia::clock::ClockTime;
use mafia::login::User;
use mafia::message::MuteLevel;
use mafia::socket::{SocketProxy, SocketRequest};

fn user(id: u64, login: &str) -> User {
    User { login: login.to_string(), socket: SocketProxy { id } }
}

fn sent(act: &ChatAction) -> (u64, String) {
    match act {
        ChatAction::ToSocket(SocketRequest::SendMessage(id, m)) => (*id, m.payload().clone()),
        _ => panic!("expected a send to the socket service"),
    }
}

fn t() -> ClockTime {
    ClockTime::new(14, 5)
}

/// A room with alice (1), bob (2) and carol (3), all allowed to chat.
fn room() -> ChatService {
    let mut chat = ChatService::new("help text\n".to_string());
    for (id, name) in [(1u64, "alice"), (2u64, "bob"), (3u64, "carol")] {
        chat.handle_new_user(user(id, name), t());
        chat.handle_mute_request(id, MuteLevel::AllowAll);
    }
    chat
}

#[test]
fn new_user_is_announced_to_the_room() {
    let mut chat = ChatService::new("h".to_string());
    let acts = chat.handle_new_user(user(1, "alice"), t());
    // alice herself hears the banner, then the game learns of her
    assert_eq!(acts.len(), 2);
    assert_eq!(sent(&acts[0]), (1, "14:05 Connected: alice\n".to_string()));
    match &acts[1] {
        ChatAction::Game(GameEvent::Connected(p)) => {
            assert_eq!(p.get_id(), 1);
            assert_eq!(p.get_login(), "alice");
        }
        _ => panic!("expected the game to learn of the player"),
    }
    let acts = chat.handle_new_user(user(2, "bob"), t());
    assert_eq!(acts.len(), 3);
    assert_eq!(sent(&acts[0]), (1, "14:05 Connected: bob\n".to_string()));
    assert_eq!(sent(&acts[1]), (2, "14:05 Connected: bob\n".to_string()));
}

#[test]
fn new_user_starts_muted_as_observer() {
    let mut chat = ChatService::new("h".to_string());
    chat.handle_new_user(user(1, "alice"), t());
    let acts = chat.handle_new_message(1, "hi".to_string(), t());
    assert_eq!(acts.len(), 1);
    assert_eq!(sent(&acts[0]), (1, "You are observer, you can not use chat.\n".to_string()));
}

#[test]
fn public_chat_reaches_everyone() {
    let chat = room();
    let acts = chat.handle_new_message(1, "hi all".to_string(), t());
    assert_eq!(acts.len(), 3);
    assert_eq!(sent(&acts[0]), (1, "14:05 [alice] hi all\n".to_string()));
    assert_eq!(sent(&acts[1]), (2, "14:05 [alice] hi all\n".to_string()));
    assert_eq!(sent(&acts[2]), (3, "14:05 [alice] hi all\n".to_string()));
}

#[test]
fn empty_public_line_is_dropped() {
    let chat = room();
    let acts = chat.handle_new_message(1, "".to_string(), t());
    assert_eq!(acts.len(), 0);
}

#[test]
fn private_chat_reaches_the_listed_and_the_sender() {
    let chat = room();
    let acts = chat.handle_new_message(1, "+bob +carol hello".to_string(), t());
    let line = "14:05 [alice]->[bob]+[carol] hello\n".to_string();
    assert_eq!(acts.len(), 3);
    assert_eq!(sent(&acts[0]), (2, line.clone()));
    assert_eq!(sent(&acts[1]), (3, line.clone()));
    assert_eq!(sent(&acts[2]), (1, line));
}

#[test]
fn empty_private_message_is_an_error() {
    let chat = room();
    let acts = chat.handle_new_message(1, "+bob".to_string(), t());
    assert_eq!(acts.len(), 1);
    assert_eq!(sent(&acts[0]), (1, "Can't send an empty private message.\n".to_string()));
}

#[test]
fn unknown_recipient_delivers_nothing() {
    let chat = room();
    let acts = chat.handle_new_message(1, "+ghost hi".to_string(), t());
    assert_eq!(acts.len(), 1);
    assert_eq!(sent(&acts[0]), (1, "Unknown user(s): ghost\n".to_string()));
}

#[test]
fn unknown_recipients_are_listed_in_order() {
    let chat = room();
    let acts = chat.handle_new_message(1, "+zz +bob +aa hi".to_string(), t());
    assert_eq!(acts.len(), 1);
    assert_eq!(sent(&acts[0]), (1, "Unknown user(s): zz, aa\n".to_string()));
}

#[test]
fn self_addressed_private_arrives_once() {
    let chat = room();
    let acts = chat.handle_new_message(1, "+alice +alice hi".to_string(), t());
    assert_eq!(acts.len(), 1);
    assert_eq!(sent(&acts[0]), (1, "14:05 [alice]->[alice]+[alice] hi\n".to_string()));
}

#[test]
fn duplicate_recipients_get_one_copy() {
    let chat = room();
    let acts = chat.handle_new_message(1, "+bob +bob hi".to_string(), t());
    let line = "14:05 [alice]->[bob]+[bob] hi\n".to_string();
    assert_eq!(acts.len(), 2);
    assert_eq!(sent(&acts[0]), (2, line.clone()));
    assert_eq!(sent(&acts[1]), (1, line));
}

#[test]
fn muted_sender_cannot_chat_privately() {
    let mut chat = room();
    chat.handle_mute_request(1, MuteLevel::DenyAll("quiet\n".to_string()));
    let acts = chat.handle_new_message(1, "+bob hi".to_string(), t());
    assert_eq!(acts.len(), 1);
    assert_eq!(sent(&acts[0]), (1, "quiet\n".to_string()));
}

#[test]
fn deny_public_still_allows_private() {
    let mut chat = room();
    chat.handle_mute_request(1, MuteLevel::DenyPublic("no public\n".to_string()));
    let acts = chat.handle_new_message(1, "hi".to_string(), t());
    assert_eq!(acts.len(), 1);
    assert_eq!(sent(&acts[0]), (1, "no public\n".to_string()));
    let acts = chat.handle_new_message(1, "+bob hi".to_string(), t());
    assert_eq!(acts.len(), 2);
}

#[test]
fn help_is_pure_and_repeatable() {
    let chat = room();
    let first = chat.handle_new_message(1, "!help".to_string(), t());
    assert_eq!(first.len(), 1);
    assert_eq!(sent(&first[0]), (1, "help text\n".to_string()));
    let again = chat.handle_new_message(1, "!help".to_string(), ClockTime::new(23, 59));
    assert_eq!(again.len(), 1);
    assert_eq!(sent(&again[0]), (1, "help text\n".to_string()));
}

#[test]
fn quit_closes_the_senders_connection() {
    let chat = room();
    let acts = chat.handle_new_message(1, "!quit".to_string(), t());
    assert_eq!(acts.len(), 1);
    assert!(matches!(acts[0], ChatAction::ToSocket(SocketRequest::CloseSocket(1))));
}

#[test]
fn commands_reach_the_game_once() {
    let chat = room();
    let acts = chat.handle_new_message(1, "!play".to_string(), t());
    assert_eq!(acts.len(), 1);
    assert!(matches!(acts[0], ChatAction::Game(GameEvent::CommandPlay(1))));
    let acts = chat.handle_new_message(1, "!observe".to_string(), t());
    assert_eq!(acts.len(), 1);
    assert!(matches!(acts[0], ChatAction::Game(GameEvent::CommandObserve(1))));
    let acts = chat.handle_new_message(1, "!pause".to_string(), t());
    assert_eq!(acts.len(), 1);
    assert!(matches!(acts[0], ChatAction::Game(GameEvent::CommandPause(1))));
    let acts = chat.handle_new_message(1, "!start".to_string(), t());
    assert_eq!(acts.len(), 1);
    assert!(matches!(acts[0], ChatAction::Game(GameEvent::CommandStart(1))));
    let acts = chat.handle_new_message(1, "!list".to_string(), t());
    assert_eq!(acts.len(), 1);
    assert!(matches!(acts[0], ChatAction::Game(GameEvent::CommandList(1))));
}

#[test]
fn unknown_command_answers_the_sender() {
    let chat = room();
    let acts = chat.handle_new_message(1, "!dance".to_string(), t());
    assert_eq!(acts.len(), 1);
    assert_eq!(sent(&acts[0]), (1, "Unknown command.\n".to_string()));
}

#[test]
fn actions_are_forwarded_verbatim() {
    let chat = room();
    let acts = chat.handle_new_message(1, "!!bob".to_string(), t());
    assert_eq!(acts.len(), 1);
    match &acts[0] {
        ChatAction::Game(GameEvent::Action(id, arg)) => {
            assert_eq!(*id, 1);
            assert_eq!(arg, "bob");
        }
        _ => panic!("expected an action for the game"),
    }
}

#[test]
fn dropped_user_leaves_no_trace() {
    let mut chat = room();
    let acts = chat.handle_drop_user(2, t());
    // the remaining room hears it, then the game
    assert_eq!(acts.len(), 3);
    assert_eq!(sent(&acts[0]), (1, "14:05 Disconnected: bob\n".to_string()));
    assert_eq!(sent(&acts[1]), (3, "14:05 Disconnected: bob\n".to_string()));
    assert!(matches!(acts[2], ChatAction::Game(GameEvent::Disconnected(2))));
    // bob can no longer be addressed
    let acts = chat.handle_new_message(1, "+bob hi".to_string(), t());
    assert_eq!(acts.len(), 1);
    assert_eq!(sent(&acts[0]), (1, "Unknown user(s): bob\n".to_string()));
    // lines under his old id are dropped
    let acts = chat.handle_new_message(2, "hi".to_string(), t());
    assert_eq!(acts.len(), 0);
}

#[test]
fn player_proxy_builds_requests() {
    let p = Player { user: user(5, "eve") };
    assert_eq!(p.get_id(), 5);
    assert_eq!(p.get_login(), "eve");
    match p.send("x".to_string()) {
        SocketRequest::SendMessage(5, m) => assert_eq!(m.payload(), "x"),
        _ => panic!("expected a send request"),
    }
    assert!(matches!(p.disconnect(), SocketRequest::CloseSocket(5)));
    match p.mute(MuteLevel::AllowAll) {
        ChatRequest::MutePlayer(5, MuteLevel::AllowAll) => {}
        _ => panic!("expected a mute request"),
    }
    match p.send_static("s") {
        SocketRequest::SendMessage(5, m) => assert_eq!(m.payload(), "s"),
        _ => panic!("expected a send request"),
    }
}

#[test]
fn clock_reads_a_valid_time() {
    let now = ClockTime::now();
    assert!(now.hour < 24);
    assert!(now.minute < 60);
}

#[test]
fn user_events_drive_the_chat() {
    let mut chat = ChatService::new("h".to_string());
    let acts = chat.handle_user_event(mafia::login::UserEvent::NewUser(user(1, "alice")));
    assert_eq!(acts.len(), 2);
    assert!(matches!(acts[1], ChatAction::Game(GameEvent::Connected(_))));
    let acts = chat.handle_user_event(mafia::login::UserEvent::NewMessage(1, "!help".to_string()));
    assert_eq!(acts.len(), 1);
    assert_eq!(sent(&acts[0]), (1, "h".to_string()));
    let acts = chat.handle_user_event(mafia::login::UserEvent::DropUser(1));
    assert_eq!(acts.len(), 1);
    assert!(matches!(acts[0], ChatAction::Game(GameEvent::Disconnected(1))));
}
