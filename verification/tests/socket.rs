use mafia::socket::{
    ReadResult, SocketAction, SocketEvent, SocketInput, SocketMessage, SocketProxy, SocketRequest,
    SocketService,
};
use mafia::timer::Timer;

#[test]
fn a_connection_lives_from_accept_to_close() {
    let mut svc = SocketService::new();
    let acts = svc.handle_connection(7);
    assert_eq!(acts.len(), 1);
    match &acts[0] {
        SocketAction::Emit(SocketEvent::NewSocket(p)) => assert_eq!(p.id, 7),
        _ => panic!("expected the new socket to be reported"),
    }
    assert!(svc.has_writer(7));
    let acts = svc.handle_read(ReadResult::Line(7, "hi".to_string()));
    assert_eq!(acts.len(), 1);
    match &acts[0] {
        SocketAction::Emit(SocketEvent::NewMessage(7, line)) => assert_eq!(line, "hi"),
        _ => panic!("expected the line to be reported"),
    }
    let acts = svc.handle_read(ReadResult::Closed(7));
    assert_eq!(acts.len(), 2);
    assert!(matches!(acts[0], SocketAction::CloseWriter(7)));
    assert!(matches!(acts[1], SocketAction::Emit(SocketEvent::ClosedSocket(7))));
    assert!(!svc.has_writer(7));
}

#[test]
fn nothing_follows_a_close() {
    let mut svc = SocketService::new();
    svc.handle_connection(7);
    svc.handle_read(ReadResult::Closed(7));
    // a late line, a late send and a second close all do nothing
    assert_eq!(svc.handle_read(ReadResult::Line(7, "late".to_string())).len(), 0);
    let proxy = SocketProxy { id: 7 };
    assert_eq!(svc.handle_request(proxy.send("x".to_string())).len(), 0);
    assert_eq!(svc.handle_request(proxy.close()).len(), 0);
}

#[test]
fn sends_reach_the_wire_in_order() {
    let mut svc = SocketService::new();
    svc.handle_connection(7);
    let proxy = SocketProxy { id: 7 };
    let a1 = svc.handle_request(proxy.send("first".to_string()));
    let a2 = svc.handle_request(proxy.send_arc("second".to_string()));
    assert_eq!(a1.len(), 1);
    assert_eq!(a2.len(), 1);
    match (&a1[0], &a2[0]) {
        (SocketAction::Write(7, m1), SocketAction::Write(7, m2)) => {
            assert_eq!(m1, "first");
            assert_eq!(m2, "second");
        }
        _ => panic!("expected two writes"),
    }
}

#[test]
fn failures_close_the_connection() {
    let mut svc = SocketService::new();
    svc.handle_connection(7);
    let acts = svc.handle_read(ReadResult::Utf8Error(7));
    assert_eq!(acts.len(), 2);
    assert!(matches!(acts[1], SocketAction::Emit(SocketEvent::ClosedSocket(7))));
    svc.handle_connection(8);
    let acts = svc.handle_write_error(8);
    assert_eq!(acts.len(), 2);
    assert!(matches!(acts[1], SocketAction::Emit(SocketEvent::ClosedSocket(8))));
}

#[test]
fn step_multiplexes_the_three_sources() {
    let mut svc = SocketService::new();
    let acts = svc.step(SocketInput::Connection(9));
    assert_eq!(acts.len(), 1);
    let acts = svc.step(SocketInput::Read(ReadResult::Line(9, "x".to_string())));
    assert_eq!(acts.len(), 1);
    let acts = svc.step(SocketInput::Request(SocketRequest::CloseSocket(9)));
    assert_eq!(acts.len(), 2);
    assert!(matches!(acts[1], SocketAction::Emit(SocketEvent::ClosedSocket(9))));
}

#[test]
fn message_carriers_are_identical_on_the_wire() {
    let m1 = SocketMessage::Static("x".to_string());
    let m2 = SocketMessage::Boxed("x".to_string());
    let m3 = SocketMessage::Shared("x".to_string());
    assert_eq!(m1.payload(), "x");
    assert_eq!(m2.payload(), "x");
    assert_eq!(m3.payload(), "x");
}

#[test]
fn timer_reset_drops_pending_alarms() {
    let mut timer: Timer<u64> = Timer::new();
    let t1 = timer.add_alarm(100, 41);
    let t2 = timer.add_alarm(200, 42);
    assert_eq!(t1, 0);
    assert_eq!(t2, 0);
    assert!(timer.accepts(t1));
    timer.reset();
    // deliveries scheduled before the reset are now stale
    assert!(!timer.accepts(t1));
    assert!(!timer.accepts(t2));
    let t3 = timer.add_alarm(50, 43);
    assert!(timer.accepts(t3));
}

#[test]
fn game_drains_events_without_stalling() {
    let mut game = mafia::game::GameService::new();
    game.step_event(mafia::chat::GameEvent::CommandPlay(1));
    game.step_event(mafia::chat::GameEvent::Disconnected(1));
    game.step_timer();
}
