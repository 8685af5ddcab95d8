use mafia::login::{LoginAction, LoginService, UserEvent};
use mafia::socket::{SocketProxy, SocketRequest};

fn sent(act: &LoginAction) -> (u64, String) {
    match act {
        LoginAction::ToSocket(SocketRequest::SendMessage(id, m)) => (*id, m.payload().clone()),
        _ => panic!("expected a send to the socket service"),
    }
}

#[test]
fn new_socket_gets_the_banner() {
    let mut login = LoginService::new();
    let acts = login.handle_new_socket(SocketProxy { id: 1 });
    assert_eq!(acts.len(), 1);
    let (id, text) = sent(&acts[0]);
    assert_eq!(id, 1);
    assert_eq!(text, "Welcome to the Mafia server!\nPlease enter your nickname: ");
}

#[test]
fn create_and_reconnect() {
    let mut login = LoginService::new();
    login.handle_new_socket(SocketProxy { id: 1 });
    let acts = login.handle_new_message(1, "alice".to_string());
    assert_eq!(acts.len(), 1);
    assert_eq!(sent(&acts[0]), (1, "Creating player \"alice\". Enter password: ".to_string()));
    let acts = login.handle_new_message(1, "pw".to_string());
    assert_eq!(acts.len(), 2);
    assert_eq!(sent(&acts[0]), (1, "Password created. Welcome, alice!\n".to_string()));
    match &acts[1] {
        LoginAction::Emit(UserEvent::NewUser(u)) => {
            assert_eq!(u.get_id(), 1);
            assert_eq!(u.get_login(), "alice");
        }
        _ => panic!("expected the new user to be reported"),
    }
    // the connection closes; the account goes offline, the secret kept
    let acts = login.handle_closed_socket(1);
    assert_eq!(acts.len(), 1);
    assert!(matches!(acts[0], LoginAction::Emit(UserEvent::DropUser(1))));
    // reconnect under a fresh id
    login.handle_new_socket(SocketProxy { id: 2 });
    let acts = login.handle_new_message(2, "alice".to_string());
    assert_eq!(sent(&acts[0]), (2, "Password for \"alice\": ".to_string()));
    let acts = login.handle_new_message(2, "pw".to_string());
    assert_eq!(acts.len(), 2);
    assert_eq!(sent(&acts[0]), (2, "Welcome back, alice!\n".to_string()));
    assert!(matches!(&acts[1], LoginAction::Emit(UserEvent::NewUser(_))));
}

#[test]
fn name_collision_keeps_bob_out() {
    let mut login = LoginService::new();
    login.handle_new_socket(SocketProxy { id: 1 });
    login.handle_new_message(1, "alice".to_string());
    login.handle_new_message(1, "pw".to_string());
    // bob tries alice's nickname while she is online
    login.handle_new_socket(SocketProxy { id: 2 });
    let acts = login.handle_new_message(2, "alice".to_string());
    assert_eq!(acts.len(), 1);
    assert_eq!(
        sent(&acts[0]),
        (2, "Player \"alice\" is already online.\nPlease enter your nickname: ".to_string())
    );
    // bob is still unauthenticated: his next line is taken as a nickname
    let acts = login.handle_new_message(2, "bob".to_string());
    assert_eq!(sent(&acts[0]), (2, "Creating player \"bob\". Enter password: ".to_string()));
}

#[test]
fn wrong_password_resets_to_nickname() {
    let mut login = LoginService::new();
    login.handle_new_socket(SocketProxy { id: 1 });
    login.handle_new_message(1, "alice".to_string());
    login.handle_new_message(1, "pw".to_string());
    login.handle_closed_socket(1);
    login.handle_new_socket(SocketProxy { id: 2 });
    login.handle_new_message(2, "alice".to_string());
    let acts = login.handle_new_message(2, "wrong".to_string());
    assert_eq!(acts.len(), 1);
    assert_eq!(
        sent(&acts[0]),
        (2, "Incorrect password.\nPlease enter your nickname: ".to_string())
    );
}

#[test]
fn authenticated_lines_are_forwarded() {
    let mut login = LoginService::new();
    login.handle_new_socket(SocketProxy { id: 1 });
    login.handle_new_message(1, "alice".to_string());
    login.handle_new_message(1, "pw".to_string());
    let acts = login.handle_new_message(1, "hi all".to_string());
    assert_eq!(acts.len(), 1);
    match &acts[0] {
        LoginAction::Emit(UserEvent::NewMessage(id, line)) => {
            assert_eq!(*id, 1);
            assert_eq!(line, "hi all");
        }
        _ => panic!("expected the line to be forwarded"),
    }
}

#[test]
fn racing_login_is_rejected_at_the_password() {
    let mut login = LoginService::new();
    // two sockets both claim a fresh nickname; the first to give a
    // password wins, the second is sent back to the nickname prompt
    login.handle_new_socket(SocketProxy { id: 1 });
    login.handle_new_socket(SocketProxy { id: 2 });
    login.handle_new_message(1, "alice".to_string());
    login.handle_new_message(2, "alice".to_string());
    login.handle_new_message(1, "pw".to_string());
    let acts = login.handle_new_message(2, "other".to_string());
    assert_eq!(acts.len(), 1);
    assert_eq!(
        sent(&acts[0]),
        (2, "Player \"alice\" is already online.\nPlease enter your nickname: ".to_string())
    );
}

#[test]
fn unauthenticated_close_drops_nobody() {
    let mut login = LoginService::new();
    login.handle_new_socket(SocketProxy { id: 1 });
    login.handle_new_message(1, "alice".to_string());
    let acts = login.handle_closed_socket(1);
    assert_eq!(acts.len(), 0);
}

#[test]
fn socket_events_drive_the_login_machine() {
    let mut login = LoginService::new();
    let acts = login.handle_socket_event(mafia::socket::SocketEvent::NewSocket(SocketProxy { id: 1 }));
    assert_eq!(acts.len(), 1);
    login.handle_socket_event(mafia::socket::SocketEvent::NewMessage(1, "alice".to_string()));
    let acts = login.handle_socket_event(mafia::socket::SocketEvent::NewMessage(1, "pw".to_string()));
    assert_eq!(acts.len(), 2);
    let acts = login.handle_socket_event(mafia::socket::SocketEvent::ClosedSocket(1));
    assert_eq!(acts.len(), 1);
    assert!(matches!(acts[0], LoginAction::Emit(UserEvent::DropUser(1))));
}
