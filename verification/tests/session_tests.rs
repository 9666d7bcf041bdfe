use teams::event::ChatEvent;
use teams::session::parse_command;
use teams::session::parse_username;
use teams::session::ClientAction;
use teams::session::ClientEvent;
use teams::session::Command;
use teams::session::Session;
use teams::session::SessionState;

fn active_session(name: &str) -> Session {
    let mut s = Session::new(String::from(name));
    let a = s.step(ClientEvent::ConnectSucceeded);
    assert!(matches!(a, ClientAction::SendLine { .. }));
    assert_eq!(s.state, SessionState::Active);
    s
}

#[test]
fn parse_command_exit() {
    assert!(matches!(parse_command("exit"), Command::Exit));
}

#[test]
fn parse_command_message() {
    match parse_command("bob:hello there") {
        Command::Send { destination_user, body } => {
            assert_eq!(destination_user, "bob");
            assert_eq!(body, "hello there");
        },
        other => panic!("expected a send, got {:?}", other),
    }
}

#[test]
fn parse_command_rejects_bad_shapes() {
    assert!(matches!(parse_command("no colon here"), Command::Invalid));
    assert!(matches!(parse_command("a:b:c"), Command::Invalid));
    assert!(matches!(parse_command(""), Command::Invalid));
    assert!(matches!(parse_command("exit:now"), Command::Send { .. }));
}

#[test]
fn parse_username_trims_and_rejects_empty() {
    assert_eq!(parse_username("  alice \n"), Some(String::from("alice")));
    assert_eq!(parse_username("bob"), Some(String::from("bob")));
    assert_eq!(parse_username("   \t\r\n"), None);
    assert_eq!(parse_username(""), None);
}

#[test]
fn connecting_announces_the_username() {
    let mut s = Session::new(String::from("alice"));
    match s.step(ClientEvent::ConnectSucceeded) {
        ClientAction::SendLine { line } => {
            assert_eq!(line, "{\"NewUser\": \"alice\"}\n");
        },
        other => panic!("expected a send, got {:?}", other),
    }
    assert_eq!(s.state, SessionState::Active);
}

#[test]
fn exit_command_sends_user_exit_and_terminates() {
    let mut s = active_session("alice");
    match s.step(ClientEvent::Input(String::from("exit"))) {
        ClientAction::SendLine { line } => {
            assert_eq!(line, "{\"UserExit\": \"alice\"}\n");
        },
        other => panic!("expected a send, got {:?}", other),
    }
    assert_eq!(s.state, SessionState::Terminated);
}

#[test]
fn chat_input_sends_a_framed_message() {
    let mut s = active_session("alice");
    match s.step(ClientEvent::Input(String::from("bob:hi"))) {
        ClientAction::SendLine { line } => {
            assert_eq!(line, "{\"Message\": {\"user\": \"bob\", \"message\": \"hi\"}}\n");
        },
        other => panic!("expected a send, got {:?}", other),
    }
    assert_eq!(s.state, SessionState::Active);
}

#[test]
fn bad_input_shows_a_format_error_and_sends_nothing() {
    let mut s = active_session("alice");
    let a = s.step(ClientEvent::Input(String::from("not a message")));
    assert!(matches!(a, ClientAction::ShowFormatError));
    assert_eq!(s.state, SessionState::Active);
}

#[test]
fn inbound_message_is_displayed() {
    let mut s = active_session("alice");
    let inbound = ChatEvent::ChatMessage {
        destination_user: String::from("bob"),
        body: String::from("hello"),
    };
    match s.step(ClientEvent::Inbound(inbound)) {
        ClientAction::Display { user, body } => {
            assert_eq!(user, "bob");
            assert_eq!(body, "hello");
        },
        other => panic!("expected a display, got {:?}", other),
    }
}

#[test]
fn reconnect_backs_off_one_to_four_seconds_then_terminates() {
    let mut s = active_session("alice");
    let a = s.step(ClientEvent::FatalIo);
    assert!(matches!(a, ClientAction::Connect));
    assert_eq!(s.state, SessionState::Reconnecting { attempt: 1 });
    for expected in 1u8..=4u8 {
        match s.step(ClientEvent::ConnectFailed) {
            ClientAction::Backoff { seconds } => assert_eq!(seconds, expected),
            other => panic!("expected a backoff, got {:?}", other),
        }
    }
    assert_eq!(s.state, SessionState::Terminated);
}

#[test]
fn reconnect_success_resumes_under_the_same_username() {
    let mut s = active_session("alice");
    s.step(ClientEvent::FatalIo);
    match s.step(ClientEvent::ConnectFailed) {
        ClientAction::Backoff { seconds } => assert_eq!(seconds, 1),
        other => panic!("expected a backoff, got {:?}", other),
    }
    // The second attempt succeeds: the original username is re-announced
    // without the operator retyping it.
    match s.step(ClientEvent::ConnectSucceeded) {
        ClientAction::SendLine { line } => {
            assert_eq!(line, "{\"NewUser\": \"alice\"}\n");
        },
        other => panic!("expected a send, got {:?}", other),
    }
    assert_eq!(s.state, SessionState::Active);
}

#[test]
fn terminated_session_reacts_to_nothing() {
    let mut s = active_session("alice");
    s.step(ClientEvent::Input(String::from("exit")));
    assert_eq!(s.state, SessionState::Terminated);
    assert!(matches!(s.step(ClientEvent::Input(String::from("bob:hi"))), ClientAction::Stay));
    assert!(matches!(s.step(ClientEvent::FatalIo), ClientAction::Stay));
    assert_eq!(s.state, SessionState::Terminated);
}

#[test]
fn initial_connect_failure_gives_up() {
    let mut s = Session::new(String::from("alice"));
    let a = s.step(ClientEvent::ConnectFailed);
    assert!(matches!(a, ClientAction::Exit));
    assert_eq!(s.state, SessionState::Terminated);
}
