use teams::error::DecodeError;
use teams::event::ChatEvent;
use teams::registry::Registry;
use teams::router::admit_connection;
use teams::router::handler_step;
use teams::router::DisconnectReason;
use teams::router::HandlerAction;

fn message(user: &str, body: &str) -> ChatEvent {
    ChatEvent::ChatMessage { destination_user: String::from(user), body: String::from(body) }
}

fn two_user_registry() -> Registry {
    let mut reg = Registry::new();
    assert!(reg.register(String::from("alice"), 1));
    assert!(reg.register(String::from("bob"), 2));
    reg
}

#[test]
fn admission_requires_new_user_first() {
    let mut reg = Registry::new();
    assert!(admit_connection(&mut reg, Ok(message("bob", "hi")), 1).is_none());
    assert!(admit_connection(&mut reg, Err(DecodeError::Malformed), 1).is_none());
    let user = admit_connection(&mut reg, Ok(ChatEvent::NewUser { username: String::from("alice") }), 1);
    assert_eq!(user, Some(String::from("alice")));
    assert_eq!(reg.lookup("alice"), Some(1));
}

#[test]
fn conflicting_admissions_admit_exactly_one() {
    // Two connections race to claim the same username; the registry is
    // locked around each admission, so exactly the first wins and the
    // loser leaves the winner's entry untouched.
    let mut reg = Registry::new();
    let first = admit_connection(&mut reg, Ok(ChatEvent::NewUser { username: String::from("carol") }), 1);
    let second = admit_connection(&mut reg, Ok(ChatEvent::NewUser { username: String::from("carol") }), 2);
    assert_eq!(first, Some(String::from("carol")));
    assert_eq!(second, None);
    assert_eq!(reg.lookup("carol"), Some(1));
}

#[test]
fn forwards_to_registered_destination() {
    // alice sends "bob:hello"; bob's connection receives the message
    // with its origin rewritten to alice.
    let reg = two_user_registry();
    let a = handler_step(&reg, &String::from("alice"), Ok(message("bob", "hello")));
    match a {
        HandlerAction::Forward { conn, line } => {
            assert_eq!(conn, 2);
            assert_eq!(line, "{\"Message\": {\"user\": \"alice\", \"message\": \"hello\"}}\n");
        },
        other => panic!("expected a forward, got {:?}", other),
    }
}

#[test]
fn self_addressed_message_is_dropped() {
    let reg = two_user_registry();
    let a = handler_step(&reg, &String::from("alice"), Ok(message("alice", "talking to myself")));
    assert!(matches!(a, HandlerAction::Continue));
}

#[test]
fn unknown_destination_is_ignored_without_disconnect() {
    let reg = two_user_registry();
    let a = handler_step(&reg, &String::from("alice"), Ok(message("nobody", "hello?")));
    assert!(matches!(a, HandlerAction::Continue));
}

#[test]
fn repeated_new_user_is_a_violation() {
    let reg = two_user_registry();
    let a = handler_step(
        &reg,
        &String::from("alice"),
        Ok(ChatEvent::NewUser { username: String::from("alice") }),
    );
    assert!(matches!(
        a,
        HandlerAction::Disconnect { reason: DisconnectReason::ProtocolViolation }
    ));
}

#[test]
fn user_exit_ends_the_session_voluntarily() {
    let reg = two_user_registry();
    let a = handler_step(
        &reg,
        &String::from("alice"),
        Ok(ChatEvent::UserExit { username: String::from("alice") }),
    );
    assert!(matches!(a, HandlerAction::Disconnect { reason: DisconnectReason::VoluntaryExit }));
}

#[test]
fn read_outcomes_map_to_actions() {
    let reg = two_user_registry();
    let user = String::from("alice");
    assert!(matches!(
        handler_step(&reg, &user, Err(DecodeError::Incomplete)),
        HandlerAction::Continue
    ));
    assert!(matches!(
        handler_step(&reg, &user, Err(DecodeError::Malformed)),
        HandlerAction::Disconnect { reason: DisconnectReason::ProtocolViolation }
    ));
    assert!(matches!(
        handler_step(&reg, &user, Err(DecodeError::EndOfStream)),
        HandlerAction::Disconnect { reason: DisconnectReason::ConnectionLost }
    ));
}
