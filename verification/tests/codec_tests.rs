use teams::codec::decode;
use teams::codec::encode;
use teams::error::DecodeError;
use teams::event::ChatEvent;

fn new_user(name: &str) -> ChatEvent {
    ChatEvent::NewUser { username: String::from(name) }
}

fn user_exit(name: &str) -> ChatEvent {
    ChatEvent::UserExit { username: String::from(name) }
}

fn message(user: &str, body: &str) -> ChatEvent {
    ChatEvent::ChatMessage { destination_user: String::from(user), body: String::from(body) }
}

#[test]
fn encode_new_user_exact() {
    assert_eq!(encode(&new_user("alice")), "{\"NewUser\": \"alice\"}");
}

#[test]
fn encode_user_exit_exact() {
    assert_eq!(encode(&user_exit("bob")), "{\"UserExit\": \"bob\"}");
}

#[test]
fn encode_message_exact() {
    assert_eq!(
        encode(&message("bob", "hello")),
        "{\"Message\": {\"user\": \"bob\", \"message\": \"hello\"}}"
    );
}

#[test]
fn encode_escapes_payload() {
    assert_eq!(
        encode(&new_user("a\"b\\c\nd\re\tf")),
        "{\"NewUser\": \"a\\\"b\\\\c\\nd\\re\\tf\"}"
    );
}

#[test]
fn round_trip_new_user() {
    let e = new_user("alice");
    assert_eq!(decode(&encode(&e)), Ok(e));
}

#[test]
fn round_trip_user_exit() {
    let e = user_exit("bob");
    assert_eq!(decode(&encode(&e)), Ok(e));
}

#[test]
fn round_trip_message() {
    let e = message("bob", "hello there");
    assert_eq!(decode(&encode(&e)), Ok(e));
}

#[test]
fn round_trip_empty_strings() {
    for e in [new_user(""), user_exit(""), message("", ""), message("x", "")] {
        assert_eq!(decode(&encode(&e)), Ok(e));
    }
}

#[test]
fn round_trip_special_characters() {
    let e = message("we\"ird\\name", "line\nbreak\tand \r more: {}\"");
    assert_eq!(decode(&encode(&e)), Ok(e));
}

#[test]
fn decode_canonical_forms() {
    assert_eq!(decode("{\"NewUser\": \"carol\"}"), Ok(new_user("carol")));
    assert_eq!(decode("{\"UserExit\": \"carol\"}"), Ok(user_exit("carol")));
    assert_eq!(
        decode("{\"Message\": {\"user\": \"dan\", \"message\": \"hi\"}}"),
        Ok(message("dan", "hi"))
    );
}

#[test]
fn decode_rejects_malformed() {
    let bad = [
        "",
        "garbage",
        "{\"NewUser\": \"unterminated",
        "{\"NewUser\": \"x\"} trailing",
        "{\"NewUser\": \"bad\\qescape\"}",
        "{\"Message\": {\"user\": \"a\"}}",
        "{\"NoSuchTag\": \"x\"}",
    ];
    for line in bad {
        assert_eq!(decode(line), Err(DecodeError::Malformed));
    }
}

#[test]
fn encoded_events_are_valid_json() {
    let v: serde_json::Value = serde_json::from_str(&encode(&new_user("alice"))).unwrap();
    assert_eq!(v["NewUser"], serde_json::Value::String(String::from("alice")));

    let v: serde_json::Value = serde_json::from_str(&encode(&message("bob", "hi\nthere"))).unwrap();
    assert_eq!(v["Message"]["user"], serde_json::Value::String(String::from("bob")));
    assert_eq!(v["Message"]["message"], serde_json::Value::String(String::from("hi\nthere")));
}
