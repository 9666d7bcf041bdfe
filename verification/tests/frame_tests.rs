use teams::codec::encode;
use teams::error::DecodeError;
use teams::event::ChatEvent;
use teams::frame::next_event;
use teams::frame::FrameBuffer;

#[test]
fn take_frame_waits_for_delimiter() {
    let mut buf = FrameBuffer::new();
    buf.push_chunk("{\"NewUser\": ");
    assert!(buf.take_frame().is_none());
    buf.push_chunk("\"alice\"}");
    assert!(buf.take_frame().is_none());
    buf.push_chunk("\n");
    assert_eq!(buf.take_frame(), Some(String::from("{\"NewUser\": \"alice\"}")));
    assert!(buf.take_frame().is_none());
}

#[test]
fn take_frame_splits_coalesced_writes() {
    let mut buf = FrameBuffer::new();
    buf.push_chunk("{\"NewUser\": \"a\"}\n{\"UserExit\": \"a\"}\npartial");
    assert_eq!(buf.take_frame(), Some(String::from("{\"NewUser\": \"a\"}")));
    assert_eq!(buf.take_frame(), Some(String::from("{\"UserExit\": \"a\"}")));
    assert!(buf.take_frame().is_none());
}

#[test]
fn next_event_classifies_waiting() {
    let mut buf = FrameBuffer::new();
    buf.push_chunk("{\"NewUser");
    assert_eq!(next_event(&mut buf, false), Err(DecodeError::Incomplete));
    assert_eq!(next_event(&mut buf, true), Err(DecodeError::EndOfStream));
}

#[test]
fn next_event_decodes_complete_frames() {
    let mut buf = FrameBuffer::new();
    let e = ChatEvent::ChatMessage {
        destination_user: String::from("bob"),
        body: String::from("split me"),
    };
    let mut line = encode(&e);
    line.push('\n');
    let (a, b) = line.split_at(7);
    buf.push_chunk(a);
    assert_eq!(next_event(&mut buf, false), Err(DecodeError::Incomplete));
    buf.push_chunk(b);
    assert_eq!(next_event(&mut buf, false), Ok(e));
    assert_eq!(next_event(&mut buf, false), Err(DecodeError::Incomplete));
}

#[test]
fn next_event_flags_malformed_frame() {
    let mut buf = FrameBuffer::new();
    buf.push_chunk("not a document\n{\"UserExit\": \"a\"}\n");
    assert_eq!(next_event(&mut buf, false), Err(DecodeError::Malformed));
    assert_eq!(next_event(&mut buf, false), Ok(ChatEvent::UserExit { username: String::from("a") }));
}

#[test]
fn escaped_newline_stays_inside_frame() {
    let mut buf = FrameBuffer::new();
    let e = ChatEvent::ChatMessage {
        destination_user: String::from("bob"),
        body: String::from("two\nlines"),
    };
    let mut line = encode(&e);
    line.push('\n');
    buf.push_chunk(&line);
    assert_eq!(next_event(&mut buf, false), Ok(e));
}
