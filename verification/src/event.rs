//! The wire messages of the relay protocol.
//!
//! A connection carries exactly three kinds of message.  The first message
//! of every connection must be `NewUser`; everything after it is either a
//! voluntary `UserExit` or an addressed `ChatMessage`.

use vstd::prelude::*;

verus! {

/// One message of the protocol, as the programs handle it.
///
/// The `destination_user` field of `ChatMessage` names the addressee on a
/// client-to-server send; on a server-to-client forward the same wire field
/// carries the *origin* instead.  The asymmetry is part of the protocol.
#[derive(Debug, PartialEq, Eq)]
pub enum ChatEvent {
    /// Announces the start of a session under the given username.
    NewUser { username: String },
    /// Announces the voluntary end of the session of the given username.
    UserExit { username: String },
    /// A chat message addressed to (or, on a forward, coming from) a user.
    ChatMessage { destination_user: String, body: String },
}

/// The mathematical shape of a [`ChatEvent`]: the same three cases over
/// character sequences.
pub enum EventV {
    NewUser { username: Seq<char> },
    UserExit { username: Seq<char> },
    ChatMessage { destination_user: Seq<char>, body: Seq<char> },
}

impl View for ChatEvent {
    type V = EventV;

    open spec fn view(&self) -> EventV {
        match self {
            ChatEvent::NewUser { username } => EventV::NewUser { username: username@ },
            ChatEvent::UserExit { username } => EventV::UserExit { username: username@ },
            ChatEvent::ChatMessage { destination_user, body } => EventV::ChatMessage {
                destination_user: destination_user@,
                body: body@,
            },
        }
    }
}

} // verus!
