//! The per-connection decisions of the server.
//!
//! Each accepted connection gets one handler.  The handler first admits
//! the connection — the opening message must be a `NewUser` for a free
//! username — and then loops: read, decode, ask [`handler_step`] what to
//! do, perform the returned action.  All registry changes and routing
//! choices are made here; the application only moves bytes.

use vstd::prelude::*;
use vstd::string::StringExecFns;

use crate::codec;
use crate::error::DecodeError;
use crate::event::ChatEvent;
use crate::event::EventV;
use crate::registry::Registry;
use crate::text;

verus! {

/// Why a handler stops its receive loop.
#[derive(Clone, Copy, Debug, PartialEq, Eq, Structural)]
pub enum DisconnectReason {
    /// The user announced a voluntary exit.
    VoluntaryExit,
    /// A repeated `NewUser` or a malformed frame: the peer broke the
    /// protocol.
    ProtocolViolation,
    /// The stream ended or failed fatally.
    ConnectionLost,
}

/// What the handler does after one received frame.
#[derive(Debug)]
pub enum HandlerAction {
    /// Nothing to send, nothing to change: keep receiving.
    Continue,
    /// Write `line` to the connection `conn`.  If that write fails
    /// fatally, the *sender's* handler disconnects, not the
    /// destination's.
    Forward { conn: u64, line: String },
    /// Leave the loop, deregister the user, drop the connection.
    Disconnect { reason: DisconnectReason },
}

/// Admits a connection whose first decoded read is `first`: exactly a
/// `NewUser` naming a free username registers that username on `conn`
/// and returns it; anything else — another message, a malformed or
/// failed read, or a taken username — changes nothing and the
/// connection is dropped.
pub fn admit_connection(
    reg: &mut Registry,
    first: Result<ChatEvent, DecodeError>,
    conn: u64,
) -> (r: Option<String>)
    requires
        old(reg).wf(),
    ensures
        final(reg).wf(),
        match first {
            Ok(ChatEvent::NewUser { username }) => {
                if !old(reg).as_map().contains_key(username@) {
                    &&& (r matches Some(u) && u@ == username@)
                    &&& final(reg).as_map() == old(reg).as_map().insert(username@, conn)
                } else {
                    r is None && *final(reg) == *old(reg)
                }
            },
            _ => r is None && *final(reg) == *old(reg),
        },
{
    match first {
        Ok(ChatEvent::NewUser { username }) => {
            let user = username.clone();
            if reg.register(username, conn) {
                Some(user)
            } else {
                None
            }
        },
        _ => None,
    }
}

/// Decides the handler's reaction to one received frame, for the
/// handler that registered `user`.
///
/// A repeated `NewUser` is a protocol violation; `UserExit` ends the
/// session voluntarily.  A chat message addressed by the sender to
/// itself is ignored, and so is one addressed to a username that is not
/// registered — neither produces any outbound write, and neither ends
/// the sender's session.  A message for another registered user is
/// forwarded to that user's connection with its origin rewritten to the
/// sender's username.  A not-yet-complete frame is simply waited out.
pub fn handler_step(
    reg: &Registry,
    user: &String,
    inbound: Result<ChatEvent, DecodeError>,
) -> (a: HandlerAction)
    requires
        reg.wf(),
    ensures
        match inbound {
            Ok(e) => match e@ {
                EventV::NewUser { .. } => a == (HandlerAction::Disconnect {
                    reason: DisconnectReason::ProtocolViolation,
                }),
                EventV::UserExit { .. } => a == (HandlerAction::Disconnect {
                    reason: DisconnectReason::VoluntaryExit,
                }),
                EventV::ChatMessage { destination_user: d, body: b } => {
                    if d == user@ {
                        a == HandlerAction::Continue
                    } else if !reg.as_map().contains_key(d) {
                        a == HandlerAction::Continue
                    } else {
                        (a matches HandlerAction::Forward { conn, line } && conn
                            == reg.as_map()[d] && line@ == codec::spec_encode(
                            EventV::ChatMessage { destination_user: user@, body: b },
                        ).push('\n'))
                    }
                },
            },
            Err(err) => match err {
                DecodeError::Incomplete => a == HandlerAction::Continue,
                DecodeError::Malformed => a == (HandlerAction::Disconnect {
                    reason: DisconnectReason::ProtocolViolation,
                }),
                DecodeError::EndOfStream => a == (HandlerAction::Disconnect {
                    reason: DisconnectReason::ConnectionLost,
                }),
            },
        },
{
    match inbound {
        Ok(ChatEvent::NewUser { .. }) => HandlerAction::Disconnect {
            reason: DisconnectReason::ProtocolViolation,
        },
        Ok(ChatEvent::UserExit { .. }) => HandlerAction::Disconnect {
            reason: DisconnectReason::VoluntaryExit,
        },
        Ok(ChatEvent::ChatMessage { destination_user, body }) => {
            if text::str_eq(destination_user.as_str(), user.as_str()) {
                HandlerAction::Continue
            } else {
                match reg.lookup(destination_user.as_str()) {
                    None => HandlerAction::Continue,
                    Some(conn) => {
                        let fwd = ChatEvent::ChatMessage { destination_user: user.clone(), body };
                        let mut line = codec::encode(&fwd);
                        line.append("\n");
                        proof {
                            reveal_strlit("\n");
                            assert(line@ =~= codec::spec_encode(fwd@).push('\n'));
                        }
                        HandlerAction::Forward { conn, line }
                    },
                }
            }
        },
        Err(DecodeError::Incomplete) => HandlerAction::Continue,
        Err(DecodeError::Malformed) => HandlerAction::Disconnect {
            reason: DisconnectReason::ProtocolViolation,
        },
        Err(DecodeError::EndOfStream) => HandlerAction::Disconnect {
            reason: DisconnectReason::ConnectionLost,
        },
    }
}

} // verus!
