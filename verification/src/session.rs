//! The client session state machine.
//!
//! A session is one logical identity — a username — kept alive across
//! possibly many physical connections.  The application runs three
//! tasks: a network poller, an operator input reader, and one
//! coordination loop.  Only the coordination loop mutates the session,
//! by feeding every observation into [`Session::step`] and performing
//! the returned action; the connection handle itself is replaced, never
//! aliased, when a reconnect succeeds.

use vstd::prelude::*;
use vstd::string::StrSliceExecFns;
use vstd::string::StringExecFns;

use crate::codec;
use crate::event::ChatEvent;
use crate::event::EventV;
use crate::text;

verus! {

/// True for the whitespace a line of operator input is trimmed of.
pub open spec fn is_space(c: char) -> bool {
    c == ' ' || c == '\t' || c == '\r' || c == '\n'
}

/// `s` with leading whitespace removed.
pub open spec fn trim_front(s: Seq<char>) -> Seq<char>
    decreases s.len(),
{
    if s.len() > 0 && is_space(s[0]) {
        trim_front(s.skip(1))
    } else {
        s
    }
}

/// `s` with trailing whitespace removed.
pub open spec fn trim_back(s: Seq<char>) -> Seq<char>
    decreases s.len(),
{
    if s.len() > 0 && is_space(s.last()) {
        trim_back(s.drop_last())
    } else {
        s
    }
}

/// `s` with whitespace removed at both ends.
pub open spec fn trim_spec(s: Seq<char>) -> Seq<char> {
    trim_back(trim_front(s))
}

fn is_space_exec(c: char) -> (b: bool)
    ensures
        b == is_space(c),
{
    c == ' ' || c == '\t' || c == '\r' || c == '\n'
}

/// Removes whitespace from both ends of a line.
pub fn trim_str(s: &str) -> (r: String)
    ensures
        r@ == trim_spec(s@),
{
    let n = s.unicode_len();
    let mut a: usize = 0;
    proof {
        assert(s@.skip(0) =~= s@);
    }
    while a < n && is_space_exec(s.get_char(a))
        invariant
            n == s@.len(),
            a <= n,
            trim_front(s@) == trim_front(s@.skip(a as int)),
        decreases n - a,
    {
        proof {
            assert(s@.skip(a as int).skip(1) =~= s@.skip(a + 1));
        }
        a += 1;
    }
    proof {
        if a == n {
            assert(s@.skip(a as int) =~= Seq::<char>::empty());
        }
        assert(trim_front(s@) == s@.skip(a as int));
    }
    let mut z: usize = n;
    while z > a && is_space_exec(s.get_char(z - 1))
        invariant
            n == s@.len(),
            a <= z <= n,
            trim_front(s@) == s@.skip(a as int),
            trim_back(s@.skip(a as int)) == trim_back(s@.subrange(a as int, z as int)),
        decreases z,
    {
        proof {
            let cur = s@.subrange(a as int, z as int);
            assert(cur.last() == s@[z - 1]);
            assert(cur.drop_last() =~= s@.subrange(a as int, z - 1));
        }
        z -= 1;
    }
    proof {
        let cur = s@.subrange(a as int, z as int);
        if z == a {
            assert(cur =~= Seq::<char>::empty());
        } else {
            assert(cur.last() == s@[z - 1]);
        }
        assert(trim_back(cur) == cur);
    }
    String::from_str(s.substring_char(a, z))
}

/// Reads the username the operator typed: the line is trimmed, and an
/// empty result is rejected.
pub fn parse_username(line: &str) -> (r: Option<String>)
    ensures
        r matches Some(u) ==> u@ == trim_spec(line@) && trim_spec(line@).len() > 0,
        r is None <==> trim_spec(line@).len() == 0,
{
    let t = trim_str(line);
    if t.as_str().unicode_len() == 0 {
        None
    } else {
        Some(t)
    }
}

/// One parsed line of operator input.
#[derive(Debug)]
pub enum Command {
    /// The literal line `exit`: end the session.
    Exit,
    /// `destination:body` — a message to send.
    Send { destination_user: String, body: String },
    /// Anything else: rejected with a format error, never sent.
    Invalid,
}

/// Parses one line of operator input.  The exact line `exit` ends the
/// session.  Otherwise the line must split on a single colon into a
/// destination and a body; a line with no colon or more than one is
/// invalid and does not reach the network.
pub fn parse_command(input: &str) -> (c: Command)
    ensures
        (c matches Command::Exit) <==> input@ == "exit"@,
        c matches Command::Send { destination_user: d, body: b } ==> ({
            &&& input@ == d@ + seq![':'] + b@
            &&& text::count_char(d@, ':') == 0
            &&& text::count_char(b@, ':') == 0
            &&& input@ != "exit"@
        }),
        (input@ != "exit"@ && text::count_char(input@, ':') == 1) ==> c is Send,
        (c matches Command::Invalid) <==> (input@ != "exit"@ && text::count_char(input@, ':')
            != 1),
{
    if text::str_eq(input, "exit") {
        return Command::Exit;
    }
    proof {
        reveal_strlit("exit");
        assert(text::count_char("exit"@, ':') == 0) by {
            text::lemma_count_char_zero("exit"@, ':');
        }
    }
    let cnt = text::count_char_exec(input, ':');
    if cnt != 1 {
        return Command::Invalid;
    }
    match text::find_char(input, ':') {
        Some(i) => {
            let n = input.unicode_len();
            let d = String::from_str(input.substring_char(0, i));
            let b = String::from_str(input.substring_char(i + 1, n));
            proof {
                let left = input@.subrange(0, i as int);
                let right = input@.subrange(i + 1, n as int);
                assert(input@ =~= left + (seq![':'] + right));
                text::lemma_count_char_concat(left, seq![':'] + right, ':');
                text::lemma_count_char_concat(seq![':'], right, ':');
                assert(text::count_char(Seq::<char>::empty(), ':') == 0);
                assert(seq![':'].drop_last() =~= Seq::<char>::empty());
                assert(text::count_char(seq![':'], ':') == 1);
                text::lemma_count_char_zero(left, ':');
                assert(text::count_char(right, ':') == 0);
                assert(input@ == d@ + seq![':'] + b@);
            }
            Command::Send { destination_user: d, body: b }
        },
        None => {
            proof {
                text::lemma_count_char_zero(input@, ':');
                assert(false);
            }
            Command::Invalid
        },
    }
}

/// Where a session stands.
#[derive(Clone, Copy, Debug, PartialEq, Eq, Structural)]
pub enum SessionState {
    /// The first connection attempt is being made.
    Connecting,
    /// The session is live on the current connection.
    Active,
    /// The connection was lost; reconnect attempt `attempt` (of 4) is
    /// the next to be made.
    Reconnecting { attempt: u8 },
    /// The session is over; the process exits.
    Terminated,
}

/// Everything the coordination loop observes.
#[derive(Debug)]
pub enum ClientEvent {
    /// A connection attempt succeeded; the connection handle was
    /// replaced with the fresh one.
    ConnectSucceeded,
    /// A connection attempt failed.
    ConnectFailed,
    /// The poller decoded one event from the server.
    Inbound(ChatEvent),
    /// A read or write on the connection failed fatally.
    FatalIo,
    /// The operator typed one line.
    Input(String),
}

/// What the coordination loop must do after a step.
#[derive(Debug)]
pub enum ClientAction {
    /// Nothing.
    Stay,
    /// Write this framed line to the current connection; a fatal write
    /// failure comes back as [`ClientEvent::FatalIo`].
    SendLine { line: String },
    /// Hand this message to the rendering collaborator.
    Display { user: String, body: String },
    /// Tell the operator the line was not `user:message`.
    ShowFormatError,
    /// Sleep this many seconds; then, unless the session has
    /// terminated, make the next connection attempt.
    Backoff { seconds: u8 },
    /// Make a connection attempt now.
    Connect,
    /// The session is over; stop the loop.
    Exit,
}

/// One client session: a username and where it stands.
pub struct Session {
    pub state: SessionState,
    pub username: String,
}

impl Session {
    /// A reconnect attempt counter only ever holds 1 through 4.
    pub open spec fn wf(self) -> bool {
        match self.state {
            SessionState::Reconnecting { attempt } => 1 <= attempt <= 4,
            _ => true,
        }
    }

    /// A fresh session for `username`, about to connect for the first
    /// time.
    pub fn new(username: String) -> (s: Session)
        ensures
            s.wf(),
            s.state == SessionState::Connecting,
            s.username == username,
    {
        Session { state: SessionState::Connecting, username }
    }

    /// The framed `NewUser` announcement for this session's username.
    fn hello_line(&self) -> (r: String)
        ensures
            r@ == codec::spec_encode(EventV::NewUser { username: self.username@ }).push('\n'),
    {
        let hello = ChatEvent::NewUser { username: self.username.clone() };
        let mut line = codec::encode(&hello);
        line.append("\n");
        proof {
            reveal_strlit("\n");
            assert(line@ =~= codec::spec_encode(hello@).push('\n'));
        }
        line
    }

    /// Advances the session by one observed event and says what to do.
    ///
    /// The username never changes: after any number of losses and
    /// reconnects the session resumes under the name it started with.
    /// Connection loss in the active state starts the reconnect
    /// procedure at attempt 1; each failed attempt `n` of 1 through 4
    /// backs off `n` seconds, and the fourth failure terminates the
    /// session.  A successful reconnect re-announces the username and
    /// returns to the active state.  A terminated session reacts to
    /// nothing.
    pub fn step(&mut self, event: ClientEvent) -> (a: ClientAction)
        requires
            old(self).wf(),
        ensures
            final(self).wf(),
            final(self).username == old(self).username,
            match old(self).state {
                SessionState::Connecting => match event {
                    ClientEvent::ConnectSucceeded => ({
                        &&& final(self).state == SessionState::Active
                        &&& (a matches ClientAction::SendLine { line } && line@
                            == codec::spec_encode(
                            EventV::NewUser { username: old(self).username@ },
                        ).push('\n'))
                    }),
                    ClientEvent::ConnectFailed => final(self).state == SessionState::Terminated
                        && a == ClientAction::Exit,
                    _ => final(self).state == old(self).state && a == ClientAction::Stay,
                },
                SessionState::Active => match event {
                    ClientEvent::Input(input) => {
                        if input@ == "exit"@ {
                            &&& final(self).state == SessionState::Terminated
                            &&& (a matches ClientAction::SendLine { line } && line@
                                == codec::spec_encode(
                                EventV::UserExit { username: old(self).username@ },
                            ).push('\n'))
                        } else if text::count_char(input@, ':') == 1 {
                            &&& final(self).state == SessionState::Active
                            &&& (a matches ClientAction::SendLine { line } && exists|
                                d: Seq<char>,
                                b: Seq<char>,
                            |
                                {
                                    &&& input@ == d + seq![':'] + b
                                    &&& line@ == (#[trigger] codec::spec_encode(
                                        EventV::ChatMessage { destination_user: d, body: b },
                                    )).push('\n')
                                })
                        } else {
                            final(self).state == SessionState::Active && a
                                == ClientAction::ShowFormatError
                        }
                    },
                    ClientEvent::Inbound(e) => match e@ {
                        EventV::ChatMessage { destination_user: u, body: b } => ({
                            &&& final(self).state == SessionState::Active
                            &&& (a matches ClientAction::Display { user, body } && user@ == u
                                && body@ == b)
                        }),
                        _ => final(self).state == SessionState::Active && a == ClientAction::Stay,
                    },
                    ClientEvent::FatalIo => final(self).state == (SessionState::Reconnecting {
                        attempt: 1u8,
                    }) && a == ClientAction::Connect,
                    _ => final(self).state == old(self).state && a == ClientAction::Stay,
                },
                SessionState::Reconnecting { attempt } => match event {
                    ClientEvent::ConnectSucceeded => ({
                        &&& final(self).state == SessionState::Active
                        &&& (a matches ClientAction::SendLine { line } && line@
                            == codec::spec_encode(
                            EventV::NewUser { username: old(self).username@ },
                        ).push('\n'))
                    }),
                    ClientEvent::ConnectFailed => ({
                        &&& final(self).state == (if attempt == 4 {
                            SessionState::Terminated
                        } else {
                            SessionState::Reconnecting { attempt: (attempt + 1) as u8 }
                        })
                        &&& a == (ClientAction::Backoff { seconds: attempt })
                    }),
                    _ => final(self).state == old(self).state && a == ClientAction::Stay,
                },
                SessionState::Terminated => final(self).state == SessionState::Terminated && a
                    == ClientAction::Stay,
            },
    {
        match self.state {
            SessionState::Connecting => match event {
                ClientEvent::ConnectSucceeded => {
                    self.state = SessionState::Active;
                    let line = self.hello_line();
                    ClientAction::SendLine { line }
                },
                ClientEvent::ConnectFailed => {
                    self.state = SessionState::Terminated;
                    ClientAction::Exit
                },
                _ => ClientAction::Stay,
            },
            SessionState::Active => match event {
                ClientEvent::Input(input) => match parse_command(input.as_str()) {
                    Command::Exit => {
                        self.state = SessionState::Terminated;
                        let bye = ChatEvent::UserExit { username: self.username.clone() };
                        let mut line = codec::encode(&bye);
                        line.append("\n");
                        proof {
                            reveal_strlit("\n");
                            assert(line@ =~= codec::spec_encode(bye@).push('\n'));
                        }
                        ClientAction::SendLine { line }
                    },
                    Command::Send { destination_user, body } => {
                        let msg = ChatEvent::ChatMessage { destination_user, body };
                        let mut line = codec::encode(&msg);
                        line.append("\n");
                        proof {
                            reveal_strlit("\n");
                            assert(line@ =~= codec::spec_encode(msg@).push('\n'));
                        }
                        ClientAction::SendLine { line }
                    },
                    Command::Invalid => ClientAction::ShowFormatError,
                },
                ClientEvent::Inbound(e) => match e {
                    ChatEvent::ChatMessage { destination_user, body } => ClientAction::Display {
                        user: destination_user,
                        body,
                    },
                    _ => ClientAction::Stay,
                },
                ClientEvent::FatalIo => {
                    self.state = SessionState::Reconnecting { attempt: 1 };
                    ClientAction::Connect
                },
                _ => ClientAction::Stay,
            },
            SessionState::Reconnecting { attempt } => match event {
                ClientEvent::ConnectSucceeded => {
                    self.state = SessionState::Active;
                    let line = self.hello_line();
                    ClientAction::SendLine { line }
                },
                ClientEvent::ConnectFailed => {
                    if attempt == 4 {
                        self.state = SessionState::Terminated;
                    } else {
                        self.state = SessionState::Reconnecting { attempt: attempt + 1 };
                    }
                    ClientAction::Backoff { seconds: attempt }
                },
                _ => ClientAction::Stay,
            },
            SessionState::Terminated => ClientAction::Stay,
        }
    }
}

} // verus!
