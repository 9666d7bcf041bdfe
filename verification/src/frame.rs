//! Newline framing over a stream transport.
//!
//! A stream socket may split or coalesce writes arbitrarily, so the
//! protocol delimits every encoded event with a newline and the reader
//! accumulates whatever arrives until a delimiter shows up.  Because the
//! codec never puts a raw newline inside a frame, cutting at the first
//! newline always recovers exactly the frames that were written.

use vstd::prelude::*;
use vstd::string::StrSliceExecFns;
use vstd::string::StringExecFns;

use crate::codec;
use crate::error::DecodeError;
use crate::event::ChatEvent;
use crate::event::EventV;
use crate::text;

verus! {

/// The first complete frame of `s` and everything after its delimiter,
/// or `None` when `s` holds no newline yet.
pub open spec fn split_at_newline(s: Seq<char>) -> Option<(Seq<char>, Seq<char>)>
    decreases s.len(),
{
    if s.len() == 0 {
        None
    } else if s[0] == '\n' {
        Some((Seq::empty(), s.skip(1)))
    } else {
        match split_at_newline(s.skip(1)) {
            None => None,
            Some(p) => Some((seq![s[0]] + p.0, p.1)),
        }
    }
}

/// What a split found is really the first frame: the input is the frame,
/// its delimiter, and the rest, and the frame itself is newline-free.
pub proof fn lemma_split_sound(s: Seq<char>)
    requires
        split_at_newline(s) is Some,
    ensures
        ({
            let p = split_at_newline(s)->0;
            &&& s == p.0 + seq!['\n'] + p.1
            &&& forall|k: int| 0 <= k < p.0.len() ==> p.0[k] != '\n'
        }),
    decreases s.len(),
{
    let p = split_at_newline(s)->0;
    if s[0] == '\n' {
        assert(s =~= p.0 + seq!['\n'] + p.1);
    } else {
        lemma_split_sound(s.skip(1));
        let q = split_at_newline(s.skip(1))->0;
        assert(p.0 == seq![s[0]] + q.0);
        assert(s =~= seq![s[0]] + s.skip(1));
        assert(seq![s[0]] + (q.0 + seq!['\n'] + q.1) =~= (seq![s[0]] + q.0) + seq!['\n'] + q.1);
        assert(s == p.0 + seq!['\n'] + p.1);
        assert(forall|k: int| 0 <= k < p.0.len() ==> p.0[k] != '\n') by {
            assert(forall|k: int| 1 <= k < p.0.len() ==> p.0[k] == q.0[k - 1]);
        }
    }
}

/// Writing a newline-free frame followed by its delimiter and anything
/// else lets the reader recover exactly that frame and the rest.
pub proof fn lemma_split_complete(a: Seq<char>, b: Seq<char>)
    requires
        forall|k: int| 0 <= k < a.len() ==> a[k] != '\n',
    ensures
        split_at_newline(a + seq!['\n'] + b) == Some((a, b)),
    decreases a.len(),
{
    let s = a + seq!['\n'] + b;
    if a.len() == 0 {
        assert(s[0] == '\n');
        assert(s.skip(1) =~= b);
        assert(a =~= Seq::<char>::empty());
    } else {
        assert(s[0] == a[0]);
        assert(s.skip(1) =~= a.skip(1) + seq!['\n'] + b);
        assert(forall|k: int| 0 <= k < a.skip(1).len() ==> a.skip(1)[k] != '\n');
        lemma_split_complete(a.skip(1), b);
        assert(seq![a[0]] + a.skip(1) =~= a);
    }
}

/// An encoded event contains no newline, so the framing of the codec's
/// output is always recoverable: one write, one frame.
pub proof fn lemma_frame_round_trip(v: EventV, rest: Seq<char>)
    ensures
        split_at_newline(codec::spec_encode(v) + seq!['\n'] + rest) == Some(
            (codec::spec_encode(v), rest),
        ),
{
    lemma_encode_no_newline(v);
    lemma_split_complete(codec::spec_encode(v), rest);
}

/// No character of an encoded event is a newline.
pub proof fn lemma_encode_no_newline(v: EventV)
    ensures
        forall|k: int|
            0 <= k < codec::spec_encode(v).len() ==> #[trigger] codec::spec_encode(v)[k] != '\n',
{
    reveal_strlit("{\"NewUser\": \"");
    reveal_strlit("{\"UserExit\": \"");
    reveal_strlit("{\"Message\": {\"user\": \"");
    reveal_strlit("\", \"message\": \"");
    reveal_strlit("\"}");
    reveal_strlit("\"}}");
    let s = codec::spec_encode(v);
    match v {
        EventV::NewUser { username } => {
            codec::lemma_escape_no_newline(username);
            let pre = "{\"NewUser\": \""@;
            let esc = codec::escape(username);
            assert forall|k: int| 0 <= k < s.len() implies #[trigger] s[k] != '\n' by {
                if k < pre.len() {
                    assert(s[k] == pre[k]);
                } else if k < pre.len() + esc.len() {
                    assert(s[k] == esc[k - pre.len()]);
                } else {
                    assert(s[k] == "\"}"@[k - pre.len() - esc.len()]);
                }
            }
        },
        EventV::UserExit { username } => {
            codec::lemma_escape_no_newline(username);
            let pre = "{\"UserExit\": \""@;
            let esc = codec::escape(username);
            assert forall|k: int| 0 <= k < s.len() implies #[trigger] s[k] != '\n' by {
                if k < pre.len() {
                    assert(s[k] == pre[k]);
                } else if k < pre.len() + esc.len() {
                    assert(s[k] == esc[k - pre.len()]);
                } else {
                    assert(s[k] == "\"}"@[k - pre.len() - esc.len()]);
                }
            }
        },
        EventV::ChatMessage { destination_user, body } => {
            codec::lemma_escape_no_newline(destination_user);
            codec::lemma_escape_no_newline(body);
            let pre = "{\"Message\": {\"user\": \""@;
            let mid = "\", \"message\": \""@;
            let e1 = codec::escape(destination_user);
            let e2 = codec::escape(body);
            assert forall|k: int| 0 <= k < s.len() implies #[trigger] s[k] != '\n' by {
                let n1 = pre.len() as int;
                let n2 = n1 + e1.len();
                let n3 = n2 + mid.len();
                let n4 = n3 + e2.len();
                if k < n1 {
                    assert(s[k] == pre[k]);
                } else if k < n2 {
                    assert(s[k] == e1[k - n1]);
                } else if k < n3 {
                    assert(s[k] == mid[k - n2]);
                } else if k < n4 {
                    assert(s[k] == e2[k - n3]);
                } else {
                    assert(s[k] == "\"}}"@[k - n4]);
                }
            }
        },
    }
}

/// Accumulates raw transport input and cuts it into complete frames.
pub struct FrameBuffer {
    buf: String,
}

impl View for FrameBuffer {
    type V = Seq<char>;

    closed spec fn view(&self) -> Seq<char> {
        self.buf@
    }
}

impl FrameBuffer {
    /// An empty buffer.
    pub fn new() -> (r: FrameBuffer)
        ensures
            r@ == Seq::<char>::empty(),
    {
        FrameBuffer { buf: String::new() }
    }

    /// Appends input exactly as it arrived from the transport, however
    /// the transport split or coalesced the writes.
    pub fn push_chunk(&mut self, chunk: &str)
        ensures
            final(self)@ == old(self)@ + chunk@,
    {
        self.buf.append(chunk);
    }

    /// Removes and returns the first complete frame, consuming its
    /// newline delimiter; `None` while no delimiter has arrived yet.
    pub fn take_frame(&mut self) -> (r: Option<String>)
        ensures
            match r {
                Some(f) => split_at_newline(old(self)@) == Some((f@, final(self)@)),
                None => final(self)@ == old(self)@ && split_at_newline(old(self)@) is None,
            },
    {
        match text::find_char(self.buf.as_str(), '\n') {
            Some(i) => {
                let n = self.buf.as_str().unicode_len();
                let f = String::from_str(self.buf.as_str().substring_char(0, i));
                let rest = String::from_str(self.buf.as_str().substring_char(i + 1, n));
                proof {
                    lemma_split_first(old(self)@, i as int);
                }
                self.buf = rest;
                Some(f)
            },
            None => {
                proof {
                    lemma_split_none(old(self)@);
                }
                None
            },
        }
    }
}

/// If position `i` holds the first newline of `s`, the split cuts there.
proof fn lemma_split_first(s: Seq<char>, i: int)
    requires
        0 <= i < s.len(),
        s[i] == '\n',
        forall|k: int| 0 <= k < i ==> s[k] != '\n',
    ensures
        split_at_newline(s) == Some((s.subrange(0, i), s.subrange(i + 1, s.len() as int))),
    decreases i,
{
    if i == 0 {
        assert(s.subrange(0, 0) =~= Seq::<char>::empty());
        assert(s.subrange(1, s.len() as int) =~= s.skip(1));
    } else {
        assert(s.skip(1)[i - 1] == '\n');
        assert(forall|k: int| 0 <= k < i - 1 ==> s.skip(1)[k] != '\n');
        lemma_split_first(s.skip(1), i - 1);
        assert(s.skip(1).subrange(0, i - 1) =~= s.subrange(1, i));
        assert(s.skip(1).subrange(i, s.skip(1).len() as int) =~= s.subrange(i + 1, s.len() as int));
        assert(seq![s[0]] + s.subrange(1, i) =~= s.subrange(0, i));
    }
}

/// A sequence without a newline holds no complete frame.
proof fn lemma_split_none(s: Seq<char>)
    requires
        forall|k: int| 0 <= k < s.len() ==> s[k] != '\n',
    ensures
        split_at_newline(s) is None,
    decreases s.len(),
{
    if s.len() > 0 {
        assert(forall|k: int| 0 <= k < s.skip(1).len() ==> s.skip(1)[k] != '\n');
        lemma_split_none(s.skip(1));
    }
}

/// Takes the next decoded event out of the buffer.
///
/// While no complete frame is buffered the result classifies the wait:
/// `EndOfStream` when the transport already reported the remote close,
/// `Incomplete` otherwise — the caller just waits for more input.  A
/// complete frame either decodes or is a `Malformed` protocol violation.
pub fn next_event(buf: &mut FrameBuffer, stream_closed: bool) -> (r: Result<ChatEvent, DecodeError>)
    ensures
        split_at_newline(old(buf)@) is None ==> ({
            &&& final(buf)@ == old(buf)@
            &&& (r matches Err(err) && err == (if stream_closed {
                DecodeError::EndOfStream
            } else {
                DecodeError::Incomplete
            }))
        }),
        split_at_newline(old(buf)@) matches Some(p) ==> {
            &&& final(buf)@ == p.1
            &&& (r matches Ok(e) ==> p.0 == codec::spec_encode(e@))
            &&& ((exists|v: EventV| p.0 == codec::spec_encode(v)) ==> r is Ok)
            &&& (r matches Err(err) ==> err == DecodeError::Malformed)
        },
{
    match buf.take_frame() {
        Some(f) => codec::decode(f.as_str()),
        None => {
            if stream_closed {
                Err(DecodeError::EndOfStream)
            } else {
                Err(DecodeError::Incomplete)
            }
        },
    }
}

} // verus!
