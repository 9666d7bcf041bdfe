//! The wire codec of the relay protocol.
//!
//! Every event travels as one self-describing document on a line of its
//! own, so a reader can split the stream at newlines and decode each
//! complete frame independently of how the transport split or coalesced
//! writes.  The three documents are
//!
//! ```text
//! {"NewUser": "<username>"}
//! {"UserExit": "<username>"}
//! {"Message": {"user": "<user>", "message": "<body>"}}
//! ```
//!
//! String payloads are escaped so that a frame never contains a raw
//! newline, quote or backslash: `"`, `\`, and the control characters
//! newline, carriage return and tab travel as `\"`, `\\`, `\n`, `\r`
//! and `\t`.  The decoder accepts exactly the canonical encodings, so
//! encoding is injective and decoding inverts it.

use vstd::prelude::*;
use vstd::string::StrSliceExecFns;
use vstd::string::StringExecFns;

use crate::error::DecodeError;
use crate::event::ChatEvent;
use crate::event::EventV;
use crate::text;

verus! {

/// How one payload character travels on the wire.
pub open spec fn escape_char(c: char) -> Seq<char> {
    if c == '"' {
        seq!['\\', '"']
    } else if c == '\\' {
        seq!['\\', '\\']
    } else if c == '\n' {
        seq!['\\', 'n']
    } else if c == '\r' {
        seq!['\\', 'r']
    } else if c == '\t' {
        seq!['\\', 't']
    } else {
        seq![c]
    }
}

/// The payload character named by the escape `\x`, if `\x` is an escape.
pub open spec fn unescape_char(c: char) -> Option<char> {
    if c == '"' {
        Some('"')
    } else if c == '\\' {
        Some('\\')
    } else if c == 'n' {
        Some('\n')
    } else if c == 'r' {
        Some('\r')
    } else if c == 't' {
        Some('\t')
    } else {
        None
    }
}

/// How a whole payload string travels on the wire.
pub open spec fn escape(s: Seq<char>) -> Seq<char>
    decreases s.len(),
{
    if s.len() == 0 {
        Seq::empty()
    } else {
        escape_char(s[0]) + escape(s.skip(1))
    }
}

/// The canonical wire form of an event, without the newline delimiter.
pub open spec fn spec_encode(v: EventV) -> Seq<char> {
    match v {
        EventV::NewUser { username } => "{\"NewUser\": \""@ + escape(username) + "\"}"@,
        EventV::UserExit { username } => "{\"UserExit\": \""@ + escape(username) + "\"}"@,
        EventV::ChatMessage { destination_user, body } => "{\"Message\": {\"user\": \""@
            + escape(destination_user) + "\", \"message\": \""@ + escape(body) + "\"}}"@,
    }
}

/// Reads one escaped string payload from the front of `s`, up to and
/// including its closing quote: the decoded payload and the number of
/// characters consumed, or `None` when `s` does not begin with a
/// canonically escaped, quote-terminated payload.
pub open spec fn scan(s: Seq<char>) -> Option<(Seq<char>, int)>
    decreases s.len(),
{
    if s.len() == 0 {
        None
    } else if s[0] == '"' {
        Some((Seq::empty(), 1))
    } else if s[0] == '\\' {
        if s.len() == 1 {
            None
        } else {
            match unescape_char(s[1]) {
                None => None,
                Some(c) => match scan(s.skip(2)) {
                    None => None,
                    Some(p) => Some((seq![c] + p.0, p.1 + 2)),
                },
            }
        }
    } else if s[0] == '\n' || s[0] == '\r' || s[0] == '\t' {
        None
    } else {
        match scan(s.skip(1)) {
            None => None,
            Some(p) => Some((seq![s[0]] + p.0, p.1 + 1)),
        }
    }
}

/// Escaping one more character appends that character's wire form.
pub proof fn lemma_escape_snoc(s: Seq<char>, c: char)
    ensures
        escape(s.push(c)) == escape(s) + escape_char(c),
    decreases s.len(),
{
    if s.len() == 0 {
        assert(s.push(c)[0] == c);
        assert(s.push(c).skip(1) =~= Seq::<char>::empty());
        assert(escape(s.push(c)) == escape_char(c) + escape(Seq::<char>::empty()));
        assert(escape(s.push(c)) =~= escape(s) + escape_char(c));
    } else {
        lemma_escape_snoc(s.skip(1), c);
        assert(s.push(c)[0] == s[0]);
        assert(s.push(c).skip(1) =~= s.skip(1).push(c));
        assert(escape(s.push(c)) == escape_char(s[0]) + escape(s.skip(1).push(c)));
        assert(escape(s.push(c)) =~= (escape_char(s[0]) + escape(s.skip(1))) + escape_char(c));
        assert(escape(s) == escape_char(s[0]) + escape(s.skip(1)));
    }
}

/// A scan of an escaped payload followed by its closing quote succeeds,
/// recovers the payload, and consumes exactly through the quote.
pub proof fn lemma_scan_complete(u: Seq<char>, t: Seq<char>)
    ensures
        scan(escape(u) + seq!['"'] + t) == Some((u, escape(u).len() + 1int)),
    decreases u.len(),
{
    let s = escape(u) + seq!['"'] + t;
    if u.len() == 0 {
        assert(escape(u) =~= Seq::<char>::empty());
        assert(s[0] == '"');
        assert(u =~= Seq::<char>::empty());
    } else {
        let c = u[0];
        let rest = u.skip(1);
        lemma_scan_complete(rest, t);
        assert(escape(u) == escape_char(c) + escape(rest));
        if c == '"' || c == '\\' || c == '\n' || c == '\r' || c == '\t' {
            assert(escape_char(c).len() == 2);
            assert(s[0] == '\\');
            assert(s[1] == escape_char(c)[1]);
            assert(unescape_char(s[1]) == Some(c));
            assert(s.skip(2) =~= escape(rest) + seq!['"'] + t);
            assert(seq![c] + rest =~= u);
        } else {
            assert(escape_char(c) =~= seq![c]);
            assert(s[0] == c);
            assert(s.skip(1) =~= escape(rest) + seq!['"'] + t);
            assert(seq![c] + rest =~= u);
        }
    }
}

/// What a successful scan consumed is exactly the canonical wire form of
/// what it decoded, followed by the closing quote.
pub proof fn lemma_scan_sound(s: Seq<char>)
    requires
        scan(s) is Some,
    ensures
        ({
            let p = scan(s)->0;
            &&& 1 <= p.1 <= s.len()
            &&& p.1 == escape(p.0).len() + 1
            &&& s.take(p.1) == escape(p.0) + seq!['"']
        }),
    decreases s.len(),
{
    let p = scan(s)->0;
    let u = p.0;
    let n = p.1;
    if s[0] == '"' {
        assert(u =~= Seq::<char>::empty());
        assert(escape(u) =~= Seq::<char>::empty());
        assert(s.take(1) =~= seq![s[0]]);
        assert(s.take(n) =~= escape(u) + seq!['"']);
    } else if s[0] == '\\' {
        let c = unescape_char(s[1])->0;
        lemma_scan_sound(s.skip(2));
        let p2 = scan(s.skip(2))->0;
        let u2 = p2.0;
        let n2 = p2.1;
        assert(u == seq![c] + u2);
        assert(n == n2 + 2);
        assert(u[0] == c);
        assert(u.skip(1) =~= u2);
        assert(escape(u) == escape_char(c) + escape(u2));
        assert(escape_char(c) =~= seq!['\\', s[1]]);
        assert(s.take(n) =~= seq![s[0], s[1]] + s.skip(2).take(n2));
        assert(s.take(n) =~= escape(u) + seq!['"']);
    } else {
        let c = s[0];
        lemma_scan_sound(s.skip(1));
        let p2 = scan(s.skip(1))->0;
        let u2 = p2.0;
        let n2 = p2.1;
        assert(u == seq![c] + u2);
        assert(n == n2 + 1);
        assert(u[0] == c);
        assert(u.skip(1) =~= u2);
        assert(escape(u) == escape_char(c) + escape(u2));
        assert(escape_char(c) =~= seq![c]);
        assert(s.take(n) =~= seq![c] + s.skip(1).take(n2));
        assert(s.take(n) =~= escape(u) + seq!['"']);
    }
}

/// The wire form of a payload never contains a raw newline, so newline
/// framing can never split a payload.
pub proof fn lemma_escape_no_newline(s: Seq<char>)
    ensures
        forall|k: int| 0 <= k < escape(s).len() ==> escape(s)[k] != '\n',
    decreases s.len(),
{
    if s.len() > 0 {
        lemma_escape_no_newline(s.skip(1));
        assert(escape(s) == escape_char(s[0]) + escape(s.skip(1)));
        assert forall|k: int| 0 <= k < escape(s).len() implies escape(s)[k] != '\n' by {
            let ec = escape_char(s[0]);
            if k < ec.len() {
                assert(escape(s)[k] == ec[k]);
            } else {
                assert(escape(s)[k] == escape(s.skip(1))[k - ec.len()]);
            }
        }
    }
}

/// Escapes a payload string into its wire form.
pub fn escape_str(s: &str) -> (r: String)
    ensures
        r@ == escape(s@),
{
    let n = s.unicode_len();
    let mut out = String::new();
    let mut i: usize = 0;
    while i < n
        invariant
            n == s@.len(),
            i <= n,
            out@ == escape(s@.take(i as int)),
        decreases n - i,
    {
        let c = s.get_char(i);
        proof {
            lemma_escape_snoc(s@.take(i as int), c);
            assert(s@.take(i + 1) =~= s@.take(i as int).push(c));
        }
        if c == '"' {
            text::push_char(&mut out, '\\');
            text::push_char(&mut out, '"');
        } else if c == '\\' {
            text::push_char(&mut out, '\\');
            text::push_char(&mut out, '\\');
        } else if c == '\n' {
            text::push_char(&mut out, '\\');
            text::push_char(&mut out, 'n');
        } else if c == '\r' {
            text::push_char(&mut out, '\\');
            text::push_char(&mut out, 'r');
        } else if c == '\t' {
            text::push_char(&mut out, '\\');
            text::push_char(&mut out, 't');
        } else {
            text::push_char(&mut out, c);
        }
        proof {
            assert(out@ =~= escape(s@.take(i + 1)));
        }
        i += 1;
    }
    proof {
        assert(s@.take(n as int) =~= s@);
    }
    out
}

/// Encodes one event into its canonical wire form, without the newline
/// delimiter.
pub fn encode(e: &ChatEvent) -> (r: String)
    ensures
        r@ == spec_encode(e@),
{
    match e {
        ChatEvent::NewUser { username } => {
            let mut out = String::from_str("{\"NewUser\": \"");
            let esc = escape_str(username.as_str());
            out.append(esc.as_str());
            out.append("\"}");
            proof {
                assert(out@ =~= spec_encode(e@));
            }
            out
        },
        ChatEvent::UserExit { username } => {
            let mut out = String::from_str("{\"UserExit\": \"");
            let esc = escape_str(username.as_str());
            out.append(esc.as_str());
            out.append("\"}");
            proof {
                assert(out@ =~= spec_encode(e@));
            }
            out
        },
        ChatEvent::ChatMessage { destination_user, body } => {
            let mut out = String::from_str("{\"Message\": {\"user\": \"");
            let esc_user = escape_str(destination_user.as_str());
            out.append(esc_user.as_str());
            out.append("\", \"message\": \"");
            let esc_body = escape_str(body.as_str());
            out.append(esc_body.as_str());
            out.append("\"}}");
            proof {
                assert(out@ =~= spec_encode(e@));
            }
            out
        },
    }
}

fn unescape_char_exec(c: char) -> (r: Option<char>)
    ensures
        r == unescape_char(c),
{
    if c == '"' {
        Some('"')
    } else if c == '\\' {
        Some('\\')
    } else if c == 'n' {
        Some('\n')
    } else if c == 'r' {
        Some('\r')
    } else if c == 't' {
        Some('\t')
    } else {
        None
    }
}

/// Reads one escaped payload of `s` starting at position `start`, as
/// [`scan`] describes; on success returns the decoded payload and the
/// position just past the closing quote.
fn scan_string(s: &str, start: usize) -> (r: Option<(String, usize)>)
    requires
        start <= s@.len(),
    ensures
        match r {
            Some(p) => start < p.1 <= s@.len() && scan(s@.skip(start as int)) == Some(
                (p.0@, p.1 - start as int),
            ),
            None => scan(s@.skip(start as int)) is None,
        },
{
    let n = s.unicode_len();
    let mut i: usize = start;
    let mut acc = String::new();
    loop
        invariant
            start <= i <= n,
            n == s@.len(),
            match scan(s@.skip(i as int)) {
                None => scan(s@.skip(start as int)) is None,
                Some(p) => scan(s@.skip(start as int)) == Some((acc@ + p.0, p.1 + i - start)),
            },
        decreases n - i,
    {
        if i == n {
            proof {
                assert(s@.skip(i as int) =~= Seq::<char>::empty());
            }
            return None;
        }
        let c = s.get_char(i);
        proof {
            assert(s@.skip(i as int)[0] == c);
        }
        if c == '"' {
            proof {
                assert(scan(s@.skip(i as int)) == Some((Seq::<char>::empty(), 1int)));
                assert(acc@ + Seq::<char>::empty() =~= acc@);
            }
            return Some((acc, i + 1));
        } else if c == '\\' {
            if i + 1 == n {
                proof {
                    assert(s@.skip(i as int).len() == 1);
                }
                return None;
            }
            let e = s.get_char(i + 1);
            proof {
                assert(s@.skip(i as int)[1] == e);
            }
            match unescape_char_exec(e) {
                None => {
                    return None;
                },
                Some(d) => {
                    let ghost acc0 = acc@;
                    text::push_char(&mut acc, d);
                    proof {
                        assert(s@.skip(i as int).skip(2) =~= s@.skip(i + 2));
                        match scan(s@.skip(i + 2)) {
                            None => {},
                            Some(p) => {
                                assert(acc@ + p.0 =~= acc0 + (seq![d] + p.0));
                            },
                        }
                    }
                    i += 2;
                },
            }
        } else if c == '\n' || c == '\r' || c == '\t' {
            return None;
        } else {
            let ghost acc0 = acc@;
            text::push_char(&mut acc, c);
            proof {
                assert(s@.skip(i as int).skip(1) =~= s@.skip(i + 1));
                match scan(s@.skip(i + 1)) {
                    None => {},
                    Some(p) => {
                        assert(acc@ + p.0 =~= acc0 + (seq![c] + p.0));
                    },
                }
            }
            i += 1;
        }
    }
}

/// Decodes a frame of the shape `<pre><escaped payload>"}`: the common
/// form of the `NewUser` and `UserExit` documents.
fn parse_unary(line: &str, pre: &str) -> (r: Option<String>)
    ensures
        r matches Some(u) ==> line@ == pre@ + escape(u@) + "\"}"@,
        r is None ==> forall|u: Seq<char>| line@ != pre@ + #[trigger] escape(u) + "\"}"@,
{
    proof {
        reveal_strlit("\"}");
        reveal_strlit("}");
        assert("\"}"@ =~= seq!['"'] + "}"@);
    }
    let n = line.unicode_len();
    let plen = pre.unicode_len();
    if !text::starts_with_at(line, 0, pre) {
        proof {
            assert forall|u: Seq<char>| line@ != pre@ + #[trigger] escape(u) + "\"}"@ by {
                if line@ == pre@ + escape(u) + "\"}"@ {
                    assert(line@.subrange(0, pre@.len() as int) =~= pre@);
                }
            }
        }
        return None;
    }
    match scan_string(line, plen) {
        None => {
            proof {
                assert forall|u: Seq<char>| line@ != pre@ + #[trigger] escape(u) + "\"}"@ by {
                    if line@ == pre@ + escape(u) + "\"}"@ {
                        assert(line@.skip(plen as int) =~= escape(u) + seq!['"'] + "}"@);
                        lemma_scan_complete(u, "}"@);
                    }
                }
            }
            None
        },
        Some((u, j)) => {
            if text::starts_with_at(line, j, "}") && n - j == 1 {
                proof {
                    lemma_scan_sound(line@.skip(plen as int));
                    assert(line@.skip(plen as int).take(j - plen) =~= line@.subrange(
                        plen as int,
                        j as int,
                    ));
                    assert(line@.subrange(j as int, j + 1int) =~= "}"@);
                    assert(line@ =~= line@.subrange(0, plen as int) + line@.subrange(
                        plen as int,
                        j as int,
                    ) + line@.subrange(j as int, n as int));
                    assert(line@ =~= pre@ + escape(u@) + "\"}"@);
                }
                Some(u)
            } else {
                proof {
                    assert forall|u2: Seq<char>| line@ != pre@ + #[trigger] escape(u2) + "\"}"@ by {
                        if line@ == pre@ + escape(u2) + "\"}"@ {
                            assert(line@.skip(plen as int) =~= escape(u2) + seq!['"'] + "}"@);
                            lemma_scan_complete(u2, "}"@);
                            assert(u@ == u2);
                            assert(j - plen == escape(u2).len() + 1);
                            assert(line@.len() == j + 1);
                            assert(line@.subrange(j as int, j + 1int) =~= "}"@);
                        }
                    }
                }
                None
            }
        },
    }
}

/// Decodes a frame of the shape of the `Message` document.
#[verifier::rlimit(50)]
fn parse_message(line: &str) -> (r: Option<(String, String)>)
    ensures
        r matches Some(p) ==> line@ == "{\"Message\": {\"user\": \""@ + escape(p.0@)
            + "\", \"message\": \""@ + escape(p.1@) + "\"}}"@,
        r is None ==> forall|d: Seq<char>, b: Seq<char>|
            line@ != "{\"Message\": {\"user\": \""@ + #[trigger] escape(d) + "\", \"message\": \""@
                + #[trigger] escape(b) + "\"}}"@,
{
    proof {
        reveal_strlit("\", \"message\": \"");
        reveal_strlit(", \"message\": \"");
        reveal_strlit("\"}}");
        reveal_strlit("}}");
        assert("\", \"message\": \""@ =~= seq!['"'] + ", \"message\": \""@);
        assert("\"}}"@ =~= seq!['"'] + "}}"@);
    }
    let n = line.unicode_len();
    let pre = "{\"Message\": {\"user\": \"";
    let plen = pre.unicode_len();
    let mid = ", \"message\": \"";
    let mlen = mid.unicode_len();
    let ghost enc = |d: Seq<char>, b: Seq<char>|
        "{\"Message\": {\"user\": \""@ + escape(d) + "\", \"message\": \""@ + escape(b) + "\"}}"@;
    if !text::starts_with_at(line, 0, pre) {
        proof {
            assert forall|d: Seq<char>, b: Seq<char>|
                line@ != "{\"Message\": {\"user\": \""@ + #[trigger] escape(d)
                    + "\", \"message\": \""@ + #[trigger] escape(b) + "\"}}"@ by {
                if line@ == enc(d, b) {
                    assert(line@.subrange(0, pre@.len() as int) =~= pre@);
                }
            }
        }
        return None;
    }
    let s1 = scan_string(line, plen);
    if s1.is_none() {
        proof {
            assert forall|d: Seq<char>, b: Seq<char>|
                line@ != "{\"Message\": {\"user\": \""@ + #[trigger] escape(d)
                    + "\", \"message\": \""@ + #[trigger] escape(b) + "\"}}"@ by {
                if line@ == enc(d, b) {
                    assert(line@.skip(plen as int) =~= escape(d) + seq!['"'] + (", \"message\": \""@
                        + escape(b) + "\"}}"@));
                    lemma_scan_complete(d, ", \"message\": \""@ + escape(b) + "\"}}"@);
                }
            }
        }
        return None;
    }
    let (du, j1) = s1.unwrap();
    // After the first payload the document must continue with the
    // `message` key, a second payload, and the two closing braces.
    let ok_mid = text::starts_with_at(line, j1, mid);
    if ok_mid {
        let s2 = scan_string(line, j1 + mlen);
        if let Some((bu, j2)) = s2 {
            if text::starts_with_at(line, j2, "}}") && n - j2 == 2 {
                proof {
                    lemma_scan_sound(line@.skip(plen as int));
                    lemma_scan_sound(line@.skip(j1 + mlen));
                    assert(line@.skip(plen as int).take(j1 - plen) =~= line@.subrange(
                        plen as int,
                        j1 as int,
                    ));
                    assert(line@.skip(j1 + mlen).take(j2 - j1 - mlen) =~= line@.subrange(
                        j1 + mlen,
                        j2 as int,
                    ));
                    assert(line@ =~= line@.subrange(0, plen as int) + line@.subrange(
                        plen as int,
                        j1 as int,
                    ) + line@.subrange(j1 as int, j1 + mlen) + line@.subrange(j1 + mlen, j2 as int)
                        + line@.subrange(j2 as int, n as int));
                    assert(line@.subrange(j1 as int, j1 + mlen) =~= ", \"message\": \""@);
                    assert(line@.subrange(j2 as int, n as int) =~= "}}"@);
                    assert(line@ =~= enc(du@, bu@));
                }
                return Some((du, bu));
            }
        }
    }
    // One of the checks after the first payload failed: no pair of
    // payloads can encode to this line, because a scan of a canonical
    // line is forced to agree with the scans made above.
    proof {
        assert forall|d: Seq<char>, b: Seq<char>|
            line@ != "{\"Message\": {\"user\": \""@ + #[trigger] escape(d) + "\", \"message\": \""@
                + #[trigger] escape(b) + "\"}}"@ by {
            if line@ == enc(d, b) {
                let t1 = ", \"message\": \""@ + escape(b) + "\"}}"@;
                assert(line@.skip(plen as int) =~= escape(d) + seq!['"'] + t1);
                lemma_scan_complete(d, t1);
                assert(du@ == d);
                assert(j1 - plen == escape(d).len() + 1);
                assert(line@.subrange(j1 as int, j1 + mid@.len() as int) =~= ", \"message\": \""@);
                assert(ok_mid);
                assert(line@.skip(j1 + mlen) =~= escape(b) + seq!['"'] + "}}"@);
                lemma_scan_complete(b, "}}"@);
                let j2 = j1 + mlen + escape(b).len() + 1;
                assert(line@.len() == j2 + 2);
                assert(line@.subrange(j2 as int, j2 + 2) =~= "}}"@);
            }
        }
    }
    None
}

/// Decodes one complete frame, without its newline delimiter.
///
/// Exactly the canonical encodings decode, and each to the one event it
/// encodes; every other frame is a protocol violation, `Malformed`.
/// The incomplete-input and end-of-stream cases belong to the framing
/// layer, which sees the stream; see [`crate::frame::next_event`].
pub fn decode(line: &str) -> (r: Result<ChatEvent, DecodeError>)
    ensures
        r matches Ok(e) ==> line@ == spec_encode(e@),
        (exists|v: EventV| line@ == spec_encode(v)) ==> r is Ok,
        r matches Err(err) ==> err == DecodeError::Malformed,
{
    if let Some(u) = parse_unary(line, "{\"NewUser\": \"") {
        return Ok(ChatEvent::NewUser { username: u });
    }
    if let Some(u) = parse_unary(line, "{\"UserExit\": \"") {
        return Ok(ChatEvent::UserExit { username: u });
    }
    if let Some((d, b)) = parse_message(line) {
        return Ok(ChatEvent::ChatMessage { destination_user: d, body: b });
    }
    proof {
        if exists|v: EventV| line@ == spec_encode(v) {
            let v = choose|v: EventV| line@ == spec_encode(v);
            match v {
                EventV::NewUser { username } => {
                    assert(line@ == "{\"NewUser\": \""@ + escape(username) + "\"}"@);
                },
                EventV::UserExit { username } => {
                    assert(line@ == "{\"UserExit\": \""@ + escape(username) + "\"}"@);
                },
                EventV::ChatMessage { destination_user, body } => {
                    assert(line@ == "{\"Message\": {\"user\": \""@ + escape(destination_user)
                        + "\", \"message\": \""@ + escape(body) + "\"}}"@);
                },
            }
        }
    }
    Err(DecodeError::Malformed)
}

/// No two distinct events share a wire form: together with the contracts
/// of [`encode`] and [`decode`], decoding an encoded event yields back
/// that very event.
pub proof fn lemma_encode_injective(v1: EventV, v2: EventV)
    requires
        spec_encode(v1) == spec_encode(v2),
    ensures
        v1 == v2,
{
    reveal_strlit("{\"NewUser\": \"");
    reveal_strlit("{\"UserExit\": \"");
    reveal_strlit("{\"Message\": {\"user\": \"");
    reveal_strlit("\", \"message\": \"");
    reveal_strlit(", \"message\": \"");
    reveal_strlit("\"}");
    reveal_strlit("}");
    reveal_strlit("\"}}");
    reveal_strlit("}}");
    let s = spec_encode(v1);
    // The three documents disagree on their third character, so both
    // events are of the same variant.
    lemma_variant_tag(v1);
    lemma_variant_tag(v2);
    assert(variant_tag(v1) == variant_tag(v2));
    match (v1, v2) {
        (EventV::NewUser { username: u1 }, EventV::NewUser { username: u2 }) => {
            assert(s =~= "{\"NewUser\": \""@ + escape(u1) + (seq!['"'] + "}"@));
            assert(s =~= "{\"NewUser\": \""@ + escape(u2) + (seq!['"'] + "}"@));
            lemma_same_tail(s, "{\"NewUser\": \""@, u1, u2, "}"@);
        },
        (EventV::UserExit { username: u1 }, EventV::UserExit { username: u2 }) => {
            assert(s =~= "{\"UserExit\": \""@ + escape(u1) + (seq!['"'] + "}"@));
            assert(s =~= "{\"UserExit\": \""@ + escape(u2) + (seq!['"'] + "}"@));
            lemma_same_tail(s, "{\"UserExit\": \""@, u1, u2, "}"@);
        },
        (
            EventV::ChatMessage { destination_user: d1, body: b1 },
            EventV::ChatMessage { destination_user: d2, body: b2 },
        ) => {
            let pre = "{\"Message\": {\"user\": \""@;
            assert("\", \"message\": \""@ =~= seq!['"'] + ", \"message\": \""@);
            assert("\"}}"@ =~= seq!['"'] + "}}"@);
            let t1 = ", \"message\": \""@ + escape(b1) + "\"}}"@;
            let t2 = ", \"message\": \""@ + escape(b2) + "\"}}"@;
            assert(s.skip(pre.len() as int) =~= escape(d1) + seq!['"'] + t1);
            assert(s.skip(pre.len() as int) =~= escape(d2) + seq!['"'] + t2);
            lemma_scan_complete(d1, t1);
            lemma_scan_complete(d2, t2);
            assert(d1 == d2);
            let j = pre.len() + escape(d1).len() + 1 + ", \"message\": \""@.len();
            assert(s.skip(j as int) =~= escape(b1) + seq!['"'] + "}}"@);
            assert(s.skip(j as int) =~= escape(b2) + seq!['"'] + "}}"@);
            lemma_scan_complete(b1, "}}"@);
            lemma_scan_complete(b2, "}}"@);
            assert(b1 == b2);
        },
        _ => {
            assert(false);
        },
    }
}

/// What a frame means: the one event it canonically encodes, if any.
/// [`decode`] returns `Ok` exactly on the frames this names, and the
/// event it returns encodes back to the frame.
pub open spec fn spec_decode(line: Seq<char>) -> Option<EventV> {
    if exists|v: EventV| line == spec_encode(v) {
        Some(choose|v: EventV| line == spec_encode(v))
    } else {
        None
    }
}

/// The round-trip law: encoding any event and decoding the result
/// yields an equal event, whatever its variant and payloads.
pub proof fn lemma_round_trip(v: EventV)
    ensures
        spec_decode(spec_encode(v)) == Some(v),
{
    assert(spec_encode(v) == spec_encode(v));
    let w = choose|w: EventV| spec_encode(v) == spec_encode(w);
    lemma_encode_injective(v, w);
}

/// The third character of an event's wire form identifies its variant.
proof fn lemma_variant_tag(v: EventV)
    ensures
        spec_encode(v).len() > 2,
        spec_encode(v)[2] == variant_tag(v),
{
    reveal_strlit("{\"NewUser\": \"");
    reveal_strlit("{\"UserExit\": \"");
    reveal_strlit("{\"Message\": {\"user\": \"");
}

/// The third character of an event's wire form, which identifies the
/// variant.
spec fn variant_tag(v: EventV) -> char {
    match v {
        EventV::NewUser { .. } => 'N',
        EventV::UserExit { .. } => 'U',
        EventV::ChatMessage { .. } => 'M',
    }
}

/// Two unary documents with the same prefix and equal wire forms carry
/// the same payload.
proof fn lemma_same_tail(s: Seq<char>, pre: Seq<char>, u1: Seq<char>, u2: Seq<char>, t: Seq<char>)
    requires
        s == pre + escape(u1) + (seq!['"'] + t),
        s == pre + escape(u2) + (seq!['"'] + t),
    ensures
        u1 == u2,
{
    assert(s.skip(pre.len() as int) =~= escape(u1) + seq!['"'] + t);
    assert(s.skip(pre.len() as int) =~= escape(u2) + seq!['"'] + t);
    lemma_scan_complete(u1, t);
    lemma_scan_complete(u2, t);
}

} // verus!
