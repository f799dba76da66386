//! The event dispatcher: the streaming-connection state machine, the
//! classification of received frames, the acknowledgement rules, and the
//! best-effort recovery of an envelope id from a frame that failed
//! structural parsing. The transport itself (the websocket, the HTTP
//! calls) stays outside the library; it hands frames in as plain values
//! and carries the returned acknowledgements and replies back out.

use vstd::prelude::*;
use vstd::string::{StrSliceExecFns, StringExecFns};

use crate::executor::{run_post, ExecutionResult, ExecutorExecuteError, Executors};
use crate::text::{
    drop_while, find_char, find_char_from, find_pat, find_substr, is_space, is_space_char,
    lemma_drop_while_skip, lemma_find_pat, push_char,
};

verus! {

/// The payload event carried inside an enveloped message, reduced to the
/// fields the dispatcher reads.
#[derive(Debug, Clone, PartialEq, Eq)]
pub enum PayloadEvent {
    /// The bot was mentioned; carries the message text and its timestamp.
    AppMention { text: String, ts: String },
    /// A message was sent to a channel; carries the text and its timestamp.
    ChannelMessageSent { text: String, ts: String },
    /// A message was deleted.
    ChannelMessageDeleted,
    /// A reply inside a thread; never triggers execution, which keeps the
    /// bot's own replies from re-triggering it.
    ThreadReply,
    /// A reaction was added or removed; carries the event type and the
    /// reaction name.
    ReactionUpdated { kind: String, reaction: String },
    /// A structurally valid event of a shape the dispatcher does not know.
    Unrecognized,
}

/// One frame read from the streaming connection, as the transport layer
/// hands it to the dispatcher.
#[derive(Debug, Clone, PartialEq, Eq)]
pub enum InboundFrame {
    /// A transport keep-alive; ignored.
    Ping,
    /// The handshake notice the platform sends on connect.
    Hello,
    /// An enveloped message: the correlation token to echo back and the
    /// payload event.
    NormalMessage { envelope_id: String, event: PayloadEvent },
    /// A frame that failed structural parsing, with the envelope id
    /// recovered from its raw text if one could be.
    Malformed { envelope_id: Option<String> },
}

/// What the dispatcher decides for one received frame: the envelope to
/// acknowledge (exactly one acknowledgement per enveloped message), the
/// thread to post a reply into, and the outcome of command execution where
/// the frame carried chat text to run.
pub struct FrameOutcome {
    pub ack: Option<String>,
    pub reply_thread: Option<String>,
    pub executed: Option<Result<ExecutionResult, ExecutorExecuteError>>,
}

/// The view of an optional string.
pub open spec fn opt_view(o: Option<String>) -> Option<Seq<char>> {
    match o {
        None => None,
        Some(s) => Some(s@),
    }
}

/// The envelope a frame is acknowledged under, if any: every enveloped
/// message is acknowledged, whatever its payload and whatever comes of its
/// processing; a malformed frame is acknowledged exactly when its envelope
/// id could be recovered; keep-alives and the handshake notice are not.
pub open spec fn ack_decision(f: InboundFrame) -> Option<Seq<char>> {
    match f {
        InboundFrame::Ping => None,
        InboundFrame::Hello => None,
        InboundFrame::NormalMessage { envelope_id, .. } => Some(envelope_id@),
        InboundFrame::Malformed { envelope_id } => opt_view(envelope_id),
    }
}

/// The chat text a frame routes to the execution path, with the timestamp
/// of the thread to reply into: only a mention or a channel message runs a
/// command.
pub open spec fn run_decision(f: InboundFrame) -> Option<(Seq<char>, Seq<char>)> {
    match f {
        InboundFrame::NormalMessage { event: PayloadEvent::AppMention { text, ts }, .. } => Some(
            (text@, ts@),
        ),
        InboundFrame::NormalMessage {
            event: PayloadEvent::ChannelMessageSent { text, ts },
            ..
        } => Some((text@, ts@)),
        _ => None,
    }
}

/// The streaming-connection lifecycle.
#[derive(Debug, Clone, Copy, PartialEq, Eq, Structural)]
pub enum ConnectionState {
    /// No transport is open.
    Disconnected,
    /// An endpoint was obtained and the transport is being opened.
    Connecting,
    /// The handshake succeeded; frames are being read.
    Connected,
    /// A hard transport error or an explicit shutdown ended the session.
    Closed,
}

/// The event dispatcher: owns the connection lifecycle and the registry,
/// and decides, frame by frame, what to acknowledge, what to run and what
/// to reply to. It keeps no per-message state: in particular no record of
/// which envelopes were already acknowledged.
pub struct Dispatcher {
    pub state: ConnectionState,
    pub executors: Executors,
}

impl Dispatcher {
    /// A dispatcher over the given registry, not yet connected.
    pub fn new(executors: Executors) -> (r: Dispatcher)
        ensures
            r.state == ConnectionState::Disconnected,
            r.executors == executors,
    {
        Dispatcher { state: ConnectionState::Disconnected, executors }
    }

    /// An endpoint was obtained and the transport is being opened.
    pub fn begin_connect(&mut self)
        requires
            old(self).state == ConnectionState::Disconnected,
        ensures
            final(self).state == ConnectionState::Connecting,
            final(self).executors == old(self).executors,
    {
        self.state = ConnectionState::Connecting;
    }

    /// The transport handshake succeeded.
    pub fn handshake_complete(&mut self)
        requires
            old(self).state == ConnectionState::Connecting,
        ensures
            final(self).state == ConnectionState::Connected,
            final(self).executors == old(self).executors,
    {
        self.state = ConnectionState::Connected;
    }

    /// The transport failed while opening or reading, or was shut down:
    /// the session is over and the dispatcher does not reconnect.
    pub fn connection_lost(&mut self)
        requires
            old(self).state == ConnectionState::Connecting || old(self).state
                == ConnectionState::Connected,
        ensures
            final(self).state == ConnectionState::Closed,
            final(self).executors == old(self).executors,
    {
        self.state = ConnectionState::Closed;
    }

    /// Classifies one received frame and, for a mention or a channel
    /// message, runs it through the execution engine. The acknowledgement
    /// and the reply thread are decided by the frame alone, never by what
    /// came of execution, and the dispatcher itself is untouched: the
    /// connection stays `Connected` and no acknowledgement history is kept.
    pub fn handle_frame(&self, frame: InboundFrame) -> (r: FrameOutcome)
        requires
            self.state == ConnectionState::Connected,
        ensures
            opt_view(r.ack) == ack_decision(frame),
            match run_decision(frame) {
                None => r.executed is None && r.reply_thread is None,
                Some((text, ts)) => opt_view(r.reply_thread) == Some(ts) && (r.executed matches
                Some(res) && run_post(self.executors@, text, res)),
            },
    {
        match frame {
            InboundFrame::Ping => FrameOutcome { ack: None, reply_thread: None, executed: None },
            InboundFrame::Hello => FrameOutcome { ack: None, reply_thread: None, executed: None },
            InboundFrame::NormalMessage { envelope_id, event } => match event {
                PayloadEvent::AppMention { text, ts } => {
                    let res = self.executors.execute_from_slack_message(text.as_str());
                    FrameOutcome {
                        ack: Some(envelope_id),
                        reply_thread: Some(ts),
                        executed: Some(res),
                    }
                },
                PayloadEvent::ChannelMessageSent { text, ts } => {
                    let res = self.executors.execute_from_slack_message(text.as_str());
                    FrameOutcome {
                        ack: Some(envelope_id),
                        reply_thread: Some(ts),
                        executed: Some(res),
                    }
                },
                _ => FrameOutcome { ack: Some(envelope_id), reply_thread: None, executed: None },
            },
            InboundFrame::Malformed { envelope_id } => FrameOutcome {
                ack: envelope_id,
                reply_thread: None,
                executed: None,
            },
        }
    }
}

/// The acknowledgements a run of frames gives rise to, in arrival order.
pub open spec fn acks_of(frames: Seq<InboundFrame>) -> Seq<Seq<char>>
    decreases frames.len(),
{
    if frames.len() == 0 {
        Seq::empty()
    } else {
        acks_of(frames.drop_last()) + match ack_decision(frames.last()) {
            None => Seq::empty(),
            Some(a) => seq![a],
        }
    }
}

/// Law: acknowledging an envelope twice is safe. The acknowledgement for a
/// frame is decided by that frame alone — the dispatcher keeps no record of
/// envelopes already acknowledged — so a frame delivered twice simply
/// repeats its own acknowledgement and leaves every other acknowledgement
/// unchanged. (`handle_frame` takes the dispatcher immutably, so neither
/// the registry nor the connection state can be corrupted by the repeat.)
pub proof fn lemma_ack_idempotent(prefix: Seq<InboundFrame>, f: InboundFrame)
    ensures
        acks_of(prefix.push(f).push(f)) == acks_of(prefix.push(f)) + (match ack_decision(f) {
            None => Seq::<Seq<char>>::empty(),
            Some(a) => seq![a],
        }),
{
    assert(prefix.push(f).push(f).drop_last() =~= prefix.push(f));
}

/// The lower-case hexadecimal digit for a value below sixteen.
pub open spec fn hex_digit_spec(n: int) -> char {
    if n == 0 {
        '0'
    } else if n == 1 {
        '1'
    } else if n == 2 {
        '2'
    } else if n == 3 {
        '3'
    } else if n == 4 {
        '4'
    } else if n == 5 {
        '5'
    } else if n == 6 {
        '6'
    } else if n == 7 {
        '7'
    } else if n == 8 {
        '8'
    } else if n == 9 {
        '9'
    } else if n == 10 {
        'a'
    } else if n == 11 {
        'b'
    } else if n == 12 {
        'c'
    } else if n == 13 {
        'd'
    } else if n == 14 {
        'e'
    } else {
        'f'
    }
}

/// The lower-case hexadecimal digit for a value below sixteen.
fn hex_digit(n: u32) -> (c: char)
    requires
        n < 16,
    ensures
        c == hex_digit_spec(n as int),
{
    if n == 0 {
        '0'
    } else if n == 1 {
        '1'
    } else if n == 2 {
        '2'
    } else if n == 3 {
        '3'
    } else if n == 4 {
        '4'
    } else if n == 5 {
        '5'
    } else if n == 6 {
        '6'
    } else if n == 7 {
        '7'
    } else if n == 8 {
        '8'
    } else if n == 9 {
        '9'
    } else if n == 10 {
        'a'
    } else if n == 11 {
        'b'
    } else if n == 12 {
        'c'
    } else if n == 13 {
        'd'
    } else if n == 14 {
        'e'
    } else {
        'f'
    }
}

/// How one character is written inside a JSON string literal: quote,
/// backslash and the common control characters get a two-character escape,
/// any other control character a `\u00` escape, and everything else stands
/// as itself.
pub open spec fn json_escape_char(c: char) -> Seq<char> {
    if c == '"' {
        seq!['\\', '"']
    } else if c == '\\' {
        seq!['\\', '\\']
    } else if c == '\n' {
        seq!['\\', 'n']
    } else if c == '\r' {
        seq!['\\', 'r']
    } else if c == '\t' {
        seq!['\\', 't']
    } else if (c as u32) < 32 {
        seq!['\\', 'u', '0', '0', hex_digit_spec(c as int / 16), hex_digit_spec(c as int % 16)]
    } else {
        seq![c]
    }
}

/// A string as it is written inside a JSON string literal.
pub open spec fn json_escape(s: Seq<char>) -> Seq<char>
    decreases s.len(),
{
    if s.len() == 0 {
        Seq::empty()
    } else {
        json_escape(s.drop_last()) + json_escape_char(s.last())
    }
}

/// The acknowledgement frame for an envelope id: a one-field JSON object
/// `{"envelope_id": <token>}`, the token JSON-escaped.
pub open spec fn ack_frame_spec(id: Seq<char>) -> Seq<char> {
    "{\"envelope_id\":\""@ + json_escape(id) + "\"}"@
}

/// Builds the acknowledgement frame for an envelope id, as
/// `ack_frame_spec` describes. The frame is sent back over the transport
/// by the caller; building it twice for the same envelope gives the same
/// frame.
pub fn ack_frame_text(envelope_id: &str) -> (r: String)
    ensures
        r@ == ack_frame_spec(envelope_id@),
{
    let ghost prefix = "{\"envelope_id\":\""@;
    let mut out = String::from_str("{\"envelope_id\":\"");
    let n = envelope_id.unicode_len();
    proof {
        assert(envelope_id@.take(0) =~= Seq::<char>::empty());
        assert(prefix + json_escape(envelope_id@.take(0)) =~= prefix);
    }
    let mut i: usize = 0;
    while i < n
        invariant
            n == envelope_id@.len(),
            i <= n,
            out@ == prefix + json_escape(envelope_id@.take(i as int)),
            prefix == "{\"envelope_id\":\""@,
        decreases n - i,
    {
        let ghost old_out = out@;
        let ghost esc = json_escape(envelope_id@.take(i as int));
        let c = envelope_id.get_char(i);
        if c == '"' {
            out.append("\\\"");
            proof {
                reveal_strlit("\\\"");
                assert("\\\""@ =~= json_escape_char(c));
            }
        } else if c == '\\' {
            out.append("\\\\");
            proof {
                reveal_strlit("\\\\");
                assert("\\\\"@ =~= json_escape_char(c));
            }
        } else if c == '\n' {
            out.append("\\n");
            proof {
                reveal_strlit("\\n");
                assert("\\n"@ =~= json_escape_char(c));
            }
        } else if c == '\r' {
            out.append("\\r");
            proof {
                reveal_strlit("\\r");
                assert("\\r"@ =~= json_escape_char(c));
            }
        } else if c == '\t' {
            out.append("\\t");
            proof {
                reveal_strlit("\\t");
                assert("\\t"@ =~= json_escape_char(c));
            }
        } else if (c as u32) < 32 {
            out.append("\\u00");
            let code = c as u32;
            push_char(&mut out, hex_digit(code / 16));
            push_char(&mut out, hex_digit(code % 16));
            proof {
                reveal_strlit("\\u00");
                assert(out@ =~= old_out + ("\\u00"@ + seq![hex_digit_spec(c as int / 16)] + seq![
                    hex_digit_spec(c as int % 16),
                ]));
                assert("\\u00"@ + seq![hex_digit_spec(c as int / 16)] + seq![
                    hex_digit_spec(c as int % 16),
                ] =~= json_escape_char(c));
            }
        } else {
            push_char(&mut out, c);
            proof {
                assert(seq![c] =~= json_escape_char(c));
            }
        }
        proof {
            assert(envelope_id@.take(i as int + 1).drop_last() =~= envelope_id@.take(i as int));
            assert(envelope_id@.take(i as int + 1).last() == envelope_id@[i as int]);
            assert(json_escape(envelope_id@.take(i as int + 1)) == esc + json_escape_char(c));
            assert((prefix + esc) + json_escape_char(c) =~= prefix + (esc + json_escape_char(c)));
        }
        i += 1;
    }
    proof {
        assert(envelope_id@.take(n as int) =~= envelope_id@);
    }
    out.append("\"}");
    out
}

/// Best-effort recovery of the envelope id from the raw text of a frame
/// that failed structural parsing: the value of the first `"envelope_id"`
/// key — after the key, optional whitespace, a colon, optional whitespace,
/// then a quoted token read up to the next quote. Escapes inside the token
/// are not interpreted: the recovery is best-effort by design.
pub open spec fn recover_spec(raw: Seq<char>) -> Option<Seq<char>> {
    match find_pat(raw, "\"envelope_id\""@) {
        None => None,
        Some(i) => {
            let after_key = drop_while(raw.skip(i + 13), |c: char| is_space_char(c));
            if after_key.len() > 0 && after_key[0] == ':' {
                let after_colon = drop_while(after_key.drop_first(), |c: char| is_space_char(c));
                if after_colon.len() > 0 && after_colon[0] == '"' {
                    match find_char(after_colon.drop_first(), '"') {
                        None => None,
                        Some(j) => Some(after_colon.drop_first().take(j)),
                    }
                } else {
                    None
                }
            } else {
                None
            }
        },
    }
}

/// Recovers the envelope id from the raw text of a frame that failed
/// structural parsing, as `recover_spec` describes, so that the frame can
/// still be acknowledged.
pub fn recover_envelope_id(raw: &str) -> (r: Option<String>)
    ensures
        match recover_spec(raw@) {
            None => r is None,
            Some(v) => r matches Some(s) && s@ == v,
        },
{
    let key = "\"envelope_id\"";
    proof {
        reveal_strlit("\"envelope_id\"");
        assert(key@.len() == 13);
    }
    let n = raw.unicode_len();
    let i = match find_substr(raw, key) {
        None => {
            return None;
        },
        Some(i) => i,
    };
    proof {
        lemma_find_pat(raw@, key@);
    }
    let mut p: usize = i + 13;
    while p < n && is_space(raw.get_char(p))
        invariant
            n == raw@.len(),
            i + 13 <= p <= n,
            forall|t: int| i + 13 <= t < p ==> is_space_char(raw@[t]),
        decreases n - p,
    {
        p += 1;
    }
    proof {
        let sp = |c: char| is_space_char(c);
        let tail = raw@.skip(i as int + 13);
        assert forall|t: int| 0 <= t < p - (i + 13) implies sp(tail[t]) by {
            assert(tail[t] == raw@[t + i + 13]);
        }
        if p < n {
            assert(tail[p - (i + 13)] == raw@[p as int]);
        }
        lemma_drop_while_skip(tail, sp, p - (i + 13));
        assert(tail.skip(p - (i + 13)) =~= raw@.skip(p as int));
    }
    if p >= n {
        return None;
    }
    if raw.get_char(p) != ':' {
        return None;
    }
    let mut q: usize = p + 1;
    while q < n && is_space(raw.get_char(q))
        invariant
            n == raw@.len(),
            p + 1 <= q <= n,
            forall|t: int| p + 1 <= t < q ==> is_space_char(raw@[t]),
        decreases n - q,
    {
        q += 1;
    }
    proof {
        let sp = |c: char| is_space_char(c);
        assert(raw@.skip(p as int).drop_first() =~= raw@.skip(p as int + 1));
        let tail = raw@.skip(p as int + 1);
        assert forall|t: int| 0 <= t < q - (p + 1) implies sp(tail[t]) by {
            assert(tail[t] == raw@[t + p + 1]);
        }
        if q < n {
            assert(tail[q - (p + 1)] == raw@[q as int]);
        }
        lemma_drop_while_skip(tail, sp, q - (p + 1));
        assert(tail.skip(q - (p + 1)) =~= raw@.skip(q as int));
    }
    if q >= n {
        return None;
    }
    if raw.get_char(q) != '"' {
        return None;
    }
    proof {
        assert(raw@.skip(q as int).drop_first() =~= raw@.skip(q as int + 1));
    }
    match find_char_from(raw, q + 1, '"') {
        None => None,
        Some(j) => {
            proof {
                crate::text::lemma_find_char(raw@.skip(q as int + 1), '"');
            }
            let s = raw.substring_char(q + 1, j);
            proof {
                assert(s@ =~= raw@.skip(q as int + 1).take(j - (q + 1)));
            }
            Some(String::from_str(s))
        },
    }
}

/// Law: every enveloped message is acknowledged exactly once, under
/// exactly its own envelope id, whatever payload event it carries — also
/// when the payload is a reaction update, a thread reply or an
/// unrecognized shape, and also when processing of its text failed.
pub proof fn lemma_normal_message_acked(envelope_id: String, event: PayloadEvent)
    ensures
        ack_decision(InboundFrame::NormalMessage { envelope_id, event }) == Some(envelope_id@),
{
}

} // verus!
