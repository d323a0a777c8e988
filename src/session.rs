//! One language-server session: its lifecycle, its requests and the
//! correlation of their replies. The process and its pipes live with the
//! caller, who writes the frames handed out here and feeds back what it reads.
use vstd::prelude::*;
use vstd::string::StringSliceAdditionalSpecFns;
use crate::codec::{
    lemma_decode_encoded, decode, decoded, encode, encoded, lemma_frame_consumes, number_value, parse_number, push_slice, Decoded, FrameError,
};
use crate::command::{
    command_shape, initialize_params, initialize_request, intent_request, method_name, parse_command,
    position_params, request_text, span_ok, word_str, CommandShape, Intent, Parsed,
};
use crate::json::{is_json, json_quoted, parse_json, quote_json, reply_id, reply_id_of};

verus! {

/// Where a session stands.
#[derive(PartialEq, Eq, Structural, Clone, Copy, Debug)]
pub enum Phase {
    NotStarted,
    Spawned,
    Initialized,
    Terminated,
}

/// What a request was for.
#[derive(PartialEq, Eq, Structural, Clone, Copy, Debug)]
pub enum RequestKind {
    Initialize,
    Lookup(Intent),
}

/// The request that awaits its reply.
#[derive(PartialEq, Eq, Structural, Clone, Copy, Debug)]
pub struct Pending {
    pub id: u64,
    pub kind: RequestKind,
}

/// One step of the conversation with the server.
#[derive(PartialEq, Eq, Structural, Clone, Copy, Debug)]
pub enum Exchange {
    Sent(u64, RequestKind),
    Received(u64),
}

/// Why the framing or the order of calls is refused.
#[derive(PartialEq, Eq, Structural, Clone, Copy, Debug)]
pub enum ProtocolError {
    BadLength,
    MissingLength,
    /// A call that the session's phase does not allow.
    OutOfOrder,
}

#[derive(PartialEq, Eq, Structural, Clone, Copy, Debug)]
pub enum LspError {
    /// The server's output ended inside a frame.
    Io,
    Protocol(ProtocolError),
    /// A payload that is not JSON, or text that could not be written as JSON.
    Decode,
    /// A line or column that is not a decimal `u32`.
    InvalidArgument,
    /// The session has ended.
    SessionClosed,
}

pub open spec fn frame_error(e: FrameError) -> LspError {
    match e {
        FrameError::BadLength => LspError::Protocol(ProtocolError::BadLength),
        FrameError::MissingLength => LspError::Protocol(ProtocolError::MissingLength),
    }
}

/// The handshake opens the history: one `initialize` request with id 1 and
/// its reply, and neither comes again.
pub open spec fn handshake_done(h: Seq<Exchange>) -> bool {
    &&& h.len() >= 2
    &&& h[0] == Exchange::Sent(1, RequestKind::Initialize)
    &&& h[1] == Exchange::Received(1)
    &&& forall|k: int|
        2 <= k < h.len() ==> !(#[trigger] h[k] matches Exchange::Sent(_, RequestKind::Initialize))
            && h[k] != Exchange::Received(1)
}

/// A result whose frame is taken as its bytes.
pub open spec fn frame_view(r: Result<Vec<u8>, LspError>) -> Result<Seq<u8>, LspError> {
    match r {
        Ok(f) => Ok(f@),
        Err(e) => Err(e),
    }
}

pub open spec fn command_view(r: Result<Option<Vec<u8>>, LspError>) -> Result<Seq<u8>, LspError> {
    match r {
        Ok(Some(f)) => Ok(f@),
        Ok(None) => Err(LspError::InvalidArgument),
        Err(e) => Err(e),
    }
}

/// The session after it sends a request of `kind`: the request takes the
/// next id and awaits its reply.
pub open spec fn after_send(c: LspConnection, kind: RequestKind) -> LspConnection {
    LspConnection {
        next_id: (c.next_id + 1) as u64,
        pending: Some(Pending { id: c.next_id, kind }),
        history: Ghost(c.history@.push(Exchange::Sent(c.next_id, kind))),
        ..c
    }
}

/// What a lookup does from `pre` to `post`, handing out `r`: refused once the
/// session has ended, or before the handshake, or while a request awaits
/// its reply; else the frame of the request, under the next id.
pub open spec fn lookup_outcome(
    pre: LspConnection,
    post: LspConnection,
    intent: Intent,
    uri: Seq<u8>,
    line: nat,
    column: nat,
    r: Result<Seq<u8>, LspError>,
) -> bool {
    if pre.phase == Phase::Terminated {
        r == Err::<Seq<u8>, LspError>(LspError::SessionClosed) && post == pre
    } else if pre.phase != Phase::Initialized || pre.pending is Some {
        r == Err::<Seq<u8>, LspError>(LspError::Protocol(ProtocolError::OutOfOrder)) && post == pre
    } else {
        r == Ok::<Seq<u8>, LspError>(
            encoded(request_text(pre.next_id as nat, method_name(intent), position_params(json_quoted(uri), line, column))),
        ) && post == after_send(pre, RequestKind::Lookup(intent))
    }
}

/// The session after the reply to its pending request arrived.
pub open spec fn after_reply(c: LspConnection) -> LspConnection {
    let p = c.pending->Some_0;
    LspConnection {
        phase: if p.kind == RequestKind::Initialize {
            Phase::Initialized
        } else {
            c.phase
        },
        pending: None,
        history: Ghost(c.history@.push(Exchange::Received(p.id))),
        ..c
    }
}

/// What the front of the bytes read holds for the request with `id`.
pub enum ReplyScan {
    /// Its reply, after frames of other ids or of none, and what follows it.
    Found { payload: Seq<u8>, rest: Seq<u8> },
    /// A frame that is not JSON, before any reply, and what follows it.
    NotJson { rest: Seq<u8> },
    /// Part of a frame, after any frames of other ids.
    Partial { rest: Seq<u8> },
    Malformed(FrameError),
}

/// Takes frames off the front of `s` until the reply to `id`.
pub open spec fn seek_reply(s: Seq<u8>, id: u64) -> ReplyScan
    decreases s.len(),
{
    match decoded(s) {
        Decoded::Malformed(e) => ReplyScan::Malformed(e),
        Decoded::NeedMore => ReplyScan::Partial { rest: s },
        Decoded::Frame { payload, consumed } => {
            let rest = s.subrange(consumed as int, s.len() as int);
            if !is_json(payload) {
                ReplyScan::NotJson { rest }
            } else if reply_id(payload) == Some(id) {
                ReplyScan::Found { payload, rest }
            } else if 1 <= consumed <= s.len() {
                seek_reply(rest, id)
            } else {
                ReplyScan::Partial { rest: s }
            }
        },
    }
}

/// A frame that carries the reply to `id` is found first, whole, with the
/// bytes after it kept for the next read.
pub proof fn lemma_reply_after_encoded(payload: Seq<u8>, rest: Seq<u8>, id: u64)
    requires
        payload.len() <= usize::MAX,
        is_json(payload),
        reply_id(payload) == Some(id),
    ensures
        seek_reply(encoded(payload) + rest, id) == (ReplyScan::Found { payload, rest }),
{
    lemma_decode_encoded(payload, rest);
    let s = encoded(payload) + rest;
    assert(s.subrange(encoded(payload).len() as int, s.len() as int) =~= rest);
}

/// A reply as it arrived, and the value it holds.
pub struct Reply {
    pub payload: Vec<u8>,
    pub value: serde_json::Value,
}

/// What a lookup whose line and column are still text does: refused unless
/// both are decimal `u32`s, else as `lookup_outcome` says.
pub open spec fn text_lookup_outcome(
    pre: LspConnection,
    post: LspConnection,
    intent: Intent,
    uri: Seq<u8>,
    line: Seq<u8>,
    column: Seq<u8>,
    r: Result<Seq<u8>, LspError>,
) -> bool {
    match (number_value(line, u32::MAX as nat), number_value(column, u32::MAX as nat)) {
        (Some(l), Some(c)) => lookup_outcome(pre, post, intent, uri, l, c, r),
        _ => r == Err::<Seq<u8>, LspError>(LspError::InvalidArgument) && post == pre,
    }
}

/// Once a session is initialized, its history opens with the one
/// `initialize` request and its one reply, and neither comes again.
pub proof fn lemma_initialized_after_handshake(c: LspConnection)
    requires
        c.wf(),
        c.phase == Phase::Initialized,
    ensures
        handshake_done(c.history@),
{
}

/// A lookup is sent only after the handshake: the history it extends opens
/// with the one `initialize` request and its reply.
pub proof fn lemma_lookup_after_handshake(
    pre: LspConnection,
    post: LspConnection,
    intent: Intent,
    uri: Seq<u8>,
    line: nat,
    column: nat,
    r: Result<Seq<u8>, LspError>,
)
    requires
        pre.wf(),
        lookup_outcome(pre, post, intent, uri, line, column, r),
        r is Ok,
    ensures
        pre.phase == Phase::Initialized,
        handshake_done(pre.history@),
        post.history@ == pre.history@.push(Exchange::Sent(pre.next_id, RequestKind::Lookup(intent))),
{
}

/// Every request in the history took an id below `next`, and no two took
/// the same one.
pub open spec fn ids_fresh(h: Seq<Exchange>, next: u64) -> bool {
    &&& forall|k: int| 0 <= k < h.len() ==> (#[trigger] h[k] matches Exchange::Sent(id, _) ==> id < next)
    &&& forall|i: int, j: int|
        0 <= i < j < h.len() && #[trigger] h[i] is Sent && #[trigger] h[j] is Sent ==> h[i]->Sent_0
            != h[j]->Sent_0
}

/// No two requests of a session share an id.
pub proof fn lemma_request_ids_unique(c: LspConnection, i: int, j: int)
    requires
        c.wf(),
        0 <= i < j < c.history@.len(),
        c.history@[i] is Sent,
        c.history@[j] is Sent,
    ensures
        c.history@[i]->Sent_0 != c.history@[j]->Sent_0,
{
}

pub struct LspConnection {
    pub phase: Phase,
    /// The id of the next request.
    pub next_id: u64,
    pub pending: Option<Pending>,
    /// Bytes read from the server and not yet taken as a frame.
    pub inbox: Vec<u8>,
    /// Whether the server's output has ended.
    pub input_closed: bool,
    pub history: Ghost<Seq<Exchange>>,
}

impl LspConnection {
    pub open spec fn wf(&self) -> bool {
        &&& self.next_id >= 1
        &&& ids_fresh(self.history@, self.next_id)
        &&& (self.pending matches Some(p) ==> {
            &&& p.id < self.next_id
            &&& self.history@.len() > 0
            &&& self.history@.last() == Exchange::Sent(p.id, p.kind)
        })
        &&& match self.phase {
            Phase::NotStarted => self.history@.len() == 0 && self.pending is None && self.next_id == 1,
            Phase::Spawned => (self.pending is None && self.history@.len() == 0 && self.next_id == 1) || (
            self.pending == Some(Pending { id: 1, kind: RequestKind::Initialize })
                && self.history@ == seq![Exchange::Sent(1, RequestKind::Initialize)] && self.next_id == 2),
            Phase::Initialized => {
                &&& handshake_done(self.history@)
                &&& self.next_id >= 2
                &&& (self.pending matches Some(p) ==> p.id >= 2 && p.kind != RequestKind::Initialize)
            },
            Phase::Terminated => true,
        }
    }

    /// A session whose server has not been started.
    pub fn new() -> (r: Self)
        ensures
            r.wf(),
            r.phase == Phase::NotStarted,
            r.next_id == 1,
            r.pending is None,
            r.inbox@.len() == 0,
            !r.input_closed,
            r.history@.len() == 0,
    {
        LspConnection {
            phase: Phase::NotStarted,
            next_id: 1,
            pending: None,
            inbox: Vec::new(),
            input_closed: false,
            history: Ghost(Seq::empty()),
        }
    }

    /// Records that the server process was created.
    pub fn spawned(&mut self) -> (r: Result<(), LspError>)
        requires
            old(self).wf(),
        ensures
            final(self).wf(),
            old(self).phase == Phase::NotStarted ==> r is Ok && *final(self) == (LspConnection {
                phase: Phase::Spawned,
                ..*old(self)
            }),
            old(self).phase == Phase::Terminated ==> r == Err::<(), LspError>(LspError::SessionClosed)
                && *final(self) == *old(self),
            old(self).phase != Phase::NotStarted && old(self).phase != Phase::Terminated ==> r == Err::<
                (),
                LspError,
            >(LspError::Protocol(ProtocolError::OutOfOrder)) && *final(self) == *old(self),
    {
        match self.phase {
            Phase::NotStarted => {
                self.phase = Phase::Spawned;
                Ok(())
            },
            Phase::Terminated => Err(LspError::SessionClosed),
            _ => Err(LspError::Protocol(ProtocolError::OutOfOrder)),
        }
    }

    /// Frames `content` for the server's input; refused once the session
    /// has ended.
    pub fn send_message(&self, content: &[u8]) -> (r: Result<Vec<u8>, LspError>)
        ensures
            self.phase == Phase::Terminated ==> r == Err::<Vec<u8>, LspError>(LspError::SessionClosed),
            self.phase != Phase::Terminated ==> (r matches Ok(f) && f@ == encoded(content@)),
    {
        if self.phase == Phase::Terminated {
            return Err(LspError::SessionClosed);
        }
        Ok(encode(content))
    }

    fn record_sent(&mut self, kind: RequestKind) -> (id: u64)
        requires
            old(self).wf(),
            old(self).pending is None,
            old(self).next_id < u64::MAX,
            (kind == RequestKind::Initialize && old(self).phase == Phase::Spawned) || (kind is Lookup
                && old(self).phase == Phase::Initialized),
        ensures
            final(self).wf(),
            id == old(self).next_id,
            *final(self) == after_send(*old(self), kind),
    {
        let id = self.next_id;
        self.next_id = self.next_id + 1;
        self.pending = Some(Pending { id, kind });
        self.history = Ghost(self.history@.push(Exchange::Sent(id, kind)));
        proof {
            let h = self.history@;
            let oh = old(self).history@;
            assert forall|k: int| 0 <= k < h.len() implies (#[trigger] h[k] matches Exchange::Sent(i, _)
                ==> i < self.next_id) by {
                if k < oh.len() {
                    assert(h[k] == oh[k]);
                }
            }
            assert forall|a: int, b: int|
                0 <= a < b < h.len() && #[trigger] h[a] is Sent && #[trigger] h[b] is Sent implies h[a]->Sent_0
                != h[b]->Sent_0 by {
                assert(h[a] == oh[a]);
                if b < oh.len() {
                    assert(h[b] == oh[b]);
                } else {
                    assert(oh[a] matches Exchange::Sent(i, _) ==> i < old(self).next_id);
                }
            }
            if self.phase == Phase::Spawned {
                assert(self.history@ =~= seq![Exchange::Sent(1, RequestKind::Initialize)]);
            }
            if self.phase == Phase::Initialized {
                let h = self.history@;
                assert forall|k: int| 2 <= k < h.len() implies !(#[trigger] h[k] matches Exchange::Sent(
                    _,
                    RequestKind::Initialize,
                )) && h[k] != Exchange::Received(1) by {
                    if k < h.len() - 1 {
                        assert(h[k] == old(self).history@[k]);
                    }
                }
            }
        }
        id
    }

    /// The handshake: the frame of the `initialize` request, which carries
    /// the client's process id and the root URI, once the server runs.
    pub fn initialize(&mut self, process_id: u32, root_uri: &str) -> (r: Result<Vec<u8>, LspError>)
        requires
            old(self).wf(),
        ensures
            final(self).wf(),
            old(self).phase == Phase::Terminated ==> r == Err::<Vec<u8>, LspError>(LspError::SessionClosed)
                && *final(self) == *old(self),
            old(self).phase != Phase::Terminated && (old(self).phase != Phase::Spawned
                || old(self).pending is Some) ==> r == Err::<Vec<u8>, LspError>(
                LspError::Protocol(ProtocolError::OutOfOrder),
            ) && *final(self) == *old(self),
            old(self).phase == Phase::Spawned && old(self).pending is None ==> (r matches Ok(f) && f@
                == encoded(
                request_text(
                    1,
                    "initialize".spec_bytes(),
                    initialize_params(process_id as nat, json_quoted(root_uri.spec_bytes())),
                ),
            )) && *final(self) == after_send(*old(self), RequestKind::Initialize),
    {
        if self.phase == Phase::Terminated {
            return Err(LspError::SessionClosed);
        }
        if self.phase != Phase::Spawned || self.pending.is_some() {
            return Err(LspError::Protocol(ProtocolError::OutOfOrder));
        }
        let root = match quote_json(root_uri) {
            Ok(q) => q,
            Err(_) => {
                return Err(LspError::Decode);
            },
        };
        let text = initialize_request(self.next_id, process_id, &root);
        let frame = self.send_message(&text);
        self.record_sent(RequestKind::Initialize);
        frame
    }

    /// The frame of a lookup request at `line` and `column` of the document
    /// `uri`.
    pub fn lookup(&mut self, intent: Intent, uri: &str, line: u32, column: u32) -> (r: Result<Vec<u8>, LspError>)
        requires
            old(self).wf(),
            old(self).next_id < u64::MAX,
        ensures
            final(self).wf(),
            lookup_outcome(*old(self), *final(self), intent, uri.spec_bytes(), line as nat, column as nat, frame_view(r)),
    {
        if self.phase == Phase::Terminated {
            return Err(LspError::SessionClosed);
        }
        if self.phase != Phase::Initialized || self.pending.is_some() {
            return Err(LspError::Protocol(ProtocolError::OutOfOrder));
        }
        let quoted = match quote_json(uri) {
            Ok(q) => q,
            Err(_) => {
                return Err(LspError::Decode);
            },
        };
        let text = intent_request(self.next_id, intent, &quoted, line, column);
        let frame = self.send_message(&text);
        self.record_sent(RequestKind::Lookup(intent));
        frame
    }

    /// Reads one command line. A blank line, an unknown command or a wrong
    /// number of arguments leaves the session as it was and sends nothing; a
    /// bad line or column is refused, and also sends nothing.
    pub fn handle_vim_command(&mut self, command: &str) -> (r: Result<Option<Vec<u8>>, LspError>)
        requires
            old(self).wf(),
            old(self).next_id < u64::MAX,
        ensures
            final(self).wf(),
            match command_shape(command.spec_bytes()) {
                CommandShape::Blank | CommandShape::Unknown => (r matches Ok(None)) && *final(self)
                    == *old(self),
                CommandShape::BadNumber => r == Err::<Option<Vec<u8>>, LspError>(LspError::InvalidArgument)
                    && *final(self) == *old(self),
                CommandShape::Call { intent, uri, line, column } => !(r matches Ok(None)) && lookup_outcome(
                    *old(self),
                    *final(self),
                    intent,
                    uri,
                    line,
                    column,
                    command_view(r),
                ),
            },
    {
        match parse_command(command.as_bytes()) {
            Parsed::Blank | Parsed::Unknown => Ok(None),
            Parsed::BadNumber => Err(LspError::InvalidArgument),
            Parsed::Call(c) => match self.lookup(
                c.intent,
                word_str(command, c.uri_at.0, c.uri_at.1),
                c.line,
                c.column,
            ) {
                Ok(f) => Ok(Some(f)),
                Err(e) => Err(e),
            },
        }
    }

    /// Takes the reply with `id`, where it answers the pending request. The
    /// reply to `initialize` completes the handshake.
    pub fn complete(&mut self, id: Option<u64>) -> (r: bool)
        requires
            old(self).wf(),
        ensures
            final(self).wf(),
            r == (old(self).phase != Phase::Terminated && old(self).pending is Some && id == Some(
                old(self).pending->Some_0.id,
            )),
            r ==> *final(self) == after_reply(*old(self)),
            !r ==> *final(self) == *old(self),
    {
        if self.phase == Phase::Terminated {
            return false;
        }
        match self.pending {
            Some(p) => {
                match id {
                    Some(i) => {
                        if i != p.id {
                            return false;
                        }
                    },
                    None => {
                        return false;
                    },
                }
                if p.kind == RequestKind::Initialize {
                    self.phase = Phase::Initialized;
                }
                self.pending = None;
                self.history = Ghost(self.history@.push(Exchange::Received(p.id)));
                proof {
                    let h = self.history@;
                    let oh = old(self).history@;
                    assert forall|k: int| 0 <= k < h.len() implies (#[trigger] h[k] matches Exchange::Sent(
                        i,
                        _,
                    ) ==> i < self.next_id) by {
                        if k < oh.len() {
                            assert(h[k] == oh[k]);
                        }
                    }
                    assert forall|a: int, b: int|
                        0 <= a < b < h.len() && #[trigger] h[a] is Sent && #[trigger] h[b] is Sent implies h[a]->Sent_0
                        != h[b]->Sent_0 by {
                        assert(h[a] == oh[a]);
                        assert(h[b] == oh[b]);
                    }
                    if old(self).phase == Phase::Spawned {
                        assert(h[0] == old(self).history@[0]);
                    } else {
                        assert forall|k: int| 2 <= k < h.len() implies !(#[trigger] h[k] matches Exchange::Sent(
                            _,
                            RequestKind::Initialize,
                        )) && h[k] != Exchange::Received(1) by {
                            if k < h.len() - 1 {
                                assert(h[k] == old(self).history@[k]);
                            }
                        }
                    }
                }
                true
            },
            None => false,
        }
    }

    /// Adds bytes read from the server's output.
    pub fn feed(&mut self, bytes: &[u8])
        requires
            old(self).wf(),
        ensures
            final(self).wf(),
            final(self).inbox@ == old(self).inbox@ + bytes@,
            final(self).phase == old(self).phase,
            final(self).next_id == old(self).next_id,
            final(self).pending == old(self).pending,
            final(self).input_closed == old(self).input_closed,
            final(self).history == old(self).history,
    {
        push_slice(&mut self.inbox, bytes);
    }

    /// Records that the server's output has ended.
    pub fn close_input(&mut self)
        requires
            old(self).wf(),
        ensures
            final(self).wf(),
            *final(self) == (LspConnection { input_closed: true, ..*old(self) }),
    {
        self.input_closed = true;
    }

    /// Ends the session; every later request is refused.
    pub fn terminate(&mut self)
        requires
            old(self).wf(),
        ensures
            final(self).wf(),
            *final(self) == (LspConnection { phase: Phase::Terminated, pending: None, ..*old(self) }),
    {
        self.phase = Phase::Terminated;
        self.pending = None;
    }

    fn fail(&mut self, e: LspError) -> (r: Result<Option<Reply>, LspError>)
        requires
            old(self).wf(),
        ensures
            final(self).wf(),
            *final(self) == (LspConnection { phase: Phase::Terminated, pending: None, ..*old(self) }),
            r == Err::<Option<Reply>, LspError>(e),
    {
        self.terminate();
        Err(e)
    }

    /// Takes frames off the front of what was read until the reply to the
    /// pending request, which it hands back with the bytes after it kept.
    /// Frames with another id, or none (notifications), are passed over.
    /// `Ok(None)` asks for more bytes. A refused header, or output that ended
    /// inside a frame, ends the session; a frame that is not JSON fails the
    /// pending request, and the session if that was the handshake.
    pub fn read_response(&mut self) -> (r: Result<Option<Reply>, LspError>)
        requires
            old(self).wf(),
        ensures
            final(self).wf(),
            old(self).phase == Phase::Terminated ==> r == Err::<Option<Reply>, LspError>(LspError::SessionClosed)
                && *final(self) == *old(self),
            old(self).phase != Phase::Terminated && old(self).pending is None ==> r == Err::<
                Option<Reply>,
                LspError,
            >(LspError::Protocol(ProtocolError::OutOfOrder)) && *final(self) == *old(self),
            old(self).phase != Phase::Terminated && old(self).pending is Some ==> match seek_reply(
                old(self).inbox@,
                old(self).pending->Some_0.id,
            ) {
                ReplyScan::Found { payload, rest } => {
                    &&& r is Ok && r->Ok_0 is Some && r->Ok_0->Some_0.payload@ == payload
                    &&& final(self).inbox@ == rest
                    &&& final(self).phase == after_reply(*old(self)).phase
                    &&& final(self).pending is None
                    &&& final(self).history == after_reply(*old(self)).history
                    &&& final(self).next_id == old(self).next_id
                    &&& final(self).input_closed == old(self).input_closed
                },
                ReplyScan::NotJson { rest } => {
                    &&& r == Err::<Option<Reply>, LspError>(LspError::Decode)
                    &&& final(self).inbox@ == rest
                    &&& final(self).pending is None
                    &&& final(self).phase == if old(self).pending->Some_0.kind == RequestKind::Initialize {
                        Phase::Terminated
                    } else {
                        old(self).phase
                    }
                },
                ReplyScan::Partial { rest } => {
                    &&& final(self).inbox@ == rest
                    &&& if old(self).input_closed {
                        r == Err::<Option<Reply>, LspError>(LspError::Io) && final(self).phase == Phase::Terminated
                    } else {
                        &&& r matches Ok(None)
                        &&& final(self).phase == old(self).phase
                        &&& final(self).pending == old(self).pending
                        &&& final(self).history == old(self).history
                    }
                },
                ReplyScan::Malformed(e) => r == Err::<Option<Reply>, LspError>(frame_error(e))
                    && final(self).phase == Phase::Terminated,
            },
    {
        if self.phase == Phase::Terminated {
            return Err(LspError::SessionClosed);
        }
        if self.pending.is_none() {
            return Err(LspError::Protocol(ProtocolError::OutOfOrder));
        }
        let ghost id = self.pending->Some_0.id;
        loop
            invariant
                self.wf(),
                self.phase == old(self).phase,
                self.pending == old(self).pending,
                self.history == old(self).history,
                self.next_id == old(self).next_id,
                self.input_closed == old(self).input_closed,
                old(self).phase != Phase::Terminated,
                old(self).pending is Some,
                id == old(self).pending->Some_0.id,
                seek_reply(self.inbox@, id) == seek_reply(old(self).inbox@, id),
            decreases self.inbox@.len(),
        {
            let step = decode(self.inbox.as_slice());
            match step {
                Err(FrameError::BadLength) => {
                    return self.fail(LspError::Protocol(ProtocolError::BadLength));
                },
                Err(FrameError::MissingLength) => {
                    return self.fail(LspError::Protocol(ProtocolError::MissingLength));
                },
                Ok(None) => {
                    if self.input_closed {
                        return self.fail(LspError::Io);
                    }
                    return Ok(None);
                },
                Ok(Some(frame)) => {
                    proof {
                        lemma_frame_consumes(self.inbox@);
                    }
                    let mut rest: Vec<u8> = Vec::new();
                    push_slice(&mut rest, &self.inbox.as_slice()[frame.consumed..self.inbox.len()]);
                    self.inbox = rest;
                    match parse_json(frame.payload.as_slice()) {
                        Err(_) => {
                            let init = self.pending.unwrap().kind == RequestKind::Initialize;
                            if init {
                                return self.fail(LspError::Decode);
                            }
                            self.pending = None;
                            return Err(LspError::Decode);
                        },
                        Ok(value) => {
                            let rid = reply_id_of(frame.payload.as_slice());
                            if self.complete(rid) {
                                return Ok(Some(Reply { payload: frame.payload, value }));
                            }
                        },
                    }
                },
            }
        }
    }
    fn text_lookup(&mut self, intent: Intent, uri: &str, line: &str, column: &str) -> (r: Result<Vec<u8>, LspError>)
        requires
            old(self).wf(),
            old(self).next_id < u64::MAX,
        ensures
            final(self).wf(),
            text_lookup_outcome(
                *old(self),
                *final(self),
                intent,
                uri.spec_bytes(),
                line.spec_bytes(),
                column.spec_bytes(),
                frame_view(r),
            ),
    {
        let lb = line.as_bytes();
        let cb = column.as_bytes();
        let l = parse_number(lb, 0, lb.len(), 0xffff_ffff);
        let c = parse_number(cb, 0, cb.len(), 0xffff_ffff);
        assert(lb@.subrange(0, lb@.len() as int) =~= lb@);
        assert(cb@.subrange(0, cb@.len() as int) =~= cb@);
        match (l, c) {
            (Some(l), Some(c)) => self.lookup(intent, uri, l as u32, c as u32),
            _ => Err(LspError::InvalidArgument),
        }
    }

    /// The frame of a `textDocument/definition` request.
    pub fn goto_definition(&mut self, uri: &str, line: &str, column: &str) -> (r: Result<Vec<u8>, LspError>)
        requires
            old(self).wf(),
            old(self).next_id < u64::MAX,
        ensures
            final(self).wf(),
            text_lookup_outcome(
                *old(self),
                *final(self),
                Intent::Definition,
                uri.spec_bytes(),
                line.spec_bytes(),
                column.spec_bytes(),
                frame_view(r),
            ),
    {
        self.text_lookup(Intent::Definition, uri, line, column)
    }

    /// The frame of a `textDocument/hover` request.
    pub fn hover(&mut self, uri: &str, line: &str, column: &str) -> (r: Result<Vec<u8>, LspError>)
        requires
            old(self).wf(),
            old(self).next_id < u64::MAX,
        ensures
            final(self).wf(),
            text_lookup_outcome(
                *old(self),
                *final(self),
                Intent::Hover,
                uri.spec_bytes(),
                line.spec_bytes(),
                column.spec_bytes(),
                frame_view(r),
            ),
    {
        self.text_lookup(Intent::Hover, uri, line, column)
    }

    /// The frame of a `textDocument/completion` request.
    pub fn completion(&mut self, uri: &str, line: &str, column: &str) -> (r: Result<Vec<u8>, LspError>)
        requires
            old(self).wf(),
            old(self).next_id < u64::MAX,
        ensures
            final(self).wf(),
            text_lookup_outcome(
                *old(self),
                *final(self),
                Intent::Completion,
                uri.spec_bytes(),
                line.spec_bytes(),
                column.spec_bytes(),
                frame_view(r),
            ),
    {
        self.text_lookup(Intent::Completion, uri, line, column)
    }
}

} // verus!
