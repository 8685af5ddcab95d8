//! The socket service: the writer table of live connections, the events it
//! surfaces upward (new socket, new line, closed socket) and the requests it
//! accepts downward (send, close). The accept loop, the per-connection
//! readers and the actual TCP writes live outside the library; this module
//! is the decision core those loops drive, one input at a time.
use vstd::prelude::*;
use vstd::string::StringExecFns;

use crate::SocketId;

verus! {

broadcast use vstd::seq_lib::group_seq_properties;

/// A handle on one connection, as handed to the upper layers: the
/// connection id. Requests built through it are carried to the socket
/// service by its owner.
#[derive(Clone, Copy)]
pub struct SocketProxy {
    pub id: SocketId,
}

/// One outbound payload. The three carriers mirror the three ways a
/// payload may be owned (owned, boxed, shared); they are identical on
/// the wire, which is all the view records.
pub enum SocketMessage {
    Static(String),
    Boxed(String),
    Shared(String),
}

impl View for SocketMessage {
    type V = Seq<char>;

    open spec fn view(&self) -> Seq<char> {
        match self {
            SocketMessage::Static(s) => s@,
            SocketMessage::Boxed(s) => s@,
            SocketMessage::Shared(s) => s@,
        }
    }
}

impl SocketMessage {
    /// The bytes that reach the wire, the same for every carrier.
    pub fn payload(&self) -> (r: &String)
        ensures
            r@ == self@,
    {
        match self {
            SocketMessage::Static(s) => s,
            SocketMessage::Boxed(s) => s,
            SocketMessage::Shared(s) => s,
        }
    }
}

/// What the socket service reports upward, per connection: exactly one
/// `NewSocket`, then lines, then exactly one `ClosedSocket`.
pub enum SocketEvent {
    NewSocket(SocketProxy),
    NewMessage(SocketId, String),
    ClosedSocket(SocketId),
}

#[verifier::ext_equal]
pub enum SocketEventView {
    NewSocket(SocketId),
    NewMessage(SocketId, Seq<char>),
    ClosedSocket(SocketId),
}

impl View for SocketEvent {
    type V = SocketEventView;

    open spec fn view(&self) -> SocketEventView {
        match self {
            SocketEvent::NewSocket(p) => SocketEventView::NewSocket(p.id),
            SocketEvent::NewMessage(id, s) => SocketEventView::NewMessage(*id, s@),
            SocketEvent::ClosedSocket(id) => SocketEventView::ClosedSocket(*id),
        }
    }
}

/// The id an event speaks about.
pub open spec fn event_id(e: SocketEventView) -> SocketId {
    match e {
        SocketEventView::NewSocket(id) => id,
        SocketEventView::NewMessage(id, _) => id,
        SocketEventView::ClosedSocket(id) => id,
    }
}

/// What the upper layers ask of the socket service.
pub enum SocketRequest {
    SendMessage(SocketId, SocketMessage),
    CloseSocket(SocketId),
}

#[verifier::ext_equal]
pub enum SocketRequestView {
    SendMessage(SocketId, Seq<char>),
    CloseSocket(SocketId),
}

impl View for SocketRequest {
    type V = SocketRequestView;

    open spec fn view(&self) -> SocketRequestView {
        match self {
            SocketRequest::SendMessage(id, m) => SocketRequestView::SendMessage(*id, m@),
            SocketRequest::CloseSocket(id) => SocketRequestView::CloseSocket(*id),
        }
    }
}

impl SocketProxy {
    pub fn get_id(&self) -> (r: SocketId)
        ensures
            r == self.id,
    {
        self.id
    }

    /// A send request with the owned carrier.
    pub fn send(&self, message: String) -> (q: SocketRequest)
        ensures
            q@ == SocketRequestView::SendMessage(self.id, message@),
    {
        SocketRequest::SendMessage(self.id, SocketMessage::Boxed(message))
    }

    /// A send request with the boxed carrier.
    pub fn send_boxed(&self, message: String) -> (q: SocketRequest)
        ensures
            q@ == SocketRequestView::SendMessage(self.id, message@),
    {
        SocketRequest::SendMessage(self.id, SocketMessage::Boxed(message))
    }

    /// A send request with the shared carrier.
    pub fn send_arc(&self, message: String) -> (q: SocketRequest)
        ensures
            q@ == SocketRequestView::SendMessage(self.id, message@),
    {
        SocketRequest::SendMessage(self.id, SocketMessage::Shared(message))
    }

    /// A send request with the static carrier.
    pub fn send_static(&self, message: &str) -> (q: SocketRequest)
        ensures
            q@ == SocketRequestView::SendMessage(self.id, message@),
    {
        SocketRequest::SendMessage(self.id, SocketMessage::Static(message.to_owned()))
    }

    /// A request to close this connection.
    pub fn close(&self) -> (q: SocketRequest)
        ensures
            q@ == SocketRequestView::CloseSocket(self.id),
    {
        SocketRequest::CloseSocket(self.id)
    }
}

/// What a connection's reader delivered: a framed line, a clean close,
/// a framing failure, or an I/O failure.
pub enum ReadResult {
    Line(SocketId, String),
    Closed(SocketId),
    Utf8Error(SocketId),
    TooLong(SocketId),
    IoError(SocketId),
}

#[verifier::ext_equal]
pub enum ReadResultView {
    Line(SocketId, Seq<char>),
    Closed(SocketId),
    Utf8Error(SocketId),
    TooLong(SocketId),
    IoError(SocketId),
}

impl View for ReadResult {
    type V = ReadResultView;

    open spec fn view(&self) -> ReadResultView {
        match self {
            ReadResult::Line(id, s) => ReadResultView::Line(*id, s@),
            ReadResult::Closed(id) => ReadResultView::Closed(*id),
            ReadResult::Utf8Error(id) => ReadResultView::Utf8Error(*id),
            ReadResult::TooLong(id) => ReadResultView::TooLong(*id),
            ReadResult::IoError(id) => ReadResultView::IoError(*id),
        }
    }
}

/// One input to the socket service's loop: an accepted connection, a
/// reader delivery, an upper-layer request, or a failed write.
pub enum SocketInput {
    Connection(SocketId),
    Read(ReadResult),
    Request(SocketRequest),
    WriteError(SocketId),
}

#[verifier::ext_equal]
pub enum SocketInputView {
    Connection(SocketId),
    Read(ReadResultView),
    Request(SocketRequestView),
    WriteError(SocketId),
}

impl View for SocketInput {
    type V = SocketInputView;

    open spec fn view(&self) -> SocketInputView {
        match self {
            SocketInput::Connection(id) => SocketInputView::Connection(*id),
            SocketInput::Read(r) => SocketInputView::Read(r@),
            SocketInput::Request(q) => SocketInputView::Request(q@),
            SocketInput::WriteError(id) => SocketInputView::WriteError(*id),
        }
    }
}

/// What the socket service does in response to an input: emit an event
/// upward, write a payload to a connection's wire, or drop a writer
/// (which terminates that connection's reader).
pub enum SocketAction {
    Emit(SocketEvent),
    Write(SocketId, String),
    CloseWriter(SocketId),
}

#[verifier::ext_equal]
pub enum SocketActionView {
    Emit(SocketEventView),
    Write(SocketId, Seq<char>),
    CloseWriter(SocketId),
}

impl View for SocketAction {
    type V = SocketActionView;

    open spec fn view(&self) -> SocketActionView {
        match self {
            SocketAction::Emit(e) => SocketActionView::Emit(e@),
            SocketAction::Write(id, s) => SocketActionView::Write(*id, s@),
            SocketAction::CloseWriter(id) => SocketActionView::CloseWriter(*id),
        }
    }
}

/// The views of a vector of actions.
pub open spec fn acts_view(v: Seq<SocketAction>) -> Seq<SocketActionView> {
    v.map_values(|a: SocketAction| a@)
}

/// Closing a connection: if the writer is live, drop it and report the
/// close; otherwise nothing happens.
pub open spec fn spec_close(live: Set<SocketId>, id: SocketId) -> (Set<SocketId>, Seq<
    SocketActionView,
>) {
    if live.contains(id) {
        (
            live.remove(id),
            seq![
                SocketActionView::CloseWriter(id),
                SocketActionView::Emit(SocketEventView::ClosedSocket(id)),
            ],
        )
    } else {
        (live, Seq::empty())
    }
}

/// A reader delivery: a line from a live connection is reported upward;
/// a close or a failure closes the connection.
pub open spec fn spec_read(live: Set<SocketId>, r: ReadResultView) -> (Set<SocketId>, Seq<
    SocketActionView,
>) {
    match r {
        ReadResultView::Line(id, s) => {
            if live.contains(id) {
                (live, seq![SocketActionView::Emit(SocketEventView::NewMessage(id, s))])
            } else {
                (live, Seq::empty())
            }
        },
        ReadResultView::Closed(id) => spec_close(live, id),
        ReadResultView::Utf8Error(id) => spec_close(live, id),
        ReadResultView::TooLong(id) => spec_close(live, id),
        ReadResultView::IoError(id) => spec_close(live, id),
    }
}

/// An upper-layer request: a send becomes a wire write while the writer
/// is live and is dropped otherwise; a close request closes.
pub open spec fn spec_request(live: Set<SocketId>, q: SocketRequestView) -> (Set<SocketId>, Seq<
    SocketActionView,
>) {
    match q {
        SocketRequestView::SendMessage(id, m) => {
            if live.contains(id) {
                (live, seq![SocketActionView::Write(id, m)])
            } else {
                (live, Seq::empty())
            }
        },
        SocketRequestView::CloseSocket(id) => spec_close(live, id),
    }
}

/// One step of the socket service on one input.
pub open spec fn spec_socket_step(live: Set<SocketId>, inp: SocketInputView) -> (Set<SocketId>, Seq<
    SocketActionView,
>) {
    match inp {
        SocketInputView::Connection(id) => {
            if !live.contains(id) {
                (live.insert(id), seq![SocketActionView::Emit(SocketEventView::NewSocket(id))])
            } else {
                (live, Seq::empty())
            }
        },
        SocketInputView::Read(r) => spec_read(live, r),
        SocketInputView::Request(q) => spec_request(live, q),
        SocketInputView::WriteError(id) => spec_close(live, id),
    }
}

/// The socket service's own state: the set of connections whose writer
/// it still holds.
pub struct SocketService {
    writers: Vec<SocketId>,
}

impl SocketService {
    /// The writer table holds each live connection once.
    pub closed spec fn wf(&self) -> bool {
        self.writers@.no_duplicates()
    }

    /// The set of live connections.
    pub closed spec fn live(&self) -> Set<SocketId> {
        self.writers@.to_set()
    }

    pub fn new() -> (s: SocketService)
        ensures
            s.wf(),
            s.live() == Set::<SocketId>::empty(),
    {
        let s = SocketService { writers: Vec::new() };
        proof {
            assert(s.writers@.to_set() =~= Set::<SocketId>::empty());
        }
        s
    }

    fn writer_index(&self, id: SocketId) -> (r: Option<usize>)
        ensures
            match r {
                Some(i) => i < self.writers@.len() && self.writers@[i as int] == id,
                None => !self.live().contains(id),
            },
    {
        let mut i: usize = 0;
        while i < self.writers.len()
            invariant
                0 <= i <= self.writers@.len(),
                forall|k: int| 0 <= k < i ==> self.writers@[k] != id,
            decreases self.writers@.len() - i,
        {
            if self.writers[i] == id {
                return Some(i);
            }
            i = i + 1;
        }
        proof {
            assert(!self.writers@.contains(id));
        }
        None
    }

    /// Whether the writer for this connection is still held.
    pub fn has_writer(&self, id: SocketId) -> (r: bool)
        ensures
            r == self.live().contains(id),
    {
        self.writer_index(id).is_some()
    }

    /// A newly accepted connection: register its writer and report the
    /// new socket upward, handing out its proxy.
    pub fn handle_connection(&mut self, id: SocketId) -> (acts: Vec<SocketAction>)
        requires
            old(self).wf(),
            !old(self).live().contains(id),
        ensures
            final(self).wf(),
            (final(self).live(), acts_view(acts@)) == spec_socket_step(
                old(self).live(),
                SocketInputView::Connection(id),
            ),
    {
        self.writers.push(id);
        let proxy = SocketProxy { id };
        let acts = vec![SocketAction::Emit(SocketEvent::NewSocket(proxy))];
        proof {
            assert(self.writers@ == old(self).writers@.push(id));
            assert(self.writers@.to_set() =~= old(self).writers@.to_set().insert(id));
            assert(acts_view(acts@) =~= seq![
                SocketActionView::Emit(SocketEventView::NewSocket(id)),
            ]);
        }
        acts
    }

    /// Drop the writer for this connection, if still held, and report
    /// the close upward.
    pub fn close_connection(&mut self, id: SocketId) -> (acts: Vec<SocketAction>)
        requires
            old(self).wf(),
        ensures
            final(self).wf(),
            (final(self).live(), acts_view(acts@)) == spec_close(old(self).live(), id),
    {
        match self.writer_index(id) {
            Some(i) => {
                self.writers.remove(i);
                proof {
                    lemma_remove_unique(old(self).writers@, i as int, id);
                }
                let acts = vec![
                    SocketAction::CloseWriter(id),
                    SocketAction::Emit(SocketEvent::ClosedSocket(id)),
                ];
                proof {
                    assert(acts_view(acts@) =~= seq![
                        SocketActionView::CloseWriter(id),
                        SocketActionView::Emit(SocketEventView::ClosedSocket(id)),
                    ]);
                }
                acts
            },
            None => {
                let acts: Vec<SocketAction> = Vec::new();
                proof {
                    assert(acts_view(acts@) =~= Seq::<SocketActionView>::empty());
                }
                acts
            },
        }
    }

    /// A reader delivery, as the read half of the service's loop.
    pub fn handle_read(&mut self, result: ReadResult) -> (acts: Vec<SocketAction>)
        requires
            old(self).wf(),
        ensures
            final(self).wf(),
            (final(self).live(), acts_view(acts@)) == spec_read(old(self).live(), result@),
    {
        match result {
            ReadResult::Line(id, data) => {
                if self.has_writer(id) {
                    let acts = vec![SocketAction::Emit(SocketEvent::NewMessage(id, data))];
                    proof {
                        assert(acts_view(acts@) =~= seq![
                            SocketActionView::Emit(SocketEventView::NewMessage(id, data@)),
                        ]);
                    }
                    acts
                } else {
                    let acts: Vec<SocketAction> = Vec::new();
                    proof {
                        assert(acts_view(acts@) =~= Seq::<SocketActionView>::empty());
                    }
                    acts
                }
            },
            ReadResult::Closed(id) => self.close_connection(id),
            ReadResult::Utf8Error(id) => self.close_connection(id),
            ReadResult::TooLong(id) => self.close_connection(id),
            ReadResult::IoError(id) => self.close_connection(id),
        }
    }

    /// An upper-layer request, as the request half of the service's loop.
    pub fn handle_request(&mut self, request: SocketRequest) -> (acts: Vec<SocketAction>)
        requires
            old(self).wf(),
        ensures
            final(self).wf(),
            (final(self).live(), acts_view(acts@)) == spec_request(old(self).live(), request@),
    {
        match request {
            SocketRequest::SendMessage(id, message) => {
                if self.has_writer(id) {
                    let payload = message.payload().clone();
                    let acts = vec![SocketAction::Write(id, payload)];
                    proof {
                        assert(acts_view(acts@) =~= seq![SocketActionView::Write(id, message@)]);
                    }
                    acts
                } else {
                    let acts: Vec<SocketAction> = Vec::new();
                    proof {
                        assert(acts_view(acts@) =~= Seq::<SocketActionView>::empty());
                    }
                    acts
                }
            },
            SocketRequest::CloseSocket(id) => self.close_connection(id),
        }
    }

    /// A failed wire write: the connection is closed, as for a reader
    /// failure.
    pub fn handle_write_error(&mut self, id: SocketId) -> (acts: Vec<SocketAction>)
        requires
            old(self).wf(),
        ensures
            final(self).wf(),
            (final(self).live(), acts_view(acts@)) == spec_close(old(self).live(), id),
    {
        self.close_connection(id)
    }

    /// One turn of the service's loop, on whichever input arrived.
    pub fn step(&mut self, input: SocketInput) -> (acts: Vec<SocketAction>)
        requires
            old(self).wf(),
            input matches SocketInput::Connection(id) ==> !old(self).live().contains(id),
        ensures
            final(self).wf(),
            (final(self).live(), acts_view(acts@)) == spec_socket_step(old(self).live(), input@),
    {
        match input {
            SocketInput::Connection(id) => self.handle_connection(id),
            SocketInput::Read(r) => self.handle_read(r),
            SocketInput::Request(q) => self.handle_request(q),
            SocketInput::WriteError(id) => self.handle_write_error(id),
        }
    }
}

proof fn lemma_remove_unique(s: Seq<SocketId>, i: int, id: SocketId)
    requires
        s.no_duplicates(),
        0 <= i < s.len(),
        s[i] == id,
    ensures
        s.remove(i).no_duplicates(),
        s.remove(i).to_set() =~= s.to_set().remove(id),
{
    let t = s.remove(i);
    assert forall|x: SocketId| t.to_set().contains(x) implies s.to_set().contains(x) && x != id by {
        let j = choose|j: int| 0 <= j < t.len() && t[j] == x;
        if j < i {
            assert(s[j] == x);
        } else {
            assert(s[j + 1] == x);
        }
    }
    assert forall|x: SocketId| s.to_set().contains(x) && x != id implies t.to_set().contains(x) by {
        let j = choose|j: int| 0 <= j < s.len() && s[j] == x;
        if j < i {
            assert(t[j] == x);
        } else {
            assert(j != i);
            assert(t[j - 1] == x);
        }
    }
}

} // verus!
