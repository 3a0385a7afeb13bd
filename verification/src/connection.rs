//! One connection: its buffers, and the state machine that reads a request,
//! has it handled, and writes the answer before it reads the next.

use crate::buffers::RequestBuffers;
use crate::dispatch::{
    outcome_status, route, spec_outcome_status, spec_route, Error, Operation, Page, Route,
};
use crate::pool::Reservable;
use crate::request_parser::{parse_request, spec_parse_request, ParseError};
use crate::response::{lemma_decimal_len_usize, lemma_head_lengths, spec_response, Status};
use vstd::prelude::*;
use vstd::slice::slice_subrange;

verus! {

/// The most bytes that a connection can be told to hold for one request.
pub const MAX_REQUEST_BYTES: usize = 0x4000_0000;

/// What a connection waits for.
#[derive(PartialEq, Eq, Structural, Debug, Clone, Copy)]
pub enum Direction {
    /// More bytes of a request, or the handler's result.
    AwaitingRequest,
    /// Room on the socket for the rest of the answer.
    AwaitingFlush,
}

/// What a read on the socket gave.
#[derive(Debug, Clone, Copy)]
pub enum ReadEvent<'a> {
    /// These bytes.
    Data(&'a [u8]),
    /// Nothing for now.
    WouldBlock,
    /// The end: the peer has closed.
    Closed,
    /// An error that is not `WouldBlock`.
    Failed,
}

/// What to do after a read.
#[derive(PartialEq, Eq, Structural, Debug, Clone, Copy)]
pub enum ReadAction {
    /// Read again at once.
    ReadAgain,
    /// Wait until the socket can be read again.
    Wait,
    /// Make this call of the store with the body of the request, and hand
    /// the result to `complete`.
    Invoke(Operation),
    /// An answer is ready: wait until the socket can be written.
    Flush,
    /// Close the socket and forget the connection.
    Close,
}

/// What a write on the socket gave.
#[derive(PartialEq, Eq, Structural, Debug, Clone, Copy)]
pub enum WriteEvent {
    /// This many bytes were taken.
    Wrote(usize),
    /// No room for now.
    WouldBlock,
    /// An error that is not `WouldBlock`.
    Failed,
}

/// What to do after a write.
#[derive(PartialEq, Eq, Structural, Debug, Clone, Copy)]
pub enum WriteAction {
    /// Write the rest at once.
    WriteAgain,
    /// Wait until the socket can be written again.
    Wait,
    /// The answer is out: wait until the socket can be read.
    Done,
    /// Close the socket and forget the connection.
    Close,
}

/// The state of a connection.
pub struct ConnectionModel {
    pub direction: Direction,
    /// The call of the store that the connection waits for.
    pub pending: Option<Operation>,
    /// The bytes read and not yet answered.
    pub request: Seq<u8>,
    /// The answer.
    pub response: Seq<u8>,
    /// How many bytes of the answer are out.
    pub written: nat,
}

impl ConnectionModel {
    /// A connection that has read nothing.
    pub open spec fn idle() -> ConnectionModel {
        ConnectionModel {
            direction: Direction::AwaitingRequest,
            pending: None,
            request: Seq::empty(),
            response: Seq::empty(),
            written: 0,
        }
    }

    /// The connection with an answer to write, none of it out.
    pub open spec fn answering(self, status: Status, page: Page) -> ConnectionModel {
        ConnectionModel {
            direction: Direction::AwaitingFlush,
            pending: None,
            request: self.request,
            response: spec_response(status.spec_head(), page.spec_text()),
            written: 0,
        }
    }

    /// Whether the connection takes bytes: it owes no answer and waits for
    /// no handler.
    pub open spec fn reading(self) -> bool {
        self.direction == Direction::AwaitingRequest && self.pending is None
    }

    /// What a connection that has read all there is for now does with the
    /// bytes it holds. A request is routed: it is answered at once, or a call
    /// of the store is asked for. Bytes that are no request are answered with
    /// a client error. A request that is not all there is waited for, but not
    /// for ever: once `limit` bytes are held, it is answered with a client
    /// error too.
    pub open spec fn process(self, limit: nat) -> (ConnectionModel, ReadAction) {
        if self.direction == Direction::AwaitingFlush {
            (self, ReadAction::Flush)
        } else if self.pending is Some {
            (self, ReadAction::Invoke(self.pending.unwrap()))
        } else {
            match spec_parse_request(self.request) {
                Ok(request) => match spec_route(request.path, request.method) {
                    Route::Index => (
                        self.answering(Status::Success, Page::Index),
                        ReadAction::Flush,
                    ),
                    Route::Store(operation) => (
                        ConnectionModel {
                            direction: self.direction,
                            pending: Some(operation),
                            request: self.request,
                            response: self.response,
                            written: self.written,
                        },
                        ReadAction::Invoke(operation),
                    ),
                    Route::NotFound => (
                        self.answering(Status::NotFound, Page::Missing),
                        ReadAction::Flush,
                    ),
                },
                Err(ParseError::Incomplete) => if self.request.len() >= limit {
                    (self.answering(Status::BadRequest, Page::Rejected), ReadAction::Flush)
                } else {
                    (self, ReadAction::Wait)
                },
                Err(ParseError::Malformed) => (
                    self.answering(Status::BadRequest, Page::Rejected),
                    ReadAction::Flush,
                ),
            }
        }
    }

    /// What bytes that were read do to a connection that takes bytes: they
    /// are appended to those held, unless more than `limit` would be held
    /// then, which is answered with a client error.
    pub open spec fn take(self, limit: nat, chunk: Seq<u8>) -> (ConnectionModel, ReadAction) {
        if self.request.len() + chunk.len() <= limit {
            (
                ConnectionModel {
                    direction: self.direction,
                    pending: self.pending,
                    request: self.request + chunk,
                    response: self.response,
                    written: self.written,
                },
                ReadAction::ReadAgain,
            )
        } else {
            (self.answering(Status::BadRequest, Page::Rejected), ReadAction::Flush)
        }
    }

    /// What a read does to the connection. The end of the stream or an
    /// error closes it, whatever it waits for. Bytes are taken: see `take`;
    /// but a connection that owes an answer or waits for a handler takes
    /// none. Nothing more to read for now: see `process`.
    pub open spec fn receive(self, limit: nat, event: ReadEvent) -> (ConnectionModel, ReadAction) {
        match event {
            ReadEvent::Closed => (self, ReadAction::Close),
            ReadEvent::Failed => (self, ReadAction::Close),
            ReadEvent::WouldBlock => self.process(limit),
            ReadEvent::Data(chunk) => if self.reading() {
                self.take(limit, chunk@)
            } else {
                self.process(limit)
            },
        }
    }

    /// What the handler's result does to the connection that waits for it:
    /// the answer is ready to be written.
    pub open spec fn complete(self, outcome: Result<bool, Error>) -> ConnectionModel {
        if self.pending is Some {
            self.answering(spec_outcome_status(outcome), Page::Search)
        } else {
            self
        }
    }

    /// What a write does to the connection. An error closes it. Once the
    /// whole answer is out, both buffers are emptied and the connection
    /// reads again. A write that took nothing, or found no room, is waited
    /// for. Where there is no answer to write, there is nothing to do.
    pub open spec fn write(self, event: WriteEvent) -> (ConnectionModel, WriteAction) {
        match event {
            WriteEvent::Failed => (self, WriteAction::Close),
            WriteEvent::WouldBlock => if self.direction == Direction::AwaitingRequest {
                (self, WriteAction::Done)
            } else {
                (self, WriteAction::Wait)
            },
            WriteEvent::Wrote(n) => if self.direction == Direction::AwaitingRequest {
                (self, WriteAction::Done)
            } else if n == 0 {
                (self, WriteAction::Wait)
            } else if self.written + n >= self.response.len() {
                (ConnectionModel::idle(), WriteAction::Done)
            } else {
                (
                    ConnectionModel {
                        direction: self.direction,
                        pending: self.pending,
                        request: self.request,
                        response: self.response,
                        written: self.written + n as nat,
                    },
                    WriteAction::WriteAgain,
                )
            },
        }
    }
}

/// Bytes that arrive in two reads are held as if they had arrived in one:
/// what is parsed once the second part is there is what a single read of
/// both would have given.
pub proof fn lemma_split_read(m: ConnectionModel, limit: nat, a: Seq<u8>, b: Seq<u8>)
    requires
        m.request.len() + a.len() + b.len() <= limit,
    ensures
        m.take(limit, a).0.take(limit, b) == m.take(limit, a + b),
        m.take(limit, a).0.take(limit, b).0.process(limit) == m.take(limit, a + b).0.process(
            limit,
        ),
{
    assert((m.request + a) + b =~= m.request + (a + b));
}

/// A connection does not wait for the rest of a request once it holds
/// `limit` bytes: whatever a read gives, it waits only while it holds fewer.
pub proof fn lemma_wait_is_bounded(m: ConnectionModel, limit: nat, event: ReadEvent)
    ensures
        m.receive(limit, event).1 == ReadAction::Wait ==> m.receive(limit, event).0.request.len()
            < limit,
        m.request.len() >= limit ==> m.process(limit).1 != ReadAction::Wait,
{
}

/// While an answer is owed, no read changes what the connection holds, and
/// only a write that takes the last byte of the answer empties the buffers:
/// the next request is not looked at before the answer is out.
pub proof fn lemma_answer_goes_first(
    m: ConnectionModel,
    limit: nat,
    read: ReadEvent,
    write: WriteEvent,
)
    requires
        m.direction == Direction::AwaitingFlush,
    ensures
        m.receive(limit, read).0 == m,
        m.receive(limit, read).1 == ReadAction::Flush || m.receive(limit, read).1
            == ReadAction::Close,
        ({
            let after = m.write(write).0;
            ||| after == ConnectionModel::idle() && (write matches WriteEvent::Wrote(n)
                && m.written + n >= m.response.len())
            ||| after.direction == Direction::AwaitingFlush && after.request == m.request
                && after.response == m.response
        }),
{
}

/// No answer is longer than 256 bytes.
pub proof fn lemma_answer_len(status: Status, page: Page)
    ensures
        0 < spec_response(status.spec_head(), page.spec_text()).len() <= 256,
{
    lemma_head_lengths();
    reveal_strlit("index\n");
    reveal_strlit("search\n");
    reveal_strlit("404\n");
    reveal_strlit("400\n");
    vstd::string::is_ascii_spec_bytes("index\n");
    vstd::string::is_ascii_spec_bytes("search\n");
    vstd::string::is_ascii_spec_bytes("404\n");
    vstd::string::is_ascii_spec_bytes("400\n");
    lemma_decimal_len_usize(page.spec_text().len() as usize);
}

/// A live connection.
pub struct ConnectionData {
    token: usize,
    buffers: Reservable<RequestBuffers>,
    direction: Direction,
    pending: Option<Operation>,
    written: usize,
    limit: usize,
}

impl View for ConnectionData {
    type V = ConnectionModel;

    /// The state of the connection.
    closed spec fn view(&self) -> ConnectionModel {
        ConnectionModel {
            direction: self.direction,
            pending: self.pending,
            request: self.buffers.spec_obj().parse_bytes(),
            response: self.buffers.spec_obj().resp_bytes(),
            written: self.written as nat,
        }
    }
}

impl ConnectionData {
    /// The token under which the connection's socket is registered.
    pub closed spec fn spec_token(&self) -> usize {
        self.token
    }

    /// The slot of the buffer pool that the connection has on lease.
    pub closed spec fn spec_slot(&self) -> usize {
        self.buffers.spec_slot()
    }

    /// The lease itself.
    pub closed spec fn lease(&self) -> Reservable<RequestBuffers> {
        self.buffers
    }

    /// The most bytes that the connection holds for one request.
    pub closed spec fn spec_limit(&self) -> usize {
        self.limit
    }

    /// Whether the connection came in on the management port.
    pub closed spec fn spec_is_management(&self) -> bool {
        self.buffers.spec_obj().spec_is_management()
    }

    /// What no step of the state machine changes.
    pub open spec fn same_connection(&self, other: &ConnectionData) -> bool {
        &&& self.spec_token() == other.spec_token()
        &&& self.spec_slot() == other.spec_slot()
        &&& self.spec_limit() == other.spec_limit()
        &&& self.spec_is_management() == other.spec_is_management()
    }

    /// What holds of every connection: it holds no more bytes of a request
    /// than its limit, no answer while it reads, and an answer with bytes
    /// still to write while it writes; and where it waits for a call of the
    /// store, the bytes it holds are a request that is routed to that call.
    pub open spec fn wf(&self) -> bool {
        &&& self.spec_limit() <= MAX_REQUEST_BYTES
        &&& self@.request.len() <= self.spec_limit()
        &&& self@.written <= self@.response.len() <= 256
        &&& self@.direction == Direction::AwaitingRequest ==> self@.response.len() == 0
        &&& self@.direction == Direction::AwaitingFlush ==> self@.written < self@.response.len()
        &&& self@.pending is Some ==> self@.direction == Direction::AwaitingRequest
        &&& self@.pending matches Some(operation) ==> (spec_parse_request(self@.request) matches Ok(
            request,
        ) && spec_route(request.path, request.method) == Route::Store(operation))
    }

    /// A connection on leased buffers. The buffers are emptied: bytes of an
    /// earlier connection do not reach this one. A `limit` over
    /// `MAX_REQUEST_BYTES` counts as `MAX_REQUEST_BYTES`.
    pub fn new(
        token: usize,
        buffers: Reservable<RequestBuffers>,
        is_management: bool,
        limit: usize,
    ) -> (conn: ConnectionData)
        ensures
            conn.wf(),
            conn@ == ConnectionModel::idle(),
            conn.spec_token() == token,
            conn.spec_slot() == buffers.spec_slot(),
            conn.spec_is_management() == is_management,
            conn.spec_limit() == if limit <= MAX_REQUEST_BYTES {
                limit
            } else {
                MAX_REQUEST_BYTES
            },
    {
        let mut buffers = buffers;
        buffers.deref_mut().clear();
        buffers.deref_mut().set_management(is_management);
        ConnectionData {
            token,
            buffers,
            direction: Direction::AwaitingRequest,
            pending: None,
            written: 0,
            limit: if limit <= MAX_REQUEST_BYTES {
                limit
            } else {
                MAX_REQUEST_BYTES
            },
        }
    }

    /// Ends the connection and hands its lease back.
    pub fn into_buffers(self) -> (lease: Reservable<RequestBuffers>)
        ensures
            lease == self.lease(),
            lease.spec_slot() == self.spec_slot(),
    {
        self.buffers
    }

    /// The token under which the connection's socket is registered.
    #[verifier::when_used_as_spec(spec_token)]
    pub fn token(&self) -> (r: usize)
        ensures
            r == self.spec_token(),
    {
        self.token
    }

    /// What the connection waits for.
    pub fn direction(&self) -> (r: Direction)
        ensures
            r == self@.direction,
    {
        self.direction
    }

    /// The call of the store that the connection waits for, if any.
    pub fn pending(&self) -> (r: Option<Operation>)
        ensures
            r == self@.pending,
    {
        self.pending
    }

    /// Whether the connection came in on the management port.
    #[verifier::when_used_as_spec(spec_is_management)]
    pub fn is_management(&self) -> (r: bool)
        ensures
            r == self.spec_is_management(),
    {
        self.buffers.deref().is_management()
    }

    /// The bytes read and not yet answered.
    pub fn request(&self) -> (r: &[u8])
        ensures
            r@ == self@.request,
    {
        self.buffers.deref().request()
    }

    /// The body of the request for which the connection waits on a call of
    /// the store: what that call is to be made with.
    pub fn pending_body(&self) -> (r: Option<&[u8]>)
        ensures
            match (self@.pending, spec_parse_request(self@.request)) {
                (Some(_), Ok(request)) => r matches Some(body) && body@ == request.body,
                _ => r is None,
            },
            self.wf() && self@.pending is Some ==> r is Some,
    {
        if self.pending.is_none() {
            return None;
        }
        match parse_request(self.buffers.deref().request()) {
            Ok(request) => Some(request.body),
            Err(_) => None,
        }
    }

    /// The part of the answer that is still to be written.
    pub fn unsent(&self) -> (r: &[u8])
        requires
            self.wf(),
        ensures
            r@ == self@.response.skip(self@.written as int),
    {
        let all = self.buffers.deref().response();
        slice_subrange(all, self.written, all.len())
    }

    /// Puts the answer into the empty answer buffer and turns to writing.
    fn create_html_response(&mut self, status: Status, page: Page)
        requires
            old(self).wf(),
            old(self)@.response.len() == 0,
        ensures
            final(self).wf(),
            final(self)@ == old(self)@.answering(status, page),
            final(self).same_connection(old(self)),
    {
        proof {
            lemma_answer_len(status, page);
        }
        self.buffers.deref_mut().create_html_response(status.head(), page.text());
        self.direction = Direction::AwaitingFlush;
        self.pending = None;
        self.written = 0;
        assert(self.buffers.spec_obj().resp_bytes() =~= spec_response(
            status.spec_head(),
            page.spec_text(),
        ));
    }

    /// Parses what has been read and acts on it: see `ConnectionModel::process`.
    pub fn process_request(&mut self) -> (action: ReadAction)
        requires
            old(self).wf(),
        ensures
            final(self).wf(),
            (final(self)@, action) == old(self)@.process(old(self).spec_limit() as nat),
            final(self).same_connection(old(self)),
    {
        if self.direction == Direction::AwaitingFlush {
            return ReadAction::Flush;
        }
        if let Some(operation) = self.pending {
            return ReadAction::Invoke(operation);
        }
        let parsed: Result<Route, ParseError> = match parse_request(self.buffers.deref().request()) {
            Ok(request) => Ok(route(request.path, request.method)),
            Err(e) => Err(e),
        };
        match parsed {
            Ok(Route::Index) => {
                self.create_html_response(Status::Success, Page::Index);
                ReadAction::Flush
            },
            Ok(Route::Store(operation)) => {
                self.pending = Some(operation);
                ReadAction::Invoke(operation)
            },
            Ok(Route::NotFound) => {
                self.create_html_response(Status::NotFound, Page::Missing);
                ReadAction::Flush
            },
            Err(ParseError::Incomplete) => {
                if self.buffers.deref().request_len() >= self.limit {
                    self.create_html_response(Status::BadRequest, Page::Rejected);
                    ReadAction::Flush
                } else {
                    ReadAction::Wait
                }
            },
            Err(ParseError::Malformed) => {
                self.create_html_response(Status::BadRequest, Page::Rejected);
                ReadAction::Flush
            },
        }
    }

    /// Takes what a read gave: see `ConnectionModel::receive`.
    pub fn receive_request(&mut self, event: ReadEvent) -> (action: ReadAction)
        requires
            old(self).wf(),
        ensures
            final(self).wf(),
            (final(self)@, action) == old(self)@.receive(old(self).spec_limit() as nat, event),
            final(self).same_connection(old(self)),
            action == ReadAction::Wait ==> final(self)@.request.len() < final(self).spec_limit(),
    {
        match event {
            ReadEvent::Closed => ReadAction::Close,
            ReadEvent::Failed => ReadAction::Close,
            ReadEvent::WouldBlock => self.process_request(),
            ReadEvent::Data(chunk) => {
                if self.direction == Direction::AwaitingFlush || self.pending.is_some() {
                    return self.process_request();
                }
                let held: usize = self.buffers.deref().request_len();
                if chunk.len() <= self.limit - held {
                    self.buffers.deref_mut().append_request(chunk);
                    ReadAction::ReadAgain
                } else {
                    self.create_html_response(Status::BadRequest, Page::Rejected);
                    ReadAction::Flush
                }
            },
        }
    }

    /// Takes the result of the call that the connection asked for, and
    /// readies the answer. Says whether there was such a call.
    pub fn complete(&mut self, outcome: Result<bool, Error>) -> (answered: bool)
        requires
            old(self).wf(),
        ensures
            final(self).wf(),
            final(self)@ == old(self)@.complete(outcome),
            answered == old(self)@.pending is Some,
            final(self).same_connection(old(self)),
    {
        if self.pending.is_some() {
            self.create_html_response(outcome_status(&outcome), Page::Search);
            true
        } else {
            false
        }
    }

    /// Takes what a write gave: see `ConnectionModel::write`.
    pub fn write_response(&mut self, event: WriteEvent) -> (action: WriteAction)
        requires
            old(self).wf(),
        ensures
            final(self).wf(),
            (final(self)@, action) == old(self)@.write(event),
            final(self).same_connection(old(self)),
    {
        match event {
            WriteEvent::Failed => WriteAction::Close,
            WriteEvent::WouldBlock => {
                if self.direction == Direction::AwaitingRequest {
                    WriteAction::Done
                } else {
                    WriteAction::Wait
                }
            },
            WriteEvent::Wrote(n) => {
                if self.direction == Direction::AwaitingRequest {
                    return WriteAction::Done;
                }
                let size: usize = self.buffers.deref().response_len();
                if n == 0 {
                    WriteAction::Wait
                } else if n >= size - self.written {
                    self.buffers.deref_mut().clear();
                    self.direction = Direction::AwaitingRequest;
                    self.pending = None;
                    self.written = 0;
                    WriteAction::Done
                } else {
                    self.written = self.written + n;
                    WriteAction::WriteAgain
                }
            },
        }
    }
}

} // verus!
