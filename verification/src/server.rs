//! The state that a readiness loop drives: the buffer pool, the table of
//! connections, and what each readiness event does to them.

use crate::buffers::RequestBuffers;
use crate::connection::{
    ConnectionData, ConnectionModel, ReadAction, ReadEvent, WriteAction, WriteEvent,
    MAX_REQUEST_BYTES,
};
use crate::dispatch::Error;
use crate::pool::{spec_pick, spec_taken, Pool};
use crate::request_parser::spec_parse_request;
use crate::table::{ConnectionTable, MANAGER, MAX_KEYS, MAX_TOKEN, SERVER};
use vstd::prelude::*;

verus! {

/// What a readiness event is about.
#[derive(PartialEq, Eq, Structural, Debug, Clone, Copy)]
pub enum Event {
    /// A listening socket has connections to accept.
    Accept { is_management: bool },
    /// The connection with this token can be read.
    Read { token: usize },
    /// The connection with this token can be written.
    Write { token: usize },
    /// Nothing to do.
    Spurious,
}

/// Sorts a readiness event by its token. The tokens under `MAX_TOKEN` are
/// those of the listening sockets. On any other token, reading goes before
/// writing.
pub open spec fn spec_classify(token: usize, readable: bool, writable: bool) -> Event {
    if token == SERVER {
        Event::Accept { is_management: false }
    } else if token == MANAGER {
        Event::Accept { is_management: true }
    } else if readable {
        Event::Read { token }
    } else if writable {
        Event::Write { token }
    } else {
        Event::Spurious
    }
}

/// Sorts a readiness event by its token: see `spec_classify`.
pub fn classify(token: usize, readable: bool, writable: bool) -> (event: Event)
    ensures
        event == spec_classify(token, readable, writable),
{
    if token == SERVER {
        Event::Accept { is_management: false }
    } else if token == MANAGER {
        Event::Accept { is_management: true }
    } else if readable {
        Event::Read { token }
    } else if writable {
        Event::Write { token }
    } else {
        Event::Spurious
    }
}

/// The key of the connection that has `token`, if `token` is that of a
/// connection at all.
pub open spec fn spec_key_of(token: usize) -> Option<usize> {
    if token >= MAX_TOKEN {
        Some((token - MAX_TOKEN) as usize)
    } else {
        None
    }
}

/// A connection that was accepted.
#[derive(Debug, Clone, Copy)]
pub struct Accepted {
    /// The token under which to register its socket, for reading.
    pub token: usize,
    /// Whether the pool had no free buffers and made new ones.
    pub pool_miss: bool,
}

/// Why a connection was not accepted.
#[derive(PartialEq, Eq, Structural, Debug, Clone, Copy)]
pub enum AcceptError {
    /// As many connections are live as the server takes: accept later.
    Backpressure,
}

/// Every connection's lease is on a slot of the pool that is out on lease.
pub open spec fn leases_held(
    connections: Map<usize, ConnectionData>,
    slots: Seq<Option<RequestBuffers>>,
) -> bool {
    forall|key: usize| #[trigger]
        connections.contains_key(key) ==> connections[key].spec_slot() < slots.len()
            && slots[connections[key].spec_slot() as int] is None
}

/// No two connections have a lease on one slot.
pub open spec fn leases_exclusive(connections: Map<usize, ConnectionData>) -> bool {
    forall|a: usize, b: usize|
        #![trigger connections.contains_key(a), connections.contains_key(b)]
        connections.contains_key(a) && connections.contains_key(b) && a != b
            ==> connections[a].spec_slot() != connections[b].spec_slot()
}

/// The pool of buffers and the table of connections.
#[verifier::reject_recursive_types(F)]
pub struct Server<F: Fn() -> RequestBuffers> {
    sockets: ConnectionTable,
    buf_pool: Pool<RequestBuffers, F>,
    max_connections: usize,
    limit: usize,
}

impl<F: Fn() -> RequestBuffers> Server<F> {
    /// The live connections, each under its key: its token less `MAX_TOKEN`.
    pub closed spec fn view(&self) -> Map<usize, ConnectionData> {
        self.sockets@
    }

    /// The table of connections.
    pub closed spec fn table(&self) -> ConnectionTable {
        self.sockets
    }

    /// The slots of the buffer pool: a free slot holds its buffers, a leased
    /// slot nothing.
    pub closed spec fn slots(&self) -> Seq<Option<RequestBuffers>> {
        self.buf_pool@
    }

    /// Which slots of the buffer pool are leased.
    pub open spec fn in_use(&self) -> Seq<bool> {
        Seq::new(self.slots().len(), |i: int| self.slots()[i] is None)
    }

    /// Where the pool's search for a free slot begins.
    pub closed spec fn spec_pool_next(&self) -> int {
        self.buf_pool.spec_next()
    }

    /// The key that the next connection will get.
    pub closed spec fn spec_vacant_key(&self) -> usize {
        self.sockets.spec_vacant_key()
    }

    /// No connection gets a key as large as this.
    pub closed spec fn spec_max_connections(&self) -> usize {
        self.max_connections
    }

    /// The most bytes that a connection holds for one request.
    pub closed spec fn spec_limit(&self) -> usize {
        self.limit
    }

    /// The buffer pool is in order.
    pub closed spec fn pool_wf(&self) -> bool {
        self.buf_pool.wf()
    }

    /// What holds of every server: the pool and every connection are in
    /// order, every connection's token is its key plus `MAX_TOKEN`, and the
    /// connections hold leases on distinct slots of the pool.
    pub open spec fn wf(&self) -> bool {
        &&& self.pool_wf()
        &&& self.table()@ == self@
        &&& self.table().wf()
        &&& leases_held(self@, self.slots())
        &&& leases_exclusive(self@)
        &&& self.spec_max_connections() <= MAX_KEYS
        &&& self.spec_limit() <= MAX_REQUEST_BYTES
    }

    /// The connection that has `token`.
    pub open spec fn connection(&self, token: usize) -> Option<ConnectionData> {
        match spec_key_of(token) {
            Some(key) => if self@.contains_key(key) {
                Some(self@[key])
            } else {
                None
            },
            None => None,
        }
    }

    /// A server with no connections and `capacity` free pairs of buffers.
    /// It takes no connection under a key of `max_connections` or more, and
    /// each connection holds up to `limit` bytes of a request; both are cut
    /// down to `MAX_KEYS` and `MAX_REQUEST_BYTES`. The first connection gets
    /// the key 0, so the first `accept` succeeds unless `max_connections`
    /// is 0.
    pub fn new(capacity: usize, max_connections: usize, limit: usize, init_function: F) -> (server:
        Server<F>)
        requires
            call_requires(init_function, ()),
        ensures
            server.wf(),
            server@ == (Map::<usize, ConnectionData>::empty()),
            server.spec_vacant_key() == 0,
            server.slots().len() == capacity,
            server.in_use() == Seq::new(capacity as nat, |i: int| false),
            server.spec_pool_next() == 0,
            server.spec_max_connections() == if max_connections <= MAX_KEYS {
                max_connections
            } else {
                MAX_KEYS
            },
            server.spec_limit() == if limit <= MAX_REQUEST_BYTES {
                limit
            } else {
                MAX_REQUEST_BYTES
            },
    {
        let server = Server {
            sockets: ConnectionTable::new(),
            buf_pool: Pool::new(capacity, init_function),
            max_connections: if max_connections <= MAX_KEYS {
                max_connections
            } else {
                MAX_KEYS
            },
            limit: if limit <= MAX_REQUEST_BYTES {
                limit
            } else {
                MAX_REQUEST_BYTES
            },
        };
        assert(server.in_use() =~= Seq::new(capacity as nat, |i: int| false));
        server
    }

    /// Whether the next connection would be taken in.
    pub fn has_room(&self) -> (r: bool)
        ensures
            r == (self.spec_vacant_key() < self.spec_max_connections()),
    {
        self.sockets.vacant_key() < self.max_connections
    }

    /// Takes a new connection in: leases buffers, empties them, and stores
    /// the connection under the vacant key. The connection's token is that
    /// key plus `MAX_TOKEN`. Nothing changes where the vacant key is not
    /// under the server's bound: the caller is to accept later.
    pub fn accept(&mut self, is_management: bool) -> (res: Result<Accepted, AcceptError>)
        requires
            old(self).wf(),
        ensures
            final(self).wf(),
            final(self).spec_max_connections() == old(self).spec_max_connections(),
            final(self).spec_limit() == old(self).spec_limit(),
            match res {
                Ok(accepted) => {
                    let key = old(self).spec_vacant_key();
                    let slot = spec_pick(old(self).in_use(), old(self).spec_pool_next());
                    &&& key < old(self).spec_max_connections()
                    &&& accepted.token == key + MAX_TOKEN
                    &&& accepted.pool_miss == (slot >= old(self).slots().len())
                    &&& !old(self)@.contains_key(key)
                    &&& final(self)@ == old(self)@.insert(key, final(self)@[key])
                    &&& final(self)@[key]@ == ConnectionModel::idle()
                    &&& final(self)@[key].spec_token() == accepted.token
                    &&& final(self)@[key].spec_is_management() == is_management
                    &&& final(self)@[key].spec_limit() == old(self).spec_limit()
                    &&& final(self)@[key].spec_slot() == slot
                    &&& final(self).in_use() == spec_taken(old(self).in_use(), slot)
                    &&& final(self).spec_pool_next() == slot + 1
                },
                Err(_) => {
                    &&& old(self).spec_vacant_key() >= old(self).spec_max_connections()
                    &&& final(self)@ == old(self)@
                    &&& final(self).slots() == old(self).slots()
                    &&& final(self).spec_pool_next() == old(self).spec_pool_next()
                    &&& final(self).spec_vacant_key() == old(self).spec_vacant_key()
                },
            },
    {
        let key = self.sockets.vacant_key();
        if key >= self.max_connections {
            return Err(AcceptError::Backpressure);
        }
        let size: usize = self.buf_pool.len();
        let lease = self.buf_pool.pull();
        let pool_miss = lease.slot() >= size;
        let token: usize = key + MAX_TOKEN;
        let connection = ConnectionData::new(token, lease, is_management, self.limit);
        match self.sockets.insert(connection) {
            Ok(_) => {
                assert(self.in_use() =~= spec_taken(old(self).in_use(), lease.spec_slot() as int));
                Ok(Accepted { token, pool_miss })
            },
            Err(_) => {
                // The table takes every connection whose key is under `MAX_KEYS`,
                // and this one's is under the server's bound, which is no larger.
                assert(false);
                Err(AcceptError::Backpressure)
            },
        }
    }

    /// Forgets the connection stored under `key` and takes its lease back.
    fn drop_connection(&mut self, key: usize)
        requires
            old(self).wf(),
            old(self)@.contains_key(key),
        ensures
            final(self).wf(),
            final(self).spec_max_connections() == old(self).spec_max_connections(),
            final(self).spec_limit() == old(self).spec_limit(),
            final(self)@ == old(self)@.remove(key),
            final(self).in_use() == old(self).in_use().update(
                old(self)@[key].spec_slot() as int,
                false,
            ),
            final(self).spec_pool_next() == old(self).spec_pool_next(),
            final(self).spec_vacant_key() == key,
    {
        match self.sockets.remove(key) {
            Some(connection) => {
                let lease = connection.into_buffers();
                let _ = self.buf_pool.release(lease);
                assert(self.in_use() =~= old(self).in_use().update(
                    old(self)@[key].spec_slot() as int,
                    false,
                ));
            },
            None => {},
        }
    }

    /// Ends the connection that has `token`, if there is one: it leaves the
    /// table, its key is the one that the next connection gets, and its
    /// buffers are free for the next connection. The caller is to take the
    /// socket off the readiness source and close it.
    pub fn close(&mut self, token: usize) -> (closed: bool)
        requires
            old(self).wf(),
        ensures
            final(self).wf(),
            final(self).spec_max_connections() == old(self).spec_max_connections(),
            final(self).spec_limit() == old(self).spec_limit(),
            final(self).spec_pool_next() == old(self).spec_pool_next(),
            closed == old(self).connection(token) is Some,
            match old(self).connection(token) {
                Some(connection) => {
                    &&& final(self)@ == old(self)@.remove(spec_key_of(token).unwrap())
                    &&& final(self).spec_vacant_key() == spec_key_of(token).unwrap()
                    &&& final(self).in_use() == old(self).in_use().update(
                        connection.spec_slot() as int,
                        false,
                    )
                },
                None => {
                    &&& final(self)@ == old(self)@
                    &&& final(self).slots() == old(self).slots()
                    &&& final(self).spec_vacant_key() == old(self).spec_vacant_key()
                },
            },
    {
        if token < MAX_TOKEN {
            return false;
        }
        let key: usize = token - MAX_TOKEN;
        if self.sockets.contains(key) {
            self.drop_connection(key);
            true
        } else {
            false
        }
    }

    /// Hands what a read gave to the connection that has `token`: see
    /// `ConnectionModel::receive`. Where the connection is to be closed, it
    /// leaves the table here and its buffers are free again. Where no
    /// connection has the token, the caller is told to close the socket.
    pub fn receive_request(&mut self, token: usize, event: ReadEvent) -> (action: ReadAction)
        requires
            old(self).wf(),
        ensures
            final(self).wf(),
            final(self).spec_max_connections() == old(self).spec_max_connections(),
            final(self).spec_limit() == old(self).spec_limit(),
            final(self).spec_pool_next() == old(self).spec_pool_next(),
            match old(self).connection(token) {
                Some(connection) => {
                    let key = spec_key_of(token).unwrap();
                    let step = connection@.receive(connection.spec_limit() as nat, event);
                    &&& action == step.1
                    &&& if action == ReadAction::Close {
                        &&& final(self)@ == old(self)@.remove(key)
                        &&& final(self).spec_vacant_key() == key
                        &&& final(self).in_use() == old(self).in_use().update(
                            connection.spec_slot() as int,
                            false,
                        )
                    } else {
                        &&& final(self)@ == old(self)@.insert(key, final(self)@[key])
                        &&& final(self)@[key]@ == step.0
                        &&& final(self)@[key].same_connection(&connection)
                        &&& final(self).slots() == old(self).slots()
                        &&& final(self).spec_vacant_key() == old(self).spec_vacant_key()
                    }
                },
                None => {
                    &&& action == ReadAction::Close
                    &&& final(self)@ == old(self)@
                    &&& final(self).slots() == old(self).slots()
                    &&& final(self).spec_vacant_key() == old(self).spec_vacant_key()
                },
            },
            action == ReadAction::Wait ==> final(self).connection(token) is Some && final(self).connection(token).unwrap()@.request.len() < final(self).connection(token).unwrap().spec_limit(),
    {
        if token < MAX_TOKEN {
            return ReadAction::Close;
        }
        let key: usize = token - MAX_TOKEN;
        let action = match self.sockets.get_mut(key) {
            Some(connection) => connection.receive_request(event),
            None => {
                return ReadAction::Close;
            },
        };
        if action == ReadAction::Close {
            self.drop_connection(key);
        }
        action
    }

    /// Hands the result of a call of the store to the connection that asked
    /// for it: see `ConnectionModel::complete`. Says whether an answer is
    /// ready now.
    pub fn complete(&mut self, token: usize, outcome: Result<bool, Error>) -> (answered: bool)
        requires
            old(self).wf(),
        ensures
            final(self).wf(),
            final(self).spec_max_connections() == old(self).spec_max_connections(),
            final(self).spec_limit() == old(self).spec_limit(),
            final(self).spec_pool_next() == old(self).spec_pool_next(),
            final(self).slots() == old(self).slots(),
            final(self).spec_vacant_key() == old(self).spec_vacant_key(),
            match old(self).connection(token) {
                Some(connection) => {
                    let key = spec_key_of(token).unwrap();
                    &&& answered == connection@.pending is Some
                    &&& final(self)@ == old(self)@.insert(key, final(self)@[key])
                    &&& final(self)@[key]@ == connection@.complete(outcome)
                    &&& final(self)@[key].same_connection(&connection)
                },
                None => !answered && final(self)@ == old(self)@,
            },
    {
        if token < MAX_TOKEN {
            return false;
        }
        let key: usize = token - MAX_TOKEN;
        match self.sockets.get_mut(key) {
            Some(connection) => connection.complete(outcome),
            None => false,
        }
    }

    /// Hands what a write gave to the connection that has `token`: see
    /// `ConnectionModel::write`. Where the connection is to be closed, it
    /// leaves the table here and its buffers are free again. Where no
    /// connection has the token, the caller is told to close the socket.
    pub fn write_response(&mut self, token: usize, event: WriteEvent) -> (action: WriteAction)
        requires
            old(self).wf(),
        ensures
            final(self).wf(),
            final(self).spec_max_connections() == old(self).spec_max_connections(),
            final(self).spec_limit() == old(self).spec_limit(),
            final(self).spec_pool_next() == old(self).spec_pool_next(),
            match old(self).connection(token) {
                Some(connection) => {
                    let key = spec_key_of(token).unwrap();
                    let step = connection@.write(event);
                    &&& action == step.1
                    &&& if action == WriteAction::Close {
                        &&& final(self)@ == old(self)@.remove(key)
                        &&& final(self).spec_vacant_key() == key
                        &&& final(self).in_use() == old(self).in_use().update(
                            connection.spec_slot() as int,
                            false,
                        )
                    } else {
                        &&& final(self)@ == old(self)@.insert(key, final(self)@[key])
                        &&& final(self)@[key]@ == step.0
                        &&& final(self)@[key].same_connection(&connection)
                        &&& final(self).slots() == old(self).slots()
                        &&& final(self).spec_vacant_key() == old(self).spec_vacant_key()
                    }
                },
                None => {
                    &&& action == WriteAction::Close
                    &&& final(self)@ == old(self)@
                    &&& final(self).slots() == old(self).slots()
                    &&& final(self).spec_vacant_key() == old(self).spec_vacant_key()
                },
            },
    {
        if token < MAX_TOKEN {
            return WriteAction::Close;
        }
        let key: usize = token - MAX_TOKEN;
        let action = match self.sockets.get_mut(key) {
            Some(connection) => connection.write_response(event),
            None => {
                return WriteAction::Close;
            },
        };
        if action == WriteAction::Close {
            self.drop_connection(key);
        }
        action
    }

    /// The bytes that the connection with `token` has read and not answered.
    pub fn request(&self, token: usize) -> (r: Option<&[u8]>)
        ensures
            match self.connection(token) {
                Some(connection) => r matches Some(bytes) && bytes@ == connection@.request,
                None => r is None,
            },
    {
        if token < MAX_TOKEN {
            return None;
        }
        match self.sockets.get(token - MAX_TOKEN) {
            Some(connection) => Some(connection.request()),
            None => None,
        }
    }

    /// The body of the request for which the connection with `token` waits
    /// on a call of the store: what that call is to be made with.
    pub fn pending_body(&self, token: usize) -> (r: Option<&[u8]>)
        ensures
            match self.connection(token) {
                Some(connection) => match (
                    connection@.pending,
                    spec_parse_request(connection@.request),
                ) {
                    (Some(_), Ok(request)) => r matches Some(body) && body@ == request.body,
                    _ => r is None,
                },
                None => r is None,
            },
            self.wf() && (self.connection(token) matches Some(connection) && connection@.pending
                is Some) ==> r is Some,
    {
        if token < MAX_TOKEN {
            return None;
        }
        match self.sockets.get(token - MAX_TOKEN) {
            Some(connection) => connection.pending_body(),
            None => None,
        }
    }

    /// The part of its answer that the connection with `token` has still to
    /// write.
    pub fn unsent(&self, token: usize) -> (r: Option<&[u8]>)
        requires
            self.wf(),
        ensures
            match self.connection(token) {
                Some(connection) => r matches Some(bytes) && bytes@ == connection@.response.skip(
                    connection@.written as int,
                ),
                None => r is None,
            },
    {
        if token < MAX_TOKEN {
            return None;
        }
        match self.sockets.get(token - MAX_TOKEN) {
            Some(connection) => Some(connection.unsent()),
            None => None,
        }
    }

    /// The number of pairs of buffers, free and leased.
    pub fn pool_size(&self) -> (n: usize)
        ensures
            n == self.slots().len(),
    {
        self.buf_pool.len()
    }

    /// No two live connections have one token, and no live connection has
    /// the token of a listening socket.
    pub proof fn lemma_tokens_unique(&self, a: usize, b: usize)
        requires
            self.wf(),
            self@.contains_key(a),
            self@.contains_key(b),
        ensures
            self@[a].spec_token() == self@[b].spec_token() ==> a == b,
            self@[a].spec_token() >= MAX_TOKEN,
            self.connection(self@[a].spec_token()) == Some(self@[a]),
    {
    }

    /// No two live connections hold one slot of the buffer pool, and every
    /// slot that a connection holds is out on lease.
    pub proof fn lemma_buffers_exclusive(&self, a: usize, b: usize)
        requires
            self.wf(),
            self@.contains_key(a),
            self@.contains_key(b),
        ensures
            self@[a].spec_slot() == self@[b].spec_slot() ==> a == b,
            self@[a].spec_slot() < self.in_use().len(),
            self.in_use()[self@[a].spec_slot() as int],
    {
    }
}

} // verus!
