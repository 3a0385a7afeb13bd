//! The table of live connections. A connection is stored under a key, and
//! the key of a connection that has gone is used again.

use crate::connection::ConnectionData;
use vstd::prelude::*;

verus! {

/// `slab::Slab`, a collection that stores each value under an integer key
/// and uses the keys of removed values again. Of its contents the library
/// knows what the wrappers below state, and no more.
#[verifier::external_type_specification]
#[verifier::external_body]
#[verifier::reject_recursive_types(T)]
pub struct ExSlab<T>(slab::Slab<T>);

/// The connections that a slab holds, each under its key.
pub uninterp spec fn slab_entries(s: slab::Slab<ConnectionData>) -> Map<usize, ConnectionData>;

/// The key under which a slab will store the next value.
pub uninterp spec fn slab_vacant_key(s: slab::Slab<ConnectionData>) -> usize;

/// The token of the socket that listens for regular connections.
pub const SERVER: usize = 0;

/// The token of the socket that listens for management connections.
pub const MANAGER: usize = 1;

/// The number of tokens kept for listening sockets: the token of a
/// connection is its key plus this.
pub const MAX_TOKEN: usize = 2;

/// No connection is stored under a key as large as this. The bound is
/// there for the slab's sake: its vector of entries must stay under what one
/// allocation may have, and the size of an entry is the slab's own affair.
/// With keys under this bound the vector stays under it on every machine,
/// one of 32 bits too.
pub const MAX_KEYS: usize = 0x10_0000;

/// `Slab::new` gives a slab that holds nothing, with 0 as its vacant key.
#[verifier::external_body]
fn slab_new() -> (made: slab::Slab<ConnectionData>)
    ensures
        slab_entries(made) == (Map::<usize, ConnectionData>::empty()),
        slab_vacant_key(made) == 0,
{
    slab::Slab::new()
}

/// `Slab::vacant_key` gives the key that the next `insert` will use. No value
/// is stored under it.
#[verifier::external_body]
fn slab_next_key(s: &slab::Slab<ConnectionData>) -> (key: usize)
    ensures
        key == slab_vacant_key(*s),
        !slab_entries(*s).contains_key(key),
{
    s.vacant_key()
}

/// `Slab::insert` stores the value under the vacant key and returns that
/// key. The values stored before stay under their keys. It allocates only
/// where the vacant key is the one behind the last slot, so a key under
/// `MAX_KEYS` keeps the storage below what a vector may have. Which key is
/// vacant afterwards is not said: it is the one behind the last slot, or one
/// that the slab remembers from an earlier removal.
#[verifier::external_body]
fn slab_insert(s: &mut slab::Slab<ConnectionData>, value: ConnectionData) -> (key: usize)
    requires
        slab_vacant_key(*old(s)) < MAX_KEYS,
    ensures
        key == slab_vacant_key(*old(s)),
        slab_entries(*final(s)) == slab_entries(*old(s)).insert(key, value),
{
    s.insert(value)
}

/// `Slab::try_remove` takes out and returns the value stored under `key`,
/// and `key` is the vacant key then. It does nothing where no value is
/// stored under `key`.
#[verifier::external_body]
fn slab_try_remove(s: &mut slab::Slab<ConnectionData>, key: usize) -> (r: Option<ConnectionData>)
    ensures
        match r {
            Some(value) => {
                &&& slab_entries(*old(s)).contains_key(key)
                &&& value == slab_entries(*old(s))[key]
                &&& slab_entries(*final(s)) == slab_entries(*old(s)).remove(key)
                &&& slab_vacant_key(*final(s)) == key
            },
            None => {
                &&& !slab_entries(*old(s)).contains_key(key)
                &&& slab_entries(*final(s)) == slab_entries(*old(s))
                &&& slab_vacant_key(*final(s)) == slab_vacant_key(*old(s))
            },
        },
{
    s.try_remove(key)
}

/// `Slab::get` lends the value stored under `key`, if there is one.
#[verifier::external_body]
fn slab_get(s: &slab::Slab<ConnectionData>, key: usize) -> (r: Option<&ConnectionData>)
    ensures
        match r {
            Some(value) => slab_entries(*s).contains_key(key) && *value == slab_entries(*s)[key],
            None => !slab_entries(*s).contains_key(key),
        },
{
    s.get(key)
}

/// `Slab::get_mut` lends the value stored under `key` for change, if there
/// is one. What the borrower leaves is what is stored under `key` afterwards.
/// The vacant key stays what it is.
#[verifier::external_body]
fn slab_get_mut(s: &mut slab::Slab<ConnectionData>, key: usize) -> (r: Option<
    &mut ConnectionData,
>)
    ensures
        match r {
            Some(value) => {
                &&& slab_entries(*old(s)).contains_key(key)
                &&& *value == slab_entries(*old(s))[key]
                &&& slab_entries(*final(s)) == slab_entries(*old(s)).insert(key, *final(value))
            },
            None => {
                &&& !slab_entries(*old(s)).contains_key(key)
                &&& slab_entries(*final(s)) == slab_entries(*old(s))
            },
        },
        slab_vacant_key(*final(s)) == slab_vacant_key(*old(s)),
{
    s.get_mut(key)
}

/// The live connections, each under its key.
pub struct ConnectionTable {
    slab: slab::Slab<ConnectionData>,
}

impl View for ConnectionTable {
    type V = Map<usize, ConnectionData>;

    /// The connections, each under its key.
    closed spec fn view(&self) -> Map<usize, ConnectionData> {
        slab_entries(self.slab)
    }
}

impl ConnectionTable {
    /// The key that the next connection will get.
    pub closed spec fn spec_vacant_key(&self) -> usize {
        slab_vacant_key(self.slab)
    }

    /// Every connection is in order, and its token is its key plus the
    /// number of tokens kept for listening sockets.
    pub open spec fn wf(&self) -> bool {
        forall|key: usize| #[trigger]
            self@.contains_key(key) ==> self@[key].wf() && self@[key].spec_token() == key
                + MAX_TOKEN
    }

    /// A table without connections. The first connection gets the key 0.
    pub fn new() -> (table: ConnectionTable)
        ensures
            table@ == Map::<usize, ConnectionData>::empty(),
            table.spec_vacant_key() == 0,
            table.wf(),
    {
        ConnectionTable { slab: slab_new() }
    }

    /// The key that the next connection will get. It is free.
    pub fn vacant_key(&self) -> (key: usize)
        ensures
            key == self.spec_vacant_key(),
            !self@.contains_key(key),
    {
        slab_next_key(&self.slab)
    }

    /// Stores a connection under the vacant key, if that key is under
    /// `MAX_KEYS`, and hands the connection back if it is not.
    pub fn insert(&mut self, value: ConnectionData) -> (res: Result<usize, ConnectionData>)
        ensures
            old(self).spec_vacant_key() < MAX_KEYS ==> res == Ok::<usize, ConnectionData>(
                old(self).spec_vacant_key(),
            ) && final(self)@ == old(self)@.insert(old(self).spec_vacant_key(), value),
            old(self).spec_vacant_key() >= MAX_KEYS ==> res == Err::<usize, ConnectionData>(value)
                && final(self)@ == old(self)@,
            !old(self)@.contains_key(old(self).spec_vacant_key()),
    {
        let key = slab_next_key(&self.slab);
        if key < MAX_KEYS {
            Ok(slab_insert(&mut self.slab, value))
        } else {
            Err(value)
        }
    }

    /// Takes out the connection stored under `key`, if there is one. The key
    /// is free afterwards, and the next connection gets it.
    pub fn remove(&mut self, key: usize) -> (r: Option<ConnectionData>)
        ensures
            match r {
                Some(value) => {
                    &&& old(self)@.contains_key(key)
                    &&& value == old(self)@[key]
                    &&& final(self)@ == old(self)@.remove(key)
                    &&& final(self).spec_vacant_key() == key
                },
                None => {
                    &&& !old(self)@.contains_key(key)
                    &&& final(self)@ == old(self)@
                    &&& final(self).spec_vacant_key() == old(self).spec_vacant_key()
                },
            },
    {
        slab_try_remove(&mut self.slab, key)
    }

    /// Lends the connection stored under `key`, if there is one.
    pub fn get(&self, key: usize) -> (r: Option<&ConnectionData>)
        ensures
            match r {
                Some(value) => self@.contains_key(key) && *value == self@[key],
                None => !self@.contains_key(key),
            },
    {
        slab_get(&self.slab, key)
    }

    /// Lends the connection stored under `key` for change. What the borrower
    /// leaves is what the table holds under `key` afterwards.
    pub fn get_mut(&mut self, key: usize) -> (r: Option<&mut ConnectionData>)
        ensures
            match r {
                Some(value) => {
                    &&& old(self)@.contains_key(key)
                    &&& *value == old(self)@[key]
                    &&& final(self)@ == old(self)@.insert(key, *final(value))
                },
                None => !old(self)@.contains_key(key) && final(self)@ == old(self)@,
            },
            final(self).spec_vacant_key() == old(self).spec_vacant_key(),
    {
        slab_get_mut(&mut self.slab, key)
    }

    /// Whether a connection is stored under `key`.
    pub fn contains(&self, key: usize) -> (r: bool)
        ensures
            r == self@.contains_key(key),
    {
        slab_get(&self.slab, key).is_some()
    }

    /// Two live connections with one token are one connection.
    pub proof fn lemma_tokens_unique(&self, a: usize, b: usize)
        requires
            self.wf(),
            self@.contains_key(a),
            self@.contains_key(b),
            self@[a].spec_token() == self@[b].spec_token(),
        ensures
            a == b,
    {
    }

    /// No live connection has the token of a listening socket.
    pub proof fn lemma_tokens_not_reserved(&self, key: usize)
        requires
            self.wf(),
            self@.contains_key(key),
        ensures
            self@[key].spec_token() >= MAX_TOKEN,
            self@[key].spec_token() != SERVER,
            self@[key].spec_token() != MANAGER,
    {
    }
}

} // verus!
