//! The route table, and what is answered once a handler has run.

use crate::request_parser::{bytes_eq, Method};
use crate::response::Status;
use std::collections::HashMap;
use vstd::prelude::*;
use vstd::string::StringSliceAdditionalSpecFns;

verus! {

/// Why a handler failed.
#[derive(PartialEq, Eq, Structural, Debug, Clone, Copy)]
pub enum Error {
    /// The body of the request is not what the handler takes.
    InvalidRequest,
    /// The store failed.
    _Data,
}

/// The kinds of index that a collection can have.
#[derive(PartialEq, Eq, Structural, Debug, Clone, Copy)]
pub enum IndexType {
    Integer,
    Real,
    Text,
}

/// What a request to create a collection carries: the collection's name and
/// the kind of each of its indexes.
pub struct CreateRequest {
    pub name: String,
    pub indexes: HashMap<String, IndexType>,
}

/// The calls that the store takes.
#[derive(PartialEq, Eq, Structural, Debug, Clone, Copy)]
pub enum Operation {
    Create,
    Update,
    Delete,
    Search,
}

/// Where a request goes.
#[derive(PartialEq, Eq, Structural, Debug, Clone, Copy)]
pub enum Route {
    /// The index page: answered at once.
    Index,
    /// One call of the store.
    Store(Operation),
    /// Nowhere.
    NotFound,
}

/// The route table. Each operation has a long path and a short one.
pub open spec fn spec_route(path: Seq<u8>, method: Method) -> Route {
    if path == "/".spec_bytes() && method == Method::Get {
        Route::Index
    } else if (path == "/c".spec_bytes() || path == "/create".spec_bytes()) && method
        == Method::Post {
        Route::Store(Operation::Create)
    } else if (path == "/u".spec_bytes() || path == "/update".spec_bytes()) && (method
        == Method::Post || method == Method::Put) {
        Route::Store(Operation::Update)
    } else if (path == "/d".spec_bytes() || path == "/delete".spec_bytes()) && method
        == Method::Delete {
        Route::Store(Operation::Delete)
    } else if (path == "/s".spec_bytes() || path == "/search".spec_bytes()) && method
        == Method::Get {
        Route::Store(Operation::Search)
    } else {
        Route::NotFound
    }
}

/// Looks a path and a method up in the route table.
pub fn route(path: &[u8], method: Method) -> (r: Route)
    ensures
        r == spec_route(path@, method),
{
    if bytes_eq(path, "/".as_bytes()) && method == Method::Get {
        Route::Index
    } else if (bytes_eq(path, "/c".as_bytes()) || bytes_eq(path, "/create".as_bytes())) && method
        == Method::Post {
        Route::Store(Operation::Create)
    } else if (bytes_eq(path, "/u".as_bytes()) || bytes_eq(path, "/update".as_bytes())) && (method
        == Method::Post || method == Method::Put) {
        Route::Store(Operation::Update)
    } else if (bytes_eq(path, "/d".as_bytes()) || bytes_eq(path, "/delete".as_bytes())) && method
        == Method::Delete {
        Route::Store(Operation::Delete)
    } else if (bytes_eq(path, "/s".as_bytes()) || bytes_eq(path, "/search".as_bytes())) && method
        == Method::Get {
        Route::Store(Operation::Search)
    } else {
        Route::NotFound
    }
}

/// Creating a collection succeeds where the body of the request could be
/// read as a `CreateRequest`.
pub fn create(request: Option<CreateRequest>) -> (r: Result<bool, Error>)
    ensures
        r == (match request {
            Some(_) => Ok::<bool, Error>(true),
            None => Err::<bool, Error>(Error::InvalidRequest),
        }),
{
    match request {
        Some(_) => Ok(true),
        None => Err(Error::InvalidRequest),
    }
}

/// Updating a document: the store takes every update.
pub fn update() -> (r: Result<bool, Error>)
    ensures
        r == Ok::<bool, Error>(true),
{
    Ok(true)
}

/// Searching: the store answers every search.
pub fn search() -> (r: Result<bool, Error>)
    ensures
        r == Ok::<bool, Error>(true),
{
    Ok(true)
}

/// Deleting a document: the store takes every deletion.
pub fn delete() -> (r: Result<bool, Error>)
    ensures
        r == Ok::<bool, Error>(true),
{
    Ok(true)
}

/// The class of the answer to a request whose handler ended with `outcome`.
pub open spec fn spec_outcome_status(outcome: Result<bool, Error>) -> Status {
    match outcome {
        Ok(_) => Status::Success,
        Err(_) => Status::ServerError,
    }
}

/// The class of the answer to a request whose handler ended with `outcome`.
pub fn outcome_status(outcome: &Result<bool, Error>) -> (r: Status)
    ensures
        r == spec_outcome_status(*outcome),
{
    match outcome {
        Ok(_) => Status::Success,
        Err(_) => Status::ServerError,
    }
}

/// The body that goes with an answer.
#[derive(PartialEq, Eq, Structural, Debug, Clone, Copy)]
pub enum Page {
    Index,
    Search,
    Missing,
    Rejected,
}

impl Page {
    /// The bytes of the body.
    pub open spec fn spec_text(self) -> Seq<u8> {
        match self {
            Page::Index => "index\n".spec_bytes(),
            Page::Search => "search\n".spec_bytes(),
            Page::Missing => "404\n".spec_bytes(),
            Page::Rejected => "400\n".spec_bytes(),
        }
    }

    /// The bytes of the body.
    pub fn text(self) -> (r: &'static [u8])
        ensures
            r@ == self.spec_text(),
            r@.len() <= 8,
    {
        proof {
            reveal_strlit("index\n");
            reveal_strlit("search\n");
            reveal_strlit("404\n");
            reveal_strlit("400\n");
            vstd::string::is_ascii_spec_bytes("index\n");
            vstd::string::is_ascii_spec_bytes("search\n");
            vstd::string::is_ascii_spec_bytes("404\n");
            vstd::string::is_ascii_spec_bytes("400\n");
        }
        match self {
            Page::Index => "index\n".as_bytes(),
            Page::Search => "search\n".as_bytes(),
            Page::Missing => "404\n".as_bytes(),
            Page::Rejected => "400\n".as_bytes(),
        }
    }
}

} // verus!
