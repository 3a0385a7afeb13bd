//! The connection-handling core of a small search server: a pool of reusable
//! buffers, a table of live connections, a zero-copy request parser, a route
//! table and the per-connection state machine that a readiness loop drives.

pub mod buffers;
pub mod byte_class;
pub mod connection;
pub mod dispatch;
pub mod pool;
pub mod query_parser;
pub mod request_complete;
pub mod request_fields;
pub mod request_laws;
pub mod request_parser;
pub mod response;
pub mod server;
pub mod table;
