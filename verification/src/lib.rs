//! A client library for a document database's HTTP interface: submit a
//! declarative query, interpret the server's paginated response envelope,
//! and fetch successive batches until the cursor is exhausted.
use vstd::prelude::*;

pub mod aql;
pub mod cursor;
pub mod database;
pub mod error;
pub mod transport;
pub mod wire;

pub use crate::aql::AqlQuery;
pub use crate::cursor::{decode_cursor, decode_response, Cursor, Decodable, RawJson};
pub use crate::database::Database;
pub use crate::error::{ClientError, DecodeFault, ErrorView, TransportFault};
pub use crate::transport::{Method, RequestRecord, ScriptedTransport, Transport};

verus! {

/// Marker for a context that may only read from the database.
#[derive(Debug)]
pub struct ReadOnly;

/// Marker for a context that may both read and write.
#[derive(Debug)]
pub struct ReadWrite;

} // verus!
