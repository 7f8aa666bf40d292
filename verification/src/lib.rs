//! Arrow Flight / ADBC columnar interface for LadybugDB.
//!
//! LadybugDB answers Cypher queries with Arrow batches, and a Flight server
//! hands them out over gRPC. This library holds what such a server and its
//! clients decide: the Flight SQL messages and how they are read, which query
//! a request stands for, which prepared statements are held, and the steps in
//! which a client fetches a result.
//!
//! The Flight SQL messages are made for SQL, but the query in them is just a
//! text. Here it is Cypher, so that the same calls work for a graph database.

pub mod any;
pub mod bench;
pub mod cache;
pub mod client;
pub mod demo;
pub mod handle;
pub mod json;
pub mod net;
pub mod query;
pub mod schema;
pub mod server;
pub mod statement;
pub mod table;
pub mod text;
pub mod varint;
pub mod wire;

pub use any::{decode_any, encode_any};
pub use client::normalize_uri;
pub use demo::demo_queries;
pub use query::{extract_query, looks_like_query};
pub use server::LadybugFlightServer;
pub use statement::{
    action_close_prepared_statement_request, action_create_prepared_statement_request,
    any_command_prepared_statement_query, any_command_statement_query, decode_ticket_handle,
    encode_create_prepared_statement_result, parse_close_prepared_statement_request,
    parse_create_prepared_statement_request, parse_create_prepared_statement_result,
    ticket_statement_query,
};
pub use table::table_stats;
pub use varint::encode_varint;
pub use wire::{decode_fields, encode_ld, get_bytes, get_str};

use vstd::prelude::*;

verus! {

/// Record-batch chunk size for LadybugDB's Arrow result collector.
pub const CHUNK_SIZE: usize = 2048;

} // verus!
