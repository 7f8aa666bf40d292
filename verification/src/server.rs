//! What the Flight server decides: which query a request stands for, what is
//! kept between requests, and how a request is answered or refused.

use crate::any;
use crate::any::decode_any;
use crate::cache;
use crate::cache::{PreparedCache, PreparedEntry};
use crate::demo;
use crate::demo::list_queries_text;
use crate::handle;
use crate::handle::fresh_handle;
use crate::query;
use crate::query::extract_query;
use crate::schema;
use crate::schema::encode_schema;
use crate::statement;
use crate::statement::{
    decode_ticket_handle, encode_create_prepared_statement_result,
    parse_close_prepared_statement_request, parse_create_prepared_statement_request,
    ticket_statement_query,
};
use crate::table;
use crate::table::{table_stats, Table};
use crate::text;
use crate::text::{decimal_text, has_text, join_texts, same_text, utf8_lossy};
use crate::varint;
use crate::wire;
use crate::wire::{message_bytes, message_text};
use vstd::prelude::*;
use vstd::slice::*;
use vstd::string::*;
use vstd::utf8::*;

verus! {

/// Why a request is refused, in the terms of gRPC.
#[derive(Clone, Copy, Debug, PartialEq, Eq, Structural)]
pub enum StatusCode {
    InvalidArgument,
    NotFound,
    Internal,
    Unimplemented,
}

/// The refusal of a request.
#[derive(Debug)]
pub struct Refusal {
    pub code: StatusCode,
    pub message: String,
}

impl Refusal {
    /// Whether the refusal has this code and this message.
    pub open spec fn says(self, code: StatusCode, message: Seq<char>) -> bool {
        self.code == code && self.message@ == message
    }
}

/// A refusal with this code and this message.
fn refuse(code: StatusCode, message: &str) -> (r: Refusal)
    ensures
        r.says(code, message@),
{
    Refusal { code, message: message.to_owned() }
}

/// What a Flight descriptor holds: the parts of a path, or a command.
#[derive(Debug)]
pub enum Descriptor {
    Path(Vec<String>),
    Command(Vec<u8>),
}

impl Descriptor {
    /// The bytes that are read as a command. The parts of a path are lines of
    /// a text.
    pub open spec fn payload(self) -> Seq<u8> {
        match self {
            Descriptor::Path(parts) => encode_utf8(text::joined(parts.deep_view(), "\n"@)),
            Descriptor::Command(command) => command@,
        }
    }
}

/// The query of the statement that was prepared under `handle`.
pub open spec fn prepared_query(held: cache::CacheState, handle: Seq<u8>) -> Option<Seq<char>> {
    let key = text::lossy_text(handle);
    if held.entries.contains_key(key) {
        Some(held.entries[key])
    } else {
        None
    }
}

/// Whether `blob` asks for a prepared statement.
pub open spec fn asks_prepared(blob: Seq<u8>) -> bool {
    text::contains(any::any_url(blob), "CommandPreparedStatementQuery"@)
}

/// The handle of the prepared statement that `blob` asks for.
pub open spec fn asked_handle(blob: Seq<u8>) -> Seq<u8> {
    wire::field_bytes(wire::message_fields(any::any_value(blob)), 1)
}

/// Whether `blob` is a statement query.
pub open spec fn asks_statement(blob: Seq<u8>) -> bool {
    text::contains(any::any_url(blob), "CommandStatementQuery"@) && any::any_value(blob).len() > 0
}

/// The query that a descriptor with the payload `blob` stands for, with the
/// handle under which it is prepared, if it is. `None` where the descriptor
/// asks for a statement that is not held.
pub open spec fn resolved(held: cache::CacheState, blob: Seq<u8>) -> Option<
    (Seq<char>, Option<Seq<u8>>),
> {
    if asks_prepared(blob) {
        match prepared_query(held, asked_handle(blob)) {
            Some(query) => Some((query, Some(asked_handle(blob)))),
            None => None,
        }
    } else if asks_statement(blob) {
        Some((wire::field_text(wire::message_fields(any::any_value(blob)), 1), None))
    } else {
        Some((query::query_of(blob), None))
    }
}

/// The query that a ticket stands for: that of the statement whose handle it
/// holds, or else the query in the ticket itself.
pub open spec fn ticket_query(held: cache::CacheState, ticket: Seq<u8>) -> Seq<char> {
    match prepared_query(held, statement::ticket_handle(ticket)) {
        Some(query) => query,
        None => query::query_of(ticket),
    }
}

/// The code with which a failure to run a query is reported.
pub open spec fn failure_code(message: Seq<char>) -> StatusCode {
    if text::contains(message, "empty query"@) {
        StatusCode::InvalidArgument
    } else {
        StatusCode::Internal
    }
}

/// The refusal for a query that could not be run.
pub fn bad_query(e: String) -> (r: Refusal)
    ensures
        r.says(failure_code(e@), e@),
{
    if has_text(e.as_str(), "empty query") {
        Refusal { code: StatusCode::InvalidArgument, message: e }
    } else {
        Refusal { code: StatusCode::Internal, message: e }
    }
}

/// What is to be done for an action.
#[derive(Debug)]
pub enum ActionStep {
    /// This query is to be run, and a statement prepared for it.
    Prepare(String),
    /// The tables are to be listed.
    ShowTables,
    /// This is the answer.
    Answer(Vec<u8>),
    /// The action is refused.
    Refuse(Refusal),
}

/// What came of a query that was run for its size: its schema, encoded, or the
/// reason why it cannot be, and the rows and the bytes of its result.
#[derive(Debug)]
pub struct Ran {
    pub schema: Result<Vec<u8>, String>,
    pub rows: usize,
    pub bytes: usize,
}

/// The answer to a request for the data of a query: the schema, encoded, the
/// ticket to fetch the data with, where to fetch it, and how much there is.
#[derive(Debug)]
pub struct FlightReply {
    pub schema: Vec<u8>,
    pub ticket: Vec<u8>,
    pub location: String,
    pub total_records: i64,
    pub total_bytes: i64,
}

/// What came of a query whose result is this table. `None` where the schema is
/// not known to be encoded.
pub fn describe(result: &Table) -> (r: Option<Ran>)
    ensures
        match r {
            Some(ran) => {
                &&& schema::is_surely_encoded(*result.schema)
                &&& ran.schema matches Ok(bytes) && bytes@ == schema::ipc_form(*result.schema)
                &&& table::is_stats(
                    *result.schema,
                    result.batches@,
                    (ran.rows, table::schema_fields(*result.schema).len() as usize, ran.bytes),
                )
            },
            None => !schema::is_surely_encoded(*result.schema),
        },
{
    let (rows, _, bytes) = table_stats(&result.schema, result.batches.as_slice());
    match encode_schema(&result.schema) {
        Some(schema) => Some(Ran { schema, rows, bytes }),
        None => None,
    }
}

/// The query that lists the tables.
pub const SHOW_TABLES: &'static str = "CALL show_tables() RETURN *";

/// Whether the refusal is that for a query that could not be run.
pub open spec fn refuses_run(r: Refusal, message: Seq<char>) -> bool {
    r.says(failure_code(message), message)
}

/// Whether the refusal is that for a schema that could not be encoded.
pub open spec fn refuses_schema(r: Refusal, message: Seq<char>) -> bool {
    r.says(StatusCode::Internal, "schema encode failed: "@ + message)
}

/// The encoded schema of a query that was run, or the refusal where it could
/// not be run or its schema could not be encoded.
pub fn finish_schema(outcome: Result<Result<Vec<u8>, String>, String>) -> (r: Result<
    Vec<u8>,
    Refusal,
>)
    ensures
        match outcome {
            Ok(Ok(schema)) => r matches Ok(s) && s@ == schema@,
            Ok(Err(message)) => r matches Err(e) && refuses_schema(e, message@),
            Err(message) => r matches Err(e) && refuses_run(e, message@),
        },
{
    match outcome {
        Ok(Ok(schema)) => Ok(schema),
        Ok(Err(message)) => Err(
            Refusal {
                code: StatusCode::Internal,
                message: "schema encode failed: ".to_owned().concat(message.as_str()),
            },
        ),
        Err(message) => Err(bad_query(message)),
    }
}

/// The answer to a request to list the tables: how many rows and columns the
/// list has, or why there is none.
pub fn show_tables_text(outcome: Result<(usize, usize), String>) -> (r: String)
    ensures
        r@ == (match outcome {
            Ok((rows, columns)) => "show_tables: "@ + text::decimal(rows as nat) + " rows x "@
                + text::decimal(columns as nat) + " cols"@,
            Err(e) => "show_tables failed: "@ + e@,
        }),
{
    match outcome {
        Ok((rows, columns)) => "show_tables: ".to_owned().concat(
            decimal_text(rows as u64).as_str(),
        ).concat(" rows x ").concat(decimal_text(columns as u64).as_str()).concat(" cols"),
        Err(e) => "show_tables failed: ".to_owned().concat(e.as_str()),
    }
}

/// The actions that the server offers, each with its description.
pub open spec fn offered_actions() -> Seq<(Seq<char>, Seq<char>)> {
    seq![
        ("CreatePreparedStatement"@, "Create a prepared Cypher statement"@),
        ("ClosePreparedStatement"@, "Close a prepared Cypher statement"@),
        ("show_tables"@, "CALL show_tables() schema introspection"@),
        ("list_queries"@, "List demo queries"@),
    ]
}

/// The actions that the server offers, each with its description.
pub fn list_actions() -> (r: Vec<(&'static str, &'static str)>)
    ensures
        r.deep_view() == offered_actions(),
{
    let r: Vec<(&'static str, &'static str)> =
        vec![
        ("CreatePreparedStatement", "Create a prepared Cypher statement"),
        ("ClosePreparedStatement", "Close a prepared Cypher statement"),
        ("show_tables", "CALL show_tables() schema introspection"),
        ("list_queries", "List demo queries"),
    ];
    assert(r.deep_view() =~= offered_actions());
    r
}

/// The refusal of a request of a kind that the server does not take.
pub fn unsupported(method: &str) -> (r: Refusal)
    ensures
        r.says(StatusCode::Unimplemented, method@ + " not supported"@),
{
    Refusal {
        code: StatusCode::Unimplemented,
        message: method.to_owned().concat(" not supported"),
    }
}

/// Where a database is kept.
#[derive(Clone, Copy, Debug, PartialEq, Eq, Structural)]
pub enum Storage {
    InMemory,
    OnDisk,
}

/// Where the database with this path is kept: in memory for ":memory:", else
/// on disk.
pub fn storage_for(db_path: &str) -> (r: Storage)
    ensures
        r is InMemory <==> db_path@ == ":memory:"@,
{
    if same_text(db_path, ":memory:") {
        Storage::InMemory
    } else {
        Storage::OnDisk
    }
}

/// The path under which a demo query is listed.
pub fn demo_path(label: &str) -> (r: Vec<String>)
    ensures
        r.deep_view() == seq!["demo"@, label@],
{
    let r: Vec<String> = vec!["demo".to_owned(), label.to_owned()];
    assert(r.deep_view() =~= seq!["demo"@, label@]);
    r
}

/// What the Flight server keeps between requests: the prepared statements, of
/// which it holds the query alone, and the location that it is reached at.
pub struct LadybugFlightServer {
    prepared: PreparedCache,
    location: String,
}

impl LadybugFlightServer {
    /// The prepared statements that are held.
    pub closed spec fn held(&self) -> cache::CacheState {
        self.prepared@
    }

    /// The location that the server is reached at.
    pub closed spec fn location(&self) -> Seq<char> {
        self.location@
    }

    /// No more statements are held than may be.
    pub open spec fn wf(&self) -> bool {
        self.held().wf()
    }

    /// A server at this location that holds no statement.
    pub fn new(location: String) -> (server: Self)
        ensures
            server.wf(),
            server.held().entries == Map::<Seq<char>, Seq<char>>::empty(),
            server.held().order == Seq::<Seq<char>>::empty(),
            server.location() == location@,
    {
        LadybugFlightServer { prepared: PreparedCache::new(), location }
    }

    /// Holds a query under the handle `key`, and gives the bytes of the handle.
    pub fn store_as(&mut self, key: String, query: String) -> (handle: Vec<u8>)
        requires
            old(self).wf(),
        ensures
            final(self).wf(),
            handle@ == encode_utf8(key@),
            final(self).held() == old(self).held().inserted(key@, query@),
            final(self).location() == old(self).location(),
    {
        let handle: Vec<u8> = slice_to_vec(key.as_str().as_bytes());
        self.prepared.insert(key, PreparedEntry { query });
        handle
    }

    /// Holds a query under a fresh handle, and gives the bytes of the handle.
    pub fn store(&mut self, query: String) -> (handle: Vec<u8>)
        requires
            old(self).wf(),
        ensures
            final(self).wf(),
            exists|key: Seq<char>|
                handle::is_drawn(key) && handle::is_handle(key) && handle@ == #[trigger] encode_utf8(
                    key,
                ) && final(self).held() == old(self).held().inserted(key, query@),
            final(self).location() == old(self).location(),
    {
        let key: String = fresh_handle();
        proof {
            handle::drawn_is_handle(key);
        }
        self.store_as(key, query)
    }

    /// The query of the statement that was prepared under `handle`.
    pub fn lookup(&self, handle: &[u8]) -> (r: Option<String>)
        ensures
            match r {
                Some(query) => prepared_query(self.held(), handle@) == Some(query@),
                None => prepared_query(self.held(), handle@) is None,
            },
    {
        let key: String = utf8_lossy(handle);
        match self.prepared.get(key.as_str()) {
            Some(entry) => Some(entry.query.clone()),
            None => None,
        }
    }

    /// The query that a descriptor stands for, with the handle under which it
    /// is prepared, if it is.
    pub fn resolve_descriptor_query(&self, descriptor: &Descriptor) -> (r: Result<
        (String, Option<Vec<u8>>),
        Refusal,
    >)
        ensures
            match resolved(self.held(), descriptor.payload()) {
                Some((query, Some(handle))) => r matches Ok((q, Some(h))) && q@ == query && h@
                    == handle,
                Some((query, None)) => r matches Ok((q, None)) && q@ == query,
                None => r matches Err(e) && e.says(
                    StatusCode::NotFound,
                    "unknown prepared statement handle"@,
                ),
            },
    {
        let blob: Vec<u8> = match descriptor {
            Descriptor::Path(parts) => slice_to_vec(join_texts(parts, "\n").as_str().as_bytes()),
            Descriptor::Command(command) => slice_to_vec(command.as_slice()),
        };
        let (url, value) = decode_any(blob.as_slice());
        if has_text(url.as_str(), "CommandPreparedStatementQuery") {
            let handle: Vec<u8> = message_bytes(value.as_slice(), 1);
            return match self.lookup(handle.as_slice()) {
                Some(query) => Ok((query, Some(handle))),
                None => Err(refuse(StatusCode::NotFound, "unknown prepared statement handle")),
            };
        }
        if has_text(url.as_str(), "CommandStatementQuery") && value.len() > 0 {
            return Ok((message_text(value.as_slice(), 1), None));
        }
        Ok((extract_query(blob.as_slice()), None))
    }

    /// The query that a ticket stands for. A blank query is refused.
    pub fn resolve_ticket(&self, ticket: &[u8]) -> (r: Result<String, Refusal>)
        ensures
            match r {
                Ok(query) => query@ == ticket_query(self.held(), ticket@) && !text::is_blank(query@),
                Err(e) => text::is_blank(ticket_query(self.held(), ticket@)) && e.says(
                    StatusCode::InvalidArgument,
                    "empty query"@,
                ),
            },
    {
        let handle: Vec<u8> = decode_ticket_handle(ticket);
        let query: String = match self.lookup(handle.as_slice()) {
            Some(query) => query,
            None => extract_query(ticket),
        };
        if query.as_str().trim().is_empty() {
            return Err(refuse(StatusCode::InvalidArgument, "empty query"));
        }
        Ok(query)
    }

    /// Takes an action. Closing a statement removes it, whether it was held or
    /// not.
    pub fn begin_action(&mut self, kind: &str, body: &[u8]) -> (r: ActionStep)
        requires
            old(self).wf(),
        ensures
            final(self).wf(),
            final(self).location() == old(self).location(),
            kind@ != "ClosePreparedStatement"@ ==> final(self).held() == old(self).held(),
            if kind@ == "CreatePreparedStatement"@ {
                let query = statement::requested_query(body@);
                if text::is_blank(query) {
                    r matches ActionStep::Refuse(e) && e.says(
                        StatusCode::InvalidArgument,
                        "empty query"@,
                    )
                } else {
                    r matches ActionStep::Prepare(q) && q@ == query
                }
            } else if kind@ == "ClosePreparedStatement"@ {
                &&& final(self).held() == old(self).held().removed(
                    text::lossy_text(statement::closed_handle(body@)),
                )
                &&& r matches ActionStep::Answer(answer) && answer@.len() == 0
            } else if kind@ == "list_queries"@ {
                r matches ActionStep::Answer(answer) && answer@ == encode_utf8(
                    text::joined(demo::query_lines(demo::demo_query_texts()), "\n"@),
                )
            } else if kind@ == "show_tables"@ || kind@ == "schema"@ {
                r is ShowTables
            } else {
                r matches ActionStep::Refuse(e) && e.says(
                    StatusCode::Unimplemented,
                    "unknown action: "@ + kind@,
                )
            },
    {
        if same_text(kind, "CreatePreparedStatement") {
            let query: String = parse_create_prepared_statement_request(body);
            if query.as_str().trim().is_empty() {
                return ActionStep::Refuse(refuse(StatusCode::InvalidArgument, "empty query"));
            }
            return ActionStep::Prepare(query);
        }
        if same_text(kind, "ClosePreparedStatement") {
            let handle: Vec<u8> = parse_close_prepared_statement_request(body);
            let key: String = utf8_lossy(handle.as_slice());
            self.prepared.remove(key.as_str());
            return ActionStep::Answer(Vec::new());
        }
        if same_text(kind, "list_queries") {
            return ActionStep::Answer(slice_to_vec(list_queries_text().as_str().as_bytes()));
        }
        if same_text(kind, "show_tables") || same_text(kind, "schema") {
            return ActionStep::ShowTables;
        }
        ActionStep::Refuse(
            Refusal {
                code: StatusCode::Unimplemented,
                message: "unknown action: ".to_owned().concat(kind),
            },
        )
    }

    /// Prepares a statement under the handle `key` once its query was run, and
    /// gives the answer to the action. Where the query could not be run, or
    /// its schema not encoded, nothing is kept.
    pub fn finish_prepare_as(
        &mut self,
        key: String,
        query: String,
        outcome: Result<Result<Vec<u8>, String>, String>,
    ) -> (r: Result<Vec<u8>, Refusal>)
        requires
            old(self).wf(),
        ensures
            final(self).wf(),
            final(self).location() == old(self).location(),
            match outcome {
                Ok(Ok(schema)) => {
                    &&& r matches Ok(answer) && answer@ == statement::create_result_bytes(
                        encode_utf8(key@),
                        schema@,
                    )
                    &&& final(self).held() == old(self).held().inserted(key@, query@)
                },
                Ok(Err(message)) => {
                    &&& r matches Err(e) && refuses_schema(e, message@)
                    &&& final(self).held() == old(self).held()
                },
                Err(message) => {
                    &&& r matches Err(e) && refuses_run(e, message@)
                    &&& final(self).held() == old(self).held()
                },
            },
    {
        match finish_schema(outcome) {
            Ok(schema) => {
                let handle: Vec<u8> = self.store_as(key, query);
                Ok(encode_create_prepared_statement_result(handle.as_slice(), schema.as_slice()))
            },
            Err(e) => Err(e),
        }
    }

    /// Prepares a statement under a fresh handle once its query was run, and
    /// gives the answer to the action.
    pub fn finish_prepare(
        &mut self,
        query: String,
        outcome: Result<Result<Vec<u8>, String>, String>,
    ) -> (r: Result<Vec<u8>, Refusal>)
        requires
            old(self).wf(),
        ensures
            final(self).wf(),
            final(self).location() == old(self).location(),
            match outcome {
                Ok(Ok(schema)) => exists|key: Seq<char>|
                    {
                        &&& handle::is_drawn(key)
                        &&& handle::is_handle(key)
                        &&& r matches Ok(answer) && answer@ == statement::create_result_bytes(
                            #[trigger] encode_utf8(key),
                            schema@,
                        )
                        &&& final(self).held() == old(self).held().inserted(key, query@)
                    },
                Ok(Err(message)) => {
                    &&& r matches Err(e) && refuses_schema(e, message@)
                    &&& final(self).held() == old(self).held()
                },
                Err(message) => {
                    &&& r matches Err(e) && refuses_run(e, message@)
                    &&& final(self).held() == old(self).held()
                },
            },
    {
        let key: String = fresh_handle();
        proof {
            handle::drawn_is_handle(key);
        }
        self.finish_prepare_as(key, query, outcome)
    }

    /// The answer to a request for the data of a query that is held under
    /// `handle`.
    pub fn flight_info_for(
        &self,
        schema: Result<Vec<u8>, String>,
        rows: i64,
        bytes: i64,
        handle: &[u8],
    ) -> (r: Result<FlightReply, Refusal>)
        ensures
            match schema {
                Ok(encoded) => {
                    &&& r matches Ok(reply)
                    &&& reply.schema@ == encoded@
                    &&& reply.ticket@ == wire::length_delimited(1, handle@)
                    &&& reply.location@ == self.location()
                    &&& reply.total_records == rows
                    &&& reply.total_bytes == bytes
                },
                Err(message) => r matches Err(e) && refuses_schema(e, message@),
            },
    {
        match finish_schema(Ok(schema)) {
            Ok(encoded) => Ok(
                FlightReply {
                    schema: encoded,
                    ticket: ticket_statement_query(handle),
                    location: self.location.clone(),
                    total_records: rows,
                    total_bytes: bytes,
                },
            ),
            Err(e) => Err(e),
        }
    }

    /// Answers a request for the data of a query once it was run. A query that
    /// is not prepared is first held under the handle `key`, also where its
    /// schema then turns out not to be encodable.
    pub fn finish_flight_info_as(
        &mut self,
        key: String,
        cypher: String,
        handle: Option<Vec<u8>>,
        outcome: Result<Ran, String>,
    ) -> (r: Result<FlightReply, Refusal>)
        requires
            old(self).wf(),
        ensures
            final(self).wf(),
            final(self).location() == old(self).location(),
            final(self).held() == (if outcome is Ok && handle is None {
                old(self).held().inserted(key@, cypher@)
            } else {
                old(self).held()
            }),
            match outcome {
                Ok(ran) => match ran.schema {
                    Ok(schema) => {
                        &&& r matches Ok(reply)
                        &&& reply.schema@ == schema@
                        &&& reply.ticket@ == wire::length_delimited(
                            1,
                            match handle {
                                Some(h) => h@,
                                None => encode_utf8(key@),
                            },
                        )
                        &&& reply.location@ == old(self).location()
                        &&& reply.total_records == ran.rows as i64
                        &&& reply.total_bytes == ran.bytes as i64
                    },
                    Err(message) => r matches Err(e) && refuses_schema(e, message@),
                },
                Err(message) => r matches Err(e) && refuses_run(e, message@),
            },
    {
        match outcome {
            Ok(ran) => {
                let held: Vec<u8> = match handle {
                    Some(h) => h,
                    None => self.store_as(key, cypher),
                };
                self.flight_info_for(
                    ran.schema,
                    #[verifier::truncate] (ran.rows as i64),
                    #[verifier::truncate] (ran.bytes as i64),
                    held.as_slice(),
                )
            },
            Err(message) => Err(bad_query(message)),
        }
    }

    /// Answers a request for the data of a query once it was run. A query that
    /// is not prepared is first held under a fresh handle, also where its
    /// schema then turns out not to be encodable.
    pub fn finish_flight_info(
        &mut self,
        cypher: String,
        handle: Option<Vec<u8>>,
        outcome: Result<Ran, String>,
    ) -> (r: Result<FlightReply, Refusal>)
        requires
            old(self).wf(),
        ensures
            final(self).wf(),
            final(self).location() == old(self).location(),
            match outcome {
                Ok(ran) => exists|key: Seq<char>|
                    {
                        &&& handle::is_drawn(key)
                        &&& handle::is_handle(key)
                        &&& final(self).held() == (if handle is None {
                            old(self).held().inserted(key, cypher@)
                        } else {
                            old(self).held()
                        })
                        &&& match ran.schema {
                            Ok(schema) => {
                                &&& r matches Ok(reply)
                                &&& reply.schema@ == schema@
                                &&& reply.ticket@ == wire::length_delimited(
                                    1,
                                    match handle {
                                        Some(h) => h@,
                                        None => #[trigger] encode_utf8(key),
                                    },
                                )
                                &&& reply.location@ == old(self).location()
                                &&& reply.total_records == ran.rows as i64
                                &&& reply.total_bytes == ran.bytes as i64
                            },
                            Err(message) => r matches Err(e) && refuses_schema(e, message@),
                        }
                    },
                Err(message) => {
                    &&& r matches Err(e) && refuses_run(e, message@)
                    &&& final(self).held() == old(self).held()
                },
            },
    {
        let key: String = fresh_handle();
        let ghost shown = encode_utf8(key@);
        proof {
            handle::drawn_is_handle(key);
        }
        self.finish_flight_info_as(key, cypher, handle, outcome)
    }
}

/// A statement that is prepared under a fresh handle is found again: by a
/// command that asks for it, and by the ticket that is given out for it.
pub proof fn prepared_statement_is_found(
    held: cache::CacheState,
    key: Seq<char>,
    query: Seq<char>,
)
    requires
        held.wf(),
        handle::is_handle(key),
        !held.order.contains(key),
    ensures
        ({
            let now = held.inserted(key, query);
            let bytes = encode_utf8(key);
            &&& prepared_query(now, bytes) == Some(query)
            &&& resolved(now, statement::prepared_query_bytes(bytes)) == Some((query, Some(bytes)))
            &&& ticket_query(now, wire::length_delimited(1, bytes)) == query
        }),
{
    let bytes = encode_utf8(key);
    cache::fresh_insert(held, key, query);
    lemma_handle_bytes(key);
    statement::prepared_query_round_trip(bytes);
    statement::ticket_round_trip(bytes);
}

/// Whether every statement that is held is held under a handle that the server
/// drew itself.
pub open spec fn holds_only_handles(held: cache::CacheState) -> bool {
    forall|key: Seq<char>| #[trigger] held.entries.contains_key(key) ==> handle::is_handle(key)
}

/// A server that draws its handles itself holds statements under such handles
/// only, whatever is prepared and closed.
pub proof fn only_handles_are_held(
    held: cache::CacheState,
    key: Seq<char>,
    query: Seq<char>,
    closed: Seq<char>,
)
    requires
        holds_only_handles(held),
        handle::is_handle(key),
    ensures
        holds_only_handles(held.inserted(key, query)),
        holds_only_handles(held.removed(closed)),
{
    let full = held.with_entry(key, query);
    assert forall|k: Seq<char>| #[trigger]
        held.inserted(key, query).entries.contains_key(k) implies handle::is_handle(k) by {
        cache::evicting_adds_nothing(full, k);
        if k != key {
            assert(held.entries.contains_key(k));
        }
    }
    assert forall|k: Seq<char>| #[trigger]
        held.removed(closed).entries.contains_key(k) implies handle::is_handle(k) by {
        assert(held.entries.contains_key(k));
    }
}

/// The ticket for a handle stands for the query that is held under it. This
/// holds of every handle where the server draws its handles itself, and of
/// those that are not empty and short enough to be read from the ticket where
/// it does not.
pub proof fn ticket_stands_for_held_query(held: cache::CacheState, handle: Seq<u8>)
    requires
        prepared_query(held, handle) is Some,
        0 < handle.len() <= wire::MAX_PAYLOAD || holds_only_handles(held),
    ensures
        ticket_query(held, wire::length_delimited(1, handle)) == prepared_query(held, handle)->0,
{
    if holds_only_handles(held) {
        lemma_drawn_handle(held, handle);
    }
    statement::ticket_round_trip(handle);
}

/// A handle under which a server holds a statement that holds statements under
/// handles of its own only: it is short.
proof fn lemma_drawn_handle(held: cache::CacheState, handle: Seq<u8>)
    requires
        prepared_query(held, handle) is Some,
        holds_only_handles(held),
    ensures
        handle.len() == 32,
{
    let key = text::lossy_text(handle);
    assert(held.entries.contains_key(key));
    lemma_handle_is_valid(handle);
    decode_utf8_encode_utf8(handle);
    handle::handle_is_ascii(key);
}

/// Bytes whose text is a handle are valid.
proof fn lemma_handle_is_valid(bytes: Seq<u8>)
    requires
        handle::is_handle(text::lossy_text(bytes)),
    ensures
        valid_utf8(bytes),
{
    let key = text::lossy_text(bytes);
    if !valid_utf8(bytes) {
        text::repair_is_shown(bytes);
        let i = choose|i: int| 0 <= i < key.len() && key[i] == '\u{fffd}';
        assert(handle::is_hex_digit(key[i]));
    }
}

/// A statement that was closed with a request for its handle is no longer
/// known, whether it was before or not, and every other handle is looked up as
/// before. This holds of every handle that is not empty where the server draws
/// its handles itself, and of those that are short enough to be read from the
/// request where it does not.
pub proof fn closed_statement_is_unknown(
    held: cache::CacheState,
    handle: Seq<char>,
    other: Seq<u8>,
)
    requires
        handle.len() > 0,
        encode_utf8(handle).len() <= wire::MAX_PAYLOAD || holds_only_handles(held) && encode_utf8(
            handle,
        ).len() <= u64::MAX,
    ensures
        ({
            let bytes = encode_utf8(handle);
            let body = wire::length_delimited(1, bytes);
            let now = held.removed(text::lossy_text(statement::closed_handle(body)));
            &&& prepared_query(now, bytes) is None
            &&& text::lossy_text(other) != handle ==> prepared_query(now, other)
                == prepared_query(held, other)
        }),
{
    let bytes = encode_utf8(handle);
    let body = wire::length_delimited(1, bytes);
    encode_utf8_valid_utf8(handle);
    encode_utf8_decode_utf8(handle);
    assert(bytes.len() > 0) by {
        if bytes.len() == 0 {
            assert(decode_utf8(bytes).len() == 0);
        }
    }
    if bytes.len() <= wire::MAX_PAYLOAD {
        statement::close_request_round_trip(bytes);
    } else {
        lemma_overlong_request(bytes);
        let key = text::lossy_text(body);
        assert(!held.entries.contains_key(key)) by {
            if held.entries.contains_key(key) {
                lemma_handle_is_valid(body);
                decode_utf8_encode_utf8(body);
                handle::handle_is_ascii(key);
            }
        }
        assert(held.entries.remove(key) =~= held.entries);
        assert(!held.entries.contains_key(handle)) by {
            if held.entries.contains_key(handle) {
                handle::handle_is_ascii(handle);
            }
        }
    }
}

/// A request for a handle that is too long to be read is taken as the handle
/// itself.
proof fn lemma_overlong_request(bytes: Seq<u8>)
    requires
        wire::MAX_PAYLOAD < bytes.len() <= u64::MAX,
    ensures
        statement::closed_handle(wire::length_delimited(1, bytes)) == wire::length_delimited(
            1,
            bytes,
        ),
        wire::length_delimited(1, bytes).len() > 32,
{
    let body = wire::length_delimited(1, bytes);
    wire::overlong_field_ends_message(1, bytes, Seq::empty());
    assert(body + Seq::<u8>::empty() =~= body);
    assert(wire::message_fields(body).len() == 0);
    assert(any::any_value(body).len() == 0);
    assert(wire::message_fields(any::any_value(body)).len() == 0);
}

/// A command that asks for a statement that was closed is refused.
pub proof fn closed_statement_is_refused(held: cache::CacheState, handle: Seq<char>)
    requires
        handle.len() > 0,
        wire::length_delimited(1, encode_utf8(handle)).len() <= wire::MAX_PAYLOAD,
    ensures
        ({
            let bytes = encode_utf8(handle);
            let body = wire::length_delimited(1, bytes);
            let now = held.removed(text::lossy_text(statement::closed_handle(body)));
            resolved(now, statement::prepared_query_bytes(bytes)) is None
        }),
{
    let bytes = encode_utf8(handle);
    closed_statement_is_unknown(held, handle, bytes);
    statement::prepared_query_round_trip(bytes);
}

/// Whether the bytes of a plain text do not happen to read as a wrapped
/// command.
pub open spec fn reads_as_text(query: Seq<char>) -> bool {
    let url = any::any_url(encode_utf8(query));
    &&& !text::contains(url, "CommandPreparedStatementQuery"@)
    &&& !text::contains(url, "CommandStatementQuery"@)
    &&& !text::contains(url, "ActionCreatePreparedStatementRequest"@)
}

/// A text that does not hold the name of a command reads as a text.
pub proof fn nameless_text_reads_as_text(query: Seq<char>)
    requires
        !text::contains(query, "CommandPreparedStatementQuery"@),
        !text::contains(query, "CommandStatementQuery"@),
        !text::contains(query, "ActionCreatePreparedStatementRequest"@),
    ensures
        reads_as_text(query),
{
    let url = any::any_url(encode_utf8(query));
    reveal_strlit("CommandPreparedStatementQuery");
    reveal_strlit("CommandStatementQuery");
    reveal_strlit("ActionCreatePreparedStatementRequest");
    if text::contains(url, "CommandPreparedStatementQuery"@) {
        any::url_names_are_in_text(query, "CommandPreparedStatementQuery"@);
    }
    if text::contains(url, "CommandStatementQuery"@) {
        any::url_names_are_in_text(query, "CommandStatementQuery"@);
    }
    if text::contains(url, "ActionCreatePreparedStatementRequest"@) {
        any::url_names_are_in_text(query, "ActionCreatePreparedStatementRequest"@);
    }
}

/// A descriptor whose command is a plain query stands for that query, trimmed.
pub proof fn plain_command_resolves(held: cache::CacheState, query: Seq<char>)
    requires
        reads_as_text(query),
        query::is_taken_plainly(query),
    ensures
        resolved(held, encode_utf8(query)) == Some((text::trimmed(query), None::<Seq<u8>>)),
{
    assert(query::wrapped_query(encode_utf8(query)) is None);
    query::plain_query_passes(query);
}

/// A descriptor whose command is a statement query stands for that query as it
/// was sent.
pub proof fn statement_command_resolves(held: cache::CacheState, query: Seq<char>)
    requires
        wire::length_delimited(1, encode_utf8(query)).len() <= wire::MAX_PAYLOAD,
    ensures
        resolved(held, statement::statement_query_bytes(query)) == Some(
            (query, None::<Seq<u8>>),
        ),
{
    assert(is_ascii_chars("CommandStatementQuery"@) && "CommandStatementQuery"@.len() <= 100) by {
        reveal_strlit("CommandStatementQuery");
    }
    statement::lemma_wrapped_text("CommandStatementQuery"@, query);
    statement::lemma_statement_is_not_prepared();
}

/// Sent as a plain command or prepared first, a query is run as the same text:
/// the one trimmed. This holds when the request is described and again when
/// its data is fetched with the ticket.
pub proof fn both_flows_run_the_same_query(
    held: cache::CacheState,
    key: Seq<char>,
    query: Seq<char>,
)
    requires
        held.wf(),
        handle::is_handle(key),
        !held.order.contains(key),
        query.len() > 0,
        wire::length_delimited(1, encode_utf8(query)).len() <= wire::MAX_PAYLOAD,
        reads_as_text(query),
        query::is_taken_plainly(query),
    ensures
        ({
            let bytes = encode_utf8(key);
            let ticket = wire::length_delimited(1, bytes);
            let run = text::trimmed(query);
            let asked = statement::requested_query(statement::create_request_bytes(query));
            let plain = held.inserted(key, run);
            let prepared = held.inserted(key, asked);
            &&& resolved(held, encode_utf8(query)) matches Some((q, None)) && text::trimmed(q)
                == run
            &&& text::trimmed(ticket_query(plain, ticket)) == run
            &&& text::trimmed(asked) == run
            &&& resolved(prepared, statement::prepared_query_bytes(bytes)) matches Some((q, Some(h)))
                && text::trimmed(q) == run && h == bytes
            &&& text::trimmed(ticket_query(prepared, ticket)) == run
        }),
{
    let run = text::trimmed(query);
    text::trimming_is_idempotent(query);
    plain_command_resolves(held, query);
    statement::create_request_round_trip(query);
    prepared_statement_is_found(held, key, run);
    prepared_statement_is_found(held, key, query);
}

/// Sent as a plain command or prepared first, whatever else the server holds at
/// each of the two, a query fetches the same table, where the database gives
/// one table for each text that it runs.
pub proof fn both_flows_fetch_the_same_table<T>(
    held: cache::CacheState,
    key: Seq<char>,
    other_held: cache::CacheState,
    other_key: Seq<char>,
    query: Seq<char>,
    table_of: spec_fn(Seq<char>) -> T,
)
    requires
        held.wf(),
        handle::is_handle(key),
        !held.order.contains(key),
        other_held.wf(),
        handle::is_handle(other_key),
        !other_held.order.contains(other_key),
        query.len() > 0,
        wire::length_delimited(1, encode_utf8(query)).len() <= wire::MAX_PAYLOAD,
        reads_as_text(query),
        query::is_taken_plainly(query),
    ensures
        ({
            let (sent, _) = resolved(held, encode_utf8(query))->0;
            let asked = statement::requested_query(statement::create_request_bytes(query));
            let ticket = wire::length_delimited(1, encode_utf8(key));
            let other_ticket = wire::length_delimited(1, encode_utf8(other_key));
            let plain = ticket_query(held.inserted(key, sent), ticket);
            let prepared = ticket_query(other_held.inserted(other_key, asked), other_ticket);
            table_of(text::trimmed(plain)) == table_of(text::trimmed(prepared))
        }),
{
    plain_command_resolves(held, query);
    both_flows_run_the_same_query(held, key, query);
    both_flows_run_the_same_query(other_held, other_key, query);
}

/// A ticket that holds no known handle and is a plain query stands for the
/// whole of that query, trimmed, however long it is.
pub proof fn plain_ticket_resolves(held: cache::CacheState, query: Seq<char>)
    requires
        prepared_query(held, statement::ticket_handle(encode_utf8(query))) is None,
        reads_as_text(query),
        query::is_taken_plainly(query),
    ensures
        ticket_query(held, encode_utf8(query)) == text::trimmed(query),
{
    assert(query::wrapped_query(encode_utf8(query)) is None);
    query::plain_query_passes(query);
}

/// A ticket that holds no known handle and is a statement query stands for the
/// whole of its query, trimmed.
pub proof fn statement_ticket_resolves(held: cache::CacheState, query: Seq<char>)
    requires
        prepared_query(
            held,
            statement::ticket_handle(statement::statement_query_bytes(query)),
        ) is None,
        !text::is_blank(query),
        wire::length_delimited(1, encode_utf8(query)).len() <= wire::MAX_PAYLOAD,
    ensures
        ticket_query(held, statement::statement_query_bytes(query)) == text::trimmed(query),
{
    statement::statement_query_round_trip(query);
}

/// A server that draws its handles itself takes no statement query for a
/// handle: the ticket stands for the whole of its query, trimmed.
pub proof fn drawn_handles_are_no_statement_queries(held: cache::CacheState, query: Seq<char>)
    requires
        holds_only_handles(held),
        !text::is_blank(query),
        wire::length_delimited(1, encode_utf8(query)).len() <= wire::MAX_PAYLOAD,
    ensures
        ticket_query(held, statement::statement_query_bytes(query)) == text::trimmed(query),
{
    let name = "CommandStatementQuery"@;
    let ticket = statement::statement_query_bytes(query);
    assert(is_ascii_chars(name) && name.len() == 21) by {
        reveal_strlit("CommandStatementQuery");
    }
    statement::lemma_url(name);
    statement::wrapped_ticket_holds_url(name, wire::length_delimited(1, encode_utf8(query)));
    any::lemma_type_url(name);
    if prepared_query(held, statement::ticket_handle(ticket)) is Some {
        lemma_drawn_handle(held, statement::ticket_handle(ticket));
    }
    statement_ticket_resolves(held, query);
}

/// A query of printable characters on one line, sent as a plain ticket or as a
/// plain command, stands for itself, trimmed, where it looks like a query and
/// is no handle that the server holds.
pub proof fn printable_query_resolves(held: cache::CacheState, query: Seq<char>)
    requires
        forall|i: int| 0 <= i < query.len() ==> ' ' <= #[trigger] query[i] <= '~',
        query::is_query_like(text::trimmed(query)),
        !held.entries.contains_key(query),
    ensures
        ticket_query(held, encode_utf8(query)) == text::trimmed(query),
        resolved(held, encode_utf8(query)) == Some((text::trimmed(query), None::<Seq<u8>>)),
{
    let bytes = encode_utf8(query);
    is_ascii_chars_encode_utf8(query);
    assert forall|i: int| 0 <= i < bytes.len() implies 24 <= #[trigger] bytes[i] < 128 by {
        assert(' ' <= query[i] <= '~');
    }
    statement::raw_handle_round_trip(bytes);
    encode_utf8_valid_utf8(query);
    encode_utf8_decode_utf8(query);
    assert(reads_as_text(query)) by {
        reveal_strlit("CommandPreparedStatementQuery");
        reveal_strlit("CommandStatementQuery");
        reveal_strlit("ActionCreatePreparedStatementRequest");
    }
    plain_ticket_resolves(held, query);
    plain_command_resolves(held, query);
}

/// The query that the server takes from a ticket that holds no known handle:
/// the whole text of the query that was sent, trimmed, or a refusal where
/// nothing is left of it.
pub proof fn unknown_ticket_is_taken_as_query(
    server: &LadybugFlightServer,
    ticket: &[u8],
    query: Seq<char>,
    r: Result<String, Refusal>,
)
    requires
        call_ensures(LadybugFlightServer::resolve_ticket, (server, ticket), r),
        prepared_query(server.held(), statement::ticket_handle(ticket@)) is None,
        ({
            ||| ticket@ == encode_utf8(query) && reads_as_text(query) && query::is_taken_plainly(
                query,
            )
            ||| {
                &&& ticket@ == statement::statement_query_bytes(query)
                &&& !text::is_blank(query)
                &&& wire::length_delimited(1, encode_utf8(query)).len() <= wire::MAX_PAYLOAD
            }
        }),
    ensures
        match r {
            Ok(q) => !text::is_blank(query) && q@ == text::trimmed(query),
            Err(e) => text::is_blank(query) && e.code == StatusCode::InvalidArgument && e.message@
                == "empty query"@,
        },
{
    text::trimming_is_idempotent(query);
    if ticket@ == encode_utf8(query) && reads_as_text(query) && query::is_taken_plainly(query) {
        plain_ticket_resolves(server.held(), query);
    } else {
        statement_ticket_resolves(server.held(), query);
    }
}

/// The query that the server takes from a ticket for a statement that it holds:
/// the one that was prepared, as it was sent, unless it is blank. The ticket
/// may be one that the server gave out, or the handle itself where the server
/// drew it.
pub proof fn known_ticket_is_taken_as_statement(
    server: &LadybugFlightServer,
    handle: Seq<char>,
    ticket: &[u8],
    r: Result<String, Refusal>,
)
    requires
        call_ensures(LadybugFlightServer::resolve_ticket, (server, ticket), r),
        server.held().entries.contains_key(handle),
        ({
            ||| {
                &&& ticket@ == wire::length_delimited(1, encode_utf8(handle))
                &&& handle.len() > 0
                &&& encode_utf8(handle).len() <= wire::MAX_PAYLOAD
            }
            ||| ticket@ == encode_utf8(handle) && handle::is_handle(handle)
        }),
    ensures
        match r {
            Ok(q) => q@ == server.held().entries[handle] && !text::is_blank(q@),
            Err(e) => text::is_blank(server.held().entries[handle]) && e.code
                == StatusCode::InvalidArgument && e.message@ == "empty query"@,
        },
{
    let bytes = encode_utf8(handle);
    lookup_goes_by_the_handle(server.held(), handle);
    if ticket@ == bytes && handle::is_handle(handle) {
        lemma_raw_handle(handle);
    } else {
        assert(bytes.len() > 0) by {
            if bytes.len() == 0 {
                encode_utf8_decode_utf8(handle);
                assert(decode_utf8(bytes).len() == 0);
            }
        }
        statement::ticket_round_trip(bytes);
    }
}

/// The bytes of a drawn handle are taken as the handle.
proof fn lemma_raw_handle(handle: Seq<char>)
    requires
        handle::is_handle(handle),
    ensures
        statement::ticket_handle(encode_utf8(handle)) == encode_utf8(handle),
        statement::closed_handle(encode_utf8(handle)) == encode_utf8(handle),
{
    let bytes = encode_utf8(handle);
    handle::handle_is_ascii(handle);
    is_ascii_chars_encode_utf8(handle);
    assert forall|i: int| 0 <= i < bytes.len() implies 24 <= #[trigger] bytes[i] < 128 by {
        assert(handle::is_hex_digit(handle[i]));
    }
    statement::raw_handle_round_trip(bytes);
}

/// A statement is found under its handle, whatever text that is, and under no
/// other.
pub proof fn lookup_goes_by_the_handle(held: cache::CacheState, handle: Seq<char>)
    ensures
        held.entries.contains_key(handle) ==> prepared_query(held, encode_utf8(handle)) == Some(
            held.entries[handle],
        ),
        !held.entries.contains_key(handle) ==> prepared_query(held, encode_utf8(handle)) is None,
{
    encode_utf8_valid_utf8(handle);
    encode_utf8_decode_utf8(handle);
}

/// What the server looks up under the bytes of a handle is the query that is
/// held under it, whole, and nothing where none is.
pub proof fn lookup_finds_the_query(
    server: &LadybugFlightServer,
    handle: Seq<char>,
    bytes: &[u8],
    r: Option<String>,
)
    requires
        call_ensures(LadybugFlightServer::lookup, (server, bytes), r),
        bytes@ == encode_utf8(handle),
    ensures
        r is Some <==> server.held().entries.contains_key(handle),
        r matches Some(query) ==> query@ == server.held().entries[handle],
{
    lookup_goes_by_the_handle(server.held(), handle);
}

/// What the server takes from a descriptor: of a statement query the query as
/// it was sent, of a plain command the whole text trimmed, of a command for a
/// prepared statement its query as it was sent, with the handle. A command for
/// a statement that is not held is refused.
pub proof fn descriptor_stands_for_query(
    server: &LadybugFlightServer,
    descriptor: &Descriptor,
    query: Seq<char>,
    handle: Seq<char>,
    r: Result<(String, Option<Vec<u8>>), Refusal>,
)
    requires
        call_ensures(
            LadybugFlightServer::resolve_descriptor_query,
            (server, descriptor),
            r,
        ),
    ensures
        ({
            &&& descriptor matches Descriptor::Command(command)
            &&& command@ == statement::statement_query_bytes(query)
            &&& wire::length_delimited(1, encode_utf8(query)).len() <= wire::MAX_PAYLOAD
        }) ==> (r matches Ok((q, None)) && q@ == query),
        ({
            &&& descriptor matches Descriptor::Command(command)
            &&& command@ == encode_utf8(query)
            &&& reads_as_text(query)
            &&& query::is_taken_plainly(query)
        }) ==> (r matches Ok((q, None)) && q@ == text::trimmed(query)),
        ({
            &&& descriptor matches Descriptor::Command(command)
            &&& command@ == statement::prepared_query_bytes(encode_utf8(handle))
            &&& wire::length_delimited(1, encode_utf8(handle)).len() <= wire::MAX_PAYLOAD
        }) ==> if server.held().entries.contains_key(handle) {
            r matches Ok((q, Some(h))) && q@ == server.held().entries[handle] && h@ == encode_utf8(
                handle,
            )
        } else {
            r matches Err(e) && e.code == StatusCode::NotFound && e.message@
                == "unknown prepared statement handle"@
        },
{
    let held = server.held();
    if wire::length_delimited(1, encode_utf8(query)).len() <= wire::MAX_PAYLOAD {
        statement_command_resolves(held, query);
    }
    if reads_as_text(query) && query::is_taken_plainly(query) {
        plain_command_resolves(held, query);
    }
    if wire::length_delimited(1, encode_utf8(handle)).len() <= wire::MAX_PAYLOAD {
        statement::prepared_query_round_trip(encode_utf8(handle));
        lookup_goes_by_the_handle(held, handle);
    }
}

/// A descriptor with a path stands for the text of its parts, a line each, as
/// if that had been sent as a command.
pub proof fn path_is_taken_as_lines(
    server: &LadybugFlightServer,
    path: &Descriptor,
    command: &Descriptor,
    parts: Vec<String>,
    bytes: Vec<u8>,
    r: Result<(String, Option<Vec<u8>>), Refusal>,
    other: Result<(String, Option<Vec<u8>>), Refusal>,
)
    requires
        *path == Descriptor::Path(parts),
        *command == Descriptor::Command(bytes),
        bytes@ == encode_utf8(text::joined(parts.deep_view(), "\n"@)),
        call_ensures(LadybugFlightServer::resolve_descriptor_query, (server, path), r),
        call_ensures(LadybugFlightServer::resolve_descriptor_query, (server, command), other),
    ensures
        r is Ok <==> other is Ok,
        r matches Ok((q, _)) ==> (other matches Ok((p, _)) && q@ == p@),
{
}

/// A request to prepare a statement, wrapped or bare, lets the query be run
/// that was sent, whole and untrimmed. A blank one is refused. Nothing that is
/// held changes.
pub proof fn create_action_prepares_the_query(
    server: &mut LadybugFlightServer,
    kind: &str,
    body: &[u8],
    query: Seq<char>,
    r: ActionStep,
)
    requires
        call_ensures(LadybugFlightServer::begin_action, (server, kind, body), r),
        kind@ == "CreatePreparedStatement"@,
        query.len() > 0,
        wire::length_delimited(1, encode_utf8(query)).len() <= wire::MAX_PAYLOAD,
        body@ == statement::create_request_bytes(query) || body@ == wire::length_delimited(
            1,
            encode_utf8(query),
        ),
    ensures
        final(server).held() == old(server).held(),
        if text::is_blank(query) {
            r matches ActionStep::Refuse(e) && e.code == StatusCode::InvalidArgument && e.message@
                == "empty query"@
        } else {
            r matches ActionStep::Prepare(q) && q@ == query
        },
{
    assert(statement::requested_query(body@) == query) by {
        statement::create_request_round_trip(query);
        statement::bare_request_round_trip(query);
    }
    lemma_action_names();
}

/// A request to close a statement, bare or wrapped, makes the server forget the
/// statement under the whole of its handle, and no other. The answer is empty.
pub proof fn close_action_forgets_the_statement(
    server: &mut LadybugFlightServer,
    kind: &str,
    body: &[u8],
    handle: Seq<u8>,
    other: Seq<u8>,
    r: ActionStep,
)
    requires
        call_ensures(LadybugFlightServer::begin_action, (server, kind, body), r),
        kind@ == "ClosePreparedStatement"@,
        0 < handle.len(),
        wire::length_delimited(1, handle).len() <= wire::MAX_PAYLOAD,
        body@ == wire::length_delimited(1, handle) || body@ == any::any_bytes(
            "ActionClosePreparedStatementRequest"@,
            wire::length_delimited(1, handle),
        ),
    ensures
        r matches ActionStep::Answer(answer) && answer@.len() == 0,
        prepared_query(final(server).held(), handle) is None,
        text::lossy_text(other) != text::lossy_text(handle) ==> prepared_query(
            final(server).held(),
            other,
        ) == prepared_query(old(server).held(), other),
{
    assert(statement::closed_handle(body@) == handle) by {
        assert(handle.len() <= wire::length_delimited(1, handle).len());
        statement::close_request_round_trip(handle);
        statement::close_request_is_read(handle);
    }
    lemma_action_names();
}

/// A drawn handle that is sent alone to close its statement makes the server
/// forget that statement.
pub proof fn raw_close_action_forgets_the_statement(
    server: &mut LadybugFlightServer,
    kind: &str,
    body: &[u8],
    handle: Seq<char>,
    r: ActionStep,
)
    requires
        call_ensures(LadybugFlightServer::begin_action, (server, kind, body), r),
        kind@ == "ClosePreparedStatement"@,
        handle::is_handle(handle),
        body@ == encode_utf8(handle),
    ensures
        r matches ActionStep::Answer(answer) && answer@.len() == 0,
        !final(server).held().entries.contains_key(handle),
        final(server).held().entries == old(server).held().entries.remove(handle),
{
    lemma_raw_handle(handle);
    encode_utf8_valid_utf8(handle);
    encode_utf8_decode_utf8(handle);
    lemma_action_names();
}

/// The names of the actions differ.
proof fn lemma_action_names()
    ensures
        "CreatePreparedStatement"@.len() == 23,
        "ClosePreparedStatement"@.len() == 22,
        "list_queries"@.len() == 12,
        "show_tables"@.len() == 11,
        "schema"@.len() == 6,
{
    reveal_strlit("CreatePreparedStatement");
    reveal_strlit("ClosePreparedStatement");
    reveal_strlit("list_queries");
    reveal_strlit("show_tables");
    reveal_strlit("schema");
}

/// Every other action changes nothing that is held. The tables are shown under
/// two names, the queries are listed under one, and any further name is refused
/// with that name.
pub proof fn other_actions_change_nothing(
    server: &mut LadybugFlightServer,
    kind: &str,
    body: &[u8],
    r: ActionStep,
    list: String,
)
    requires
        call_ensures(LadybugFlightServer::begin_action, (server, kind, body), r),
        call_ensures(list_queries_text, (), list),
        kind@ != "CreatePreparedStatement"@,
        kind@ != "ClosePreparedStatement"@,
    ensures
        final(server).held() == old(server).held(),
        kind@ == "show_tables"@ || kind@ == "schema"@ ==> r is ShowTables,
        kind@ == "list_queries"@ ==> (r matches ActionStep::Answer(answer) && answer@
            == encode_utf8(list@)),
        kind@ != "show_tables"@ && kind@ != "schema"@ && kind@ != "list_queries"@ ==> (
        r matches ActionStep::Refuse(e) && e.code == StatusCode::Unimplemented && e.message@
            == "unknown action: "@ + kind@),
{
    lemma_action_names();
}

/// Once a query was run that is to be prepared, the answer holds the handle and
/// the schema, and the server finds the query under that handle: by a command
/// that asks for it, and by a ticket for it. Where it could not be run, nothing
/// is held that was not before.
pub proof fn finished_statement_is_found(
    server: &mut LadybugFlightServer,
    after: &LadybugFlightServer,
    key: String,
    query: String,
    outcome: Result<Result<Vec<u8>, String>, String>,
    r: Result<Vec<u8>, Refusal>,
)
    requires
        old(server).wf(),
        call_ensures(
            LadybugFlightServer::finish_prepare_as,
            (server, key, query, outcome),
            r,
        ),
        *after == *final(server),
        handle::is_handle(key@),
        !old(server).held().order.contains(key@),
    ensures
        after.location() == old(server).location(),
        match outcome {
            Ok(Ok(schema)) => {
                let bytes = encode_utf8(key@);
                &&& r matches Ok(answer) && answer@ == statement::create_result_bytes(
                    bytes,
                    schema@,
                )
                &&& after.held().entries.contains_key(key@) && after.held().entries[key@] == query@
                &&& resolved(after.held(), statement::prepared_query_bytes(bytes)) == Some(
                    (query@, Some(bytes)),
                )
                &&& ticket_query(after.held(), wire::length_delimited(1, bytes)) == query@
            },
            Ok(Err(message)) => {
                &&& after.held() == old(server).held()
                &&& r matches Err(e) && e.code == StatusCode::Internal && e.message@
                    == "schema encode failed: "@ + message@
            },
            Err(message) => {
                &&& after.held() == old(server).held()
                &&& r matches Err(e) && e.message@ == message@ && e.code == (if text::contains(
                    message@,
                    "empty query"@,
                ) {
                    StatusCode::InvalidArgument
                } else {
                    StatusCode::Internal
                })
            },
        },
{
    prepared_statement_is_found(old(server).held(), key@, query@);
    cache::fresh_insert(old(server).held(), key@, query@);
}

/// The answer to a request for the data of a query holds its schema, its size
/// and the location of the server, and a ticket with which the data is fetched:
/// the server takes from it the query that was run. A prepared statement keeps
/// its handle, and nothing more is held for it.
pub proof fn described_query_is_fetched(
    server: &mut LadybugFlightServer,
    after: &LadybugFlightServer,
    key: String,
    cypher: String,
    handle: Option<Vec<u8>>,
    outcome: Result<Ran, String>,
    r: Result<FlightReply, Refusal>,
)
    requires
        old(server).wf(),
        call_ensures(
            LadybugFlightServer::finish_flight_info_as,
            (server, key, cypher, handle, outcome),
            r,
        ),
        *after == *final(server),
        handle::is_handle(key@),
        !old(server).held().order.contains(key@),
        handle matches Some(h) ==> 0 < h@.len() <= wire::MAX_PAYLOAD && prepared_query(
            old(server).held(),
            h@,
        ) == Some(cypher@),
    ensures
        outcome is Err || handle is Some ==> after.held() == old(server).held(),
        outcome is Ok && handle is None ==> after.held().entries.contains_key(key@)
            && after.held().entries[key@] == cypher@,
        outcome matches Err(message) ==> (r matches Err(e) && e.message@ == message@),
        outcome matches Ok(ran) ==> match ran.schema {
            Ok(schema) => {
                &&& r matches Ok(reply)
                &&& reply.schema@ == schema@
                &&& reply.location@ == old(server).location()
                &&& reply.total_records == ran.rows as i64
                &&& reply.total_bytes == ran.bytes as i64
                &&& ticket_query(after.held(), reply.ticket@) == cypher@
                &&& prepared_query(after.held(), statement::ticket_handle(reply.ticket@)) == Some(
                    cypher@,
                )
            },
            Err(message) => r matches Err(e) && e.code == StatusCode::Internal && e.message@
                == "schema encode failed: "@ + message@,
        },
{
    match handle {
        Some(h) => {
            statement::ticket_round_trip(h@);
        },
        None => {
            prepared_statement_is_found(old(server).held(), key@, cypher@);
            lemma_handle_bytes(key@);
            statement::ticket_round_trip(encode_utf8(key@));
        },
    }
}

/// What came of a query that was run for its size holds the rows of all batches
/// of its table, and the bytes of all of them.
pub proof fn ran_counts_every_batch(result: &Table, ran: Ran)
    requires
        call_ensures(describe, (result,), Some(ran)),
    ensures
        ran.schema matches Ok(bytes) && bytes@ == schema::ipc_form(*result.schema),
        exists|rows: Seq<nat>, bytes: Seq<nat>, row_sum: nat, byte_sum: nat|
            {
                &&& rows.len() == result.batches.len() && bytes.len() == result.batches.len()
                &&& forall|i: int|
                    0 <= i < result.batches.len() ==> #[trigger] rows[i] == table::row_count(
                        result.batches[i],
                    )
                &&& forall|i: int|
                    0 <= i < result.batches.len() ==> bytes[i] <= usize::MAX
                        && table::is_memory_size(result.batches[i], #[trigger] bytes[i] as usize)
                &&& #[trigger] table::adds_up(rows, row_sum) && ran.rows == row_sum % (
                usize::MAX as nat + 1)
                &&& #[trigger] table::adds_up(bytes, byte_sum) && ran.bytes == byte_sum % (
                usize::MAX as nat + 1)
            },
{
    table::stats_count_every_batch(result.batches@, ran.rows, ran.bytes);
}

/// A query that is held under a drawn handle is looked up with the bytes of
/// that handle, unless the same handle was drawn before and is still known.
pub proof fn stored_query_is_found(
    server: &mut LadybugFlightServer,
    after: &LadybugFlightServer,
    query: String,
    handle: Vec<u8>,
    bytes: &[u8],
    found: Option<String>,
)
    requires
        old(server).wf(),
        call_ensures(LadybugFlightServer::store, (server, query), handle),
        *after == *final(server),
        bytes@ == handle@,
        call_ensures(LadybugFlightServer::lookup, (after, bytes), found),
        !old(server).held().order.contains(text::lossy_text(handle@)),
    ensures
        handle@.len() == 32,
        handle::is_drawn(text::lossy_text(handle@)),
        after.location() == old(server).location(),
        found matches Some(q) && q@ == query@,
{
    let key = choose|key: Seq<char>|
        handle::is_drawn(key) && handle::is_handle(key) && handle@ == #[trigger] encode_utf8(key)
            && final(server).held() == old(server).held().inserted(key, query@);
    lemma_handle_bytes(key);
    prepared_statement_is_found(old(server).held(), key, query@);
}

/// The client reads from the answer to its request the handle that was drawn
/// and the schema, and the server finds the query under that handle, unless the
/// same handle was drawn before and is still known.
pub proof fn answered_statement_is_found(
    server: &mut LadybugFlightServer,
    after: &LadybugFlightServer,
    query: String,
    schema: Vec<u8>,
    answer: Vec<u8>,
    body: &[u8],
    read: (Vec<u8>, Vec<u8>),
)
    requires
        old(server).wf(),
        call_ensures(
            LadybugFlightServer::finish_prepare,
            (server, query, Ok::<Result<Vec<u8>, String>, String>(Ok(schema))),
            Ok::<Vec<u8>, Refusal>(answer),
        ),
        *after == *final(server),
        body@ == answer@,
        call_ensures(statement::parse_create_prepared_statement_result, (body,), read),
        schema@.len() + 100 <= wire::MAX_PAYLOAD,
        !old(server).held().order.contains(text::lossy_text(read.0@)),
    ensures
        read.0@.len() == 32,
        handle::is_drawn(text::lossy_text(read.0@)),
        read.1@ == schema@,
        prepared_query(after.held(), read.0@) == Some(query@),
        resolved(after.held(), statement::prepared_query_bytes(read.0@)) == Some(
            (query@, Some(read.0@)),
        ),
        ticket_query(after.held(), wire::length_delimited(1, read.0@)) == query@,
{
    let key = choose|key: Seq<char>|
        {
            &&& handle::is_drawn(key)
            &&& handle::is_handle(key)
            &&& answer@ == statement::create_result_bytes(#[trigger] encode_utf8(key), schema@)
            &&& final(server).held() == old(server).held().inserted(key, query@)
        };
    lemma_handle_bytes(key);
    assert(statement::create_result_fields(encode_utf8(key), schema@).len() <= wire::MAX_PAYLOAD)
        by {
        assert(varint::varint_bytes(10).len() == 1);
        assert(varint::varint_bytes(18).len() == 1);
        assert(varint::varint_bytes(32).len() == 1);
        varint::varint_round_trip(schema@.len() as u64, Seq::empty());
    }
    statement::create_result_round_trip(encode_utf8(key), schema@);
    prepared_statement_is_found(old(server).held(), key, query@);
}

/// The ticket in the answer to a request for the data of a query fetches that
/// query: the server takes from it the query that was run, unless the handle
/// that was drawn for it was drawn before and is still known.
pub proof fn answered_query_is_fetched(
    server: &mut LadybugFlightServer,
    after: &LadybugFlightServer,
    cypher: String,
    ran: Ran,
    schema: Vec<u8>,
    reply: FlightReply,
    ticket: &[u8],
    fetched: Result<String, Refusal>,
)
    requires
        old(server).wf(),
        ran.schema == Ok::<Vec<u8>, String>(schema),
        call_ensures(
            LadybugFlightServer::finish_flight_info,
            (server, cypher, None::<Vec<u8>>, Ok::<Ran, String>(ran)),
            Ok::<FlightReply, Refusal>(reply),
        ),
        *after == *final(server),
        ticket@ == reply.ticket@,
        call_ensures(LadybugFlightServer::resolve_ticket, (after, ticket), fetched),
        !text::is_blank(cypher@),
        !old(server).held().order.contains(
            text::lossy_text(statement::ticket_handle(reply.ticket@)),
        ),
    ensures
        reply.schema@ == schema@,
        reply.location@ == old(server).location(),
        reply.total_records == ran.rows as i64,
        reply.total_bytes == ran.bytes as i64,
        handle::is_drawn(text::lossy_text(statement::ticket_handle(reply.ticket@))),
        fetched matches Ok(q) && q@ == cypher@,
{
    let key = choose|key: Seq<char>|
        {
            &&& handle::is_drawn(key)
            &&& handle::is_handle(key)
            &&& reply.ticket@ == wire::length_delimited(1, #[trigger] encode_utf8(key))
            &&& final(server).held() == old(server).held().inserted(key, cypher@)
        };
    lemma_handle_bytes(key);
    statement::ticket_round_trip(encode_utf8(key));
    prepared_statement_is_found(old(server).held(), key, cypher@);
}

/// The data of a prepared statement is fetched with the same handle, and
/// nothing more is held for it.
pub proof fn prepared_data_is_fetched_by_handle(
    server: &mut LadybugFlightServer,
    cypher: String,
    handle: Vec<u8>,
    ran: Ran,
    r: Result<FlightReply, Refusal>,
)
    requires
        call_ensures(
            LadybugFlightServer::finish_flight_info,
            (server, cypher, Some(handle), Ok::<Ran, String>(ran)),
            r,
        ),
        0 < handle@.len() <= wire::MAX_PAYLOAD,
    ensures
        final(server).held() == old(server).held(),
        final(server).location() == old(server).location(),
        r is Ok <==> ran.schema is Ok,
        r matches Ok(reply) ==> statement::ticket_handle(reply.ticket@) == handle@
            && reply.total_records == ran.rows as i64 && reply.total_bytes == ran.bytes as i64
            && reply.location@ == old(server).location(),
{
    statement::ticket_round_trip(handle@);
}

/// A failure to run a query is told as it is. It is the sender's fault where it
/// speaks of an empty query, and the server's where it does not.
pub proof fn failures_are_told(e: String, refusal: Refusal)
    requires
        call_ensures(bad_query, (e,), refusal),
    ensures
        refusal.message@ == e@,
        refusal.code == StatusCode::InvalidArgument <==> text::contains(e@, "empty query"@),
        refusal.code == StatusCode::Internal <==> !text::contains(e@, "empty query"@),
        e@ == "empty query"@ ==> refusal.code == StatusCode::InvalidArgument,
{
    assert(e@.subrange(0, e@.len() as int) =~= e@);
    if e@ == "empty query"@ {
        assert(text::occurs_at(e@, "empty query"@, 0));
    }
}

/// The list of the tables is told with its numbers of rows and columns, in that
/// order, and a failure with its reason. A request of an unknown kind is
/// refused by its name.
pub proof fn answers_are_worded(
    rows: usize,
    columns: usize,
    shown: String,
    e: String,
    failed: String,
    method: &str,
    refusal: Refusal,
)
    requires
        call_ensures(show_tables_text, (Ok::<(usize, usize), String>((rows, columns)),), shown),
        call_ensures(show_tables_text, (Err::<(usize, usize), String>(e),), failed),
        call_ensures(unsupported, (method,), refusal),
    ensures
        shown@ == "show_tables: "@ + text::decimal(rows as nat) + " rows x "@ + text::decimal(
            columns as nat,
        ) + " cols"@,
        failed@ == "show_tables failed: "@ + e@,
        refusal.code == StatusCode::Unimplemented,
        refusal.message@ == method@ + " not supported"@,
        SHOW_TABLES@ == "CALL show_tables() RETURN *"@,
{
}

/// The actions on offer are those that are taken: each of them is answered, and
/// none is refused as unknown.
pub proof fn offered_actions_are_taken(
    server: &mut LadybugFlightServer,
    kind: &str,
    body: &[u8],
    r: ActionStep,
    offered: Vec<(&'static str, &'static str)>,
    i: int,
)
    requires
        call_ensures(LadybugFlightServer::begin_action, (server, kind, body), r),
        call_ensures(list_actions, (), offered),
        0 <= i < offered.len(),
        kind@ == offered[i].0@,
    ensures
        offered.len() == 4,
        !(r matches ActionStep::Refuse(e) && e.code == StatusCode::Unimplemented),
{
    let shown = offered.deep_view();
    assert(shown.len() == offered.len());
    assert(shown[i] == offered[i].deep_view());
    lemma_action_names();
}

/// The bytes of a handle: they are few, and their text is the handle.
proof fn lemma_handle_bytes(key: Seq<char>)
    requires
        handle::is_handle(key),
    ensures
        encode_utf8(key).len() == 32,
        text::lossy_text(encode_utf8(key)) == key,
        wire::length_delimited(1, encode_utf8(key)).len() <= wire::MAX_PAYLOAD,
{
    handle::handle_is_ascii(key);
    encode_utf8_valid_utf8(key);
    encode_utf8_decode_utf8(key);
    assert(varint::varint_bytes(10).len() == 1);
    assert(varint::varint_bytes(32).len() == 1);
}

/// Every demo query, sent as a plain command or as a plain ticket, is run as it
/// stands, where it is no handle that the server holds.
pub proof fn demo_queries_are_run(held: cache::CacheState, i: int)
    requires
        0 <= i < 6,
        !held.entries.contains_key(demo::demo_query_texts()[i].1),
    ensures
        ({
            let query = demo::demo_query_texts()[i].1;
            &&& resolved(held, encode_utf8(query)) == Some((query, None::<Seq<u8>>))
            &&& ticket_query(held, encode_utf8(query)) == query
        }),
{
    let query = demo::demo_query_texts()[i].1;
    if i == 0 {
        reveal_strlit("MATCH (u:User) RETURN u.name, u.age ORDER BY u.id");
    } else if i == 1 {
        reveal_strlit(
            "MATCH (a:User)-[f:Follows]->(b:User) RETURN a.name AS follower, b.name AS followed, f.since ORDER BY f.since",
        );
    } else if i == 2 {
        reveal_strlit(
            "MATCH (u:User)-[:LivesIn]->(c:City) RETURN u.name, c.name AS city ORDER BY u.name",
        );
    } else if i == 3 {
        reveal_strlit(
            "MATCH (u:User)-[:LivesIn]->(c:City {name: 'San Francisco'}) RETURN u.name, u.age",
        );
    } else if i == 4 {
        reveal_strlit(
            "MATCH (a:User {name: 'Alice'})-[:Follows]->(b:User)-[:Follows]->(c:User) RETURN a.name AS start, b.name AS via, c.name AS reached",
        );
    } else {
        reveal_strlit(
            "MATCH (a:User)-[:Follows]->(b:User), (a)-[:LivesIn]->(c:City)<-[:LivesIn]-(b) RETURN a.name AS user, b.name AS follows, c.name AS shared_city",
        );
    }
    lemma_match_query(held, query);
}

/// A printable text that begins with "MATCH" stands for itself.
proof fn lemma_match_query(held: cache::CacheState, query: Seq<char>)
    requires
        query.len() > 6,
        query[0] == 'M' && query[1] == 'A' && query[2] == 'T' && query[3] == 'C' && query[4] == 'H',
        query[5] == ' ',
        query.last() != ' ',
        forall|i: int| 0 <= i < query.len() ==> ' ' <= #[trigger] query[i] <= '~',
        !held.entries.contains_key(query),
    ensures
        resolved(held, encode_utf8(query)) == Some((query, None::<Seq<u8>>)),
        ticket_query(held, encode_utf8(query)) == query,
{
    assert(text::trimmed(query) == query) by {
        text::white_space_is_trimmed(Seq::empty(), query, Seq::empty());
        assert(Seq::<char>::empty() + query + Seq::<char>::empty() =~= query);
    }
    assert(query::is_query_like(query)) by {
        reveal_strlit("MATCH");
        assert(query::uppercased(query.subrange(0, 5)) =~= "MATCH"@);
        assert(query::is_word(query, 0, 5));
    }
    printable_query_resolves(held, query);
}

/// A server starts without statements, at the location that it is given.
pub proof fn new_server_holds_nothing(location: String, server: LadybugFlightServer, key: Seq<char>)
    requires
        call_ensures(LadybugFlightServer::new, (location,), server),
    ensures
        server.wf(),
        !server.held().entries.contains_key(key),
        server.held().order.len() == 0,
        server.location() == location@,
{
}

/// A query that is held under a fresh key is looked up with the bytes of that
/// key, which the server hands out.
pub proof fn query_is_held_under_its_key(
    server: &mut LadybugFlightServer,
    after: &LadybugFlightServer,
    key: String,
    query: String,
    handle: Vec<u8>,
    bytes: &[u8],
    found: Option<String>,
)
    requires
        old(server).wf(),
        !old(server).held().order.contains(key@),
        call_ensures(LadybugFlightServer::store_as, (server, key, query), handle),
        *after == *final(server),
        bytes@ == handle@,
        call_ensures(LadybugFlightServer::lookup, (after, bytes), found),
    ensures
        handle@ == encode_utf8(key@),
        after.location() == old(server).location(),
        found matches Some(q) && q@ == query@,
{
    cache::fresh_insert(old(server).held(), key@, query@);
    lookup_goes_by_the_handle(after.held(), key@);
}

/// A database is kept in memory under one path alone. A demo query is listed
/// under its label, behind "demo".
pub proof fn paths_are_told_apart(
    db_path: &str,
    storage: Storage,
    label: &str,
    path: Vec<String>,
)
    requires
        call_ensures(storage_for, (db_path,), storage),
        call_ensures(demo_path, (label,), path),
    ensures
        db_path@ == ":memory:"@ ==> storage == Storage::InMemory,
        db_path@ != ":memory:"@ ==> storage == Storage::OnDisk,
        path.len() == 2,
        path[0]@ == "demo"@,
        path[1]@ == label@,
{
    let shown = path.deep_view();
    assert(shown.len() == path.len());
    assert(shown[0] == path[0]@);
    assert(shown[1] == path[1]@);
}

/// The actions that the server offers, in full and in order, each with its
/// description.
pub proof fn actions_in_full(offered: Vec<(&'static str, &'static str)>)
    requires
        call_ensures(list_actions, (), offered),
    ensures
        offered.len() == 4,
        offered[0].0@ == "CreatePreparedStatement"@,
        offered[0].1@ == "Create a prepared Cypher statement"@,
        offered[1].0@ == "ClosePreparedStatement"@,
        offered[1].1@ == "Close a prepared Cypher statement"@,
        offered[2].0@ == "show_tables"@,
        offered[2].1@ == "CALL show_tables() schema introspection"@,
        offered[3].0@ == "list_queries"@,
        offered[3].1@ == "List demo queries"@,
{
    let shown = offered.deep_view();
    assert(shown.len() == offered.len());
    assert(shown[0] == offered[0].deep_view());
    assert(shown[1] == offered[1].deep_view());
    assert(shown[2] == offered[2].deep_view());
    assert(shown[3] == offered[3].deep_view());
}

/// The answer to a request for the data of a query, from what is known of it.
pub proof fn reply_holds_what_is_known(
    server: &LadybugFlightServer,
    schema: Result<Vec<u8>, String>,
    rows: i64,
    bytes: i64,
    handle: &[u8],
    r: Result<FlightReply, Refusal>,
)
    requires
        call_ensures(
            LadybugFlightServer::flight_info_for,
            (server, schema, rows, bytes, handle),
            r,
        ),
    ensures
        r is Ok <==> schema is Ok,
        r matches Ok(reply) ==> (schema matches Ok(encoded) && reply.schema@ == encoded@)
            && reply.total_records == rows && reply.total_bytes == bytes && reply.location@
            == server.location() && (0 < handle@.len() <= wire::MAX_PAYLOAD
            ==> statement::ticket_handle(reply.ticket@) == handle@),
        r matches Err(e) ==> e.code == StatusCode::Internal && (schema matches Err(message)
            && e.message@ == "schema encode failed: "@ + message@),
{
    if 0 < handle@.len() <= wire::MAX_PAYLOAD {
        statement::ticket_round_trip(handle@);
    }
}

/// The schema of a query that was run is handed on as it was encoded, and a
/// failure is told by its reason.
pub proof fn schema_is_handed_on(
    outcome: Result<Result<Vec<u8>, String>, String>,
    r: Result<Vec<u8>, Refusal>,
)
    requires
        call_ensures(finish_schema, (outcome,), r),
    ensures
        outcome matches Ok(Ok(schema)) ==> (r matches Ok(s) && s@ == schema@),
        outcome matches Ok(Err(message)) ==> (r matches Err(e) && e.code == StatusCode::Internal
            && e.message@ == "schema encode failed: "@ + message@),
        outcome matches Err(message) ==> (r matches Err(e) && e.message@ == message@ && (e.code
            == StatusCode::InvalidArgument <==> text::contains(message@, "empty query"@))),
{
}

/// A text that looks like a query and does not hold the name of a command, sent
/// as a plain command or as a plain ticket that is no known handle, stands for
/// the whole of itself, trimmed.
pub proof fn nameless_query_resolves(held: cache::CacheState, query: Seq<char>)
    requires
        query::is_query_like(text::trimmed(query)),
        !text::contains(query, "CommandPreparedStatementQuery"@),
        !text::contains(query, "CommandStatementQuery"@),
        !text::contains(query, "ActionCreatePreparedStatementRequest"@),
    ensures
        resolved(held, encode_utf8(query)) == Some((text::trimmed(query), None::<Seq<u8>>)),
        prepared_query(held, statement::ticket_handle(encode_utf8(query))) is None ==> ticket_query(
            held,
            encode_utf8(query),
        ) == text::trimmed(query),
{
    nameless_text_reads_as_text(query);
    plain_command_resolves(held, query);
    if prepared_query(held, statement::ticket_handle(encode_utf8(query))) is None {
        plain_ticket_resolves(held, query);
    }
}

} // verus!
