//! What a Flight client sends, step by step, to fetch the result of a query.

use crate::cache;
use crate::handle;
use crate::query;
use crate::server;
use crate::statement;
use crate::statement::{
    action_close_prepared_statement_request, action_create_prepared_statement_request,
    any_command_prepared_statement_query, parse_create_prepared_statement_result,
};
use crate::text;
use crate::text::without_prefix;
use crate::wire;
use vstd::prelude::*;
use vstd::slice::*;
use vstd::string::*;
use vstd::utf8::*;

verus! {

/// The URI under which the HTTP/2 transport reaches `uri`: "http://" stands in
/// the place of "grpc://", and any other URI stays as it is.
pub open spec fn transport_uri(uri: Seq<char>) -> Seq<char> {
    if "grpc://"@.is_prefix_of(uri) {
        "http://"@ + uri.skip("grpc://"@.len() as int)
    } else {
        uri
    }
}

/// The URI under which the HTTP/2 transport reaches `uri`.
pub fn normalize_uri(uri: &str) -> (r: String)
    ensures
        r@ == transport_uri(uri@),
{
    match without_prefix(uri, "grpc://") {
        Some(rest) => "http://".to_owned().concat(rest),
        None => uri.to_owned(),
    }
}

/// Normalizing a URI twice is the same as once.
pub proof fn normalizing_is_idempotent(uri: Seq<char>)
    ensures
        transport_uri(transport_uri(uri)) == transport_uri(uri),
{
    reveal_strlit("grpc://");
    reveal_strlit("http://");
    if "grpc://"@.is_prefix_of(uri) {
        let next = transport_uri(uri);
        assert(next[0] == 'h');
        assert("grpc://"@[0] == 'g');
        assert(!"grpc://"@.is_prefix_of(next));
    }
}

/// What a client sends next.
#[derive(Debug)]
pub enum Call {
    /// An action of this kind with this body.
    DoAction(String, Vec<u8>),
    /// A request to describe the data of this command.
    GetFlightInfo(Vec<u8>),
    /// A request for the data of this ticket.
    DoGet(Vec<u8>),
    /// Nothing: all data was fetched.
    Done,
}

/// How far the fetching of a result has come.
#[derive(Clone, Copy, Debug, PartialEq, Eq, Structural)]
pub enum Stage {
    /// A statement is to be prepared.
    Create,
    /// The data is to be described.
    Describe,
    /// The data is to be fetched.
    Fetch,
    /// The statement is to be closed.
    Close,
    /// Nothing is left to do.
    Done,
}

/// The fetching of the result of a query, as a plain command or as a prepared
/// statement.
pub struct FlightQuery {
    cypher: String,
    handle: Option<Vec<u8>>,
    tickets: Vec<Option<Vec<u8>>>,
    fetched: usize,
    stage: Stage,
}

impl FlightQuery {
    /// The text of the query.
    pub closed spec fn cypher(&self) -> Seq<char> {
        self.cypher@
    }

    /// The handle of the statement that was prepared, if one was.
    pub closed spec fn handle(&self) -> Option<Seq<u8>> {
        match self.handle {
            Some(handle) => Some(handle@),
            None => None,
        }
    }

    /// The tickets of the endpoints at which the data is.
    pub closed spec fn tickets(&self) -> Seq<Option<Vec<u8>>> {
        self.tickets@
    }

    /// From how many endpoints the data was fetched.
    pub closed spec fn fetched(&self) -> nat {
        self.fetched as nat
    }

    /// How far the fetching has come.
    pub closed spec fn stage(&self) -> Stage {
        self.stage
    }

    /// Data is to be fetched while endpoints are left, and a statement is
    /// closed only where one was prepared.
    pub open spec fn wf(&self) -> bool {
        &&& self.stage() is Fetch ==> self.fetched() < self.tickets().len()
        &&& self.stage() is Close ==> self.handle() is Some
    }

    /// The stage once all data was fetched.
    pub open spec fn stage_behind(&self) -> Stage {
        if self.handle() is Some {
            Stage::Close
        } else {
            Stage::Done
        }
    }

    /// Fetches the result of a query as a plain command.
    pub fn plain(cypher: &str) -> (r: Self)
        ensures
            r.wf(),
            r.cypher() == cypher@,
            r.handle() is None,
            r.tickets().len() == 0,
            r.fetched() == 0,
            r.stage() == Stage::Describe,
    {
        FlightQuery {
            cypher: cypher.to_owned(),
            handle: None,
            tickets: Vec::new(),
            fetched: 0,
            stage: Stage::Describe,
        }
    }

    /// Fetches the result of a query as a prepared statement.
    pub fn prepared(cypher: &str) -> (r: Self)
        ensures
            r.wf(),
            r.cypher() == cypher@,
            r.handle() is None,
            r.tickets().len() == 0,
            r.fetched() == 0,
            r.stage() == Stage::Create,
    {
        FlightQuery {
            cypher: cypher.to_owned(),
            handle: None,
            tickets: Vec::new(),
            fetched: 0,
            stage: Stage::Create,
        }
    }

    /// What to send next. An endpoint without a ticket is an error.
    pub fn call(&self) -> (r: Result<Call, String>)
        requires
            self.wf(),
        ensures
            match self.stage() {
                Stage::Create => r matches Ok(Call::DoAction(kind, body)) && kind@
                    == "CreatePreparedStatement"@ && body@ == statement::create_request_bytes(
                    self.cypher(),
                ),
                Stage::Describe => r matches Ok(Call::GetFlightInfo(command)) && command@ == (
                match self.handle() {
                    Some(handle) => statement::prepared_query_bytes(handle),
                    None => encode_utf8(self.cypher()),
                }),
                Stage::Fetch => match self.tickets()[self.fetched() as int] {
                    Some(ticket) => r matches Ok(Call::DoGet(t)) && t@ == ticket@,
                    None => r matches Err(e) && e@ == "flight endpoint missing ticket"@,
                },
                Stage::Close => r matches Ok(Call::DoAction(kind, body)) && kind@
                    == "ClosePreparedStatement"@ && body@ == wire::length_delimited(
                    1,
                    self.handle()->0,
                ),
                Stage::Done => r matches Ok(Call::Done),
            },
    {
        match self.stage {
            Stage::Create => Ok(
                Call::DoAction(
                    "CreatePreparedStatement".to_owned(),
                    action_create_prepared_statement_request(self.cypher.as_str()),
                ),
            ),
            Stage::Describe => match &self.handle {
                Some(handle) => Ok(
                    Call::GetFlightInfo(any_command_prepared_statement_query(handle.as_slice())),
                ),
                None => Ok(Call::GetFlightInfo(slice_to_vec(self.cypher.as_str().as_bytes()))),
            },
            Stage::Fetch => match &self.tickets[self.fetched] {
                Some(ticket) => Ok(Call::DoGet(slice_to_vec(ticket.as_slice()))),
                None => Err("flight endpoint missing ticket".to_owned()),
            },
            Stage::Close => match &self.handle {
                Some(handle) => Ok(
                    Call::DoAction(
                        "ClosePreparedStatement".to_owned(),
                        action_close_prepared_statement_request(handle.as_slice()),
                    ),
                ),
                None => Ok(Call::Done),
            },
            Stage::Done => Ok(Call::Done),
        }
    }

    /// Takes the results of the action that prepares a statement: the first of
    /// them holds the handle.
    pub fn created(&mut self, bodies: &Vec<Vec<u8>>) -> (r: Result<(), String>)
        requires
            old(self).wf(),
            old(self).stage() == Stage::Create,
        ensures
            final(self).wf(),
            final(self).cypher() == old(self).cypher(),
            final(self).tickets() == old(self).tickets(),
            final(self).fetched() == old(self).fetched(),
            if bodies.len() == 0 {
                &&& r matches Err(e) && e@ == "CreatePreparedStatement returned no result"@
                &&& final(self).handle() == old(self).handle()
                &&& final(self).stage() == Stage::Create
            } else {
                let message = statement::result_message(bodies[0]@);
                let handle = wire::field_bytes(wire::message_fields(message), 1);
                if handle.len() == 0 {
                    &&& r matches Err(e) && e@ == "CreatePreparedStatement returned empty handle"@
                    &&& final(self).handle() == old(self).handle()
                    &&& final(self).stage() == Stage::Create
                } else {
                    &&& r is Ok
                    &&& final(self).handle() == Some(handle)
                    &&& final(self).stage() == Stage::Describe
                }
            },
    {
        if bodies.len() == 0 {
            return Err("CreatePreparedStatement returned no result".to_owned());
        }
        let (handle, _) = parse_create_prepared_statement_result(bodies[0].as_slice());
        if handle.len() == 0 {
            return Err("CreatePreparedStatement returned empty handle".to_owned());
        }
        self.handle = Some(handle);
        self.stage = Stage::Describe;
        Ok(())
    }

    /// Takes the description of the data: the ticket of each endpoint.
    pub fn described(&mut self, tickets: Vec<Option<Vec<u8>>>)
        requires
            old(self).wf(),
            old(self).stage() == Stage::Describe,
        ensures
            final(self).wf(),
            final(self).cypher() == old(self).cypher(),
            final(self).handle() == old(self).handle(),
            final(self).tickets() == tickets@,
            final(self).fetched() == 0,
            final(self).stage() == (if tickets.len() > 0 {
                Stage::Fetch
            } else {
                old(self).stage_behind()
            }),
    {
        self.tickets = tickets;
        self.fetched = 0;
        self.stage =
        if self.tickets.len() > 0 {
            Stage::Fetch
        } else if self.handle.is_some() {
            Stage::Close
        } else {
            Stage::Done
        };
    }

    /// Takes note that the data of an endpoint was fetched.
    pub fn received(&mut self)
        requires
            old(self).wf(),
            old(self).stage() == Stage::Fetch,
        ensures
            final(self).wf(),
            final(self).cypher() == old(self).cypher(),
            final(self).handle() == old(self).handle(),
            final(self).tickets() == old(self).tickets(),
            final(self).fetched() == old(self).fetched() + 1,
            final(self).stage() == (if old(self).fetched() + 1 < old(self).tickets().len() {
                Stage::Fetch
            } else {
                old(self).stage_behind()
            }),
    {
        assert(self.fetched < self.tickets.len());
        self.fetched = self.fetched + 1;
        if self.fetched == self.tickets.len() {
            self.stage =
            if self.handle.is_some() {
                Stage::Close
            } else {
                Stage::Done
            };
        }
    }

    /// Takes note that the statement was closed.
    pub fn closed(&mut self)
        requires
            old(self).wf(),
            old(self).stage() == Stage::Close,
        ensures
            final(self).wf(),
            final(self).cypher() == old(self).cypher(),
            final(self).handle() == old(self).handle(),
            final(self).tickets() == old(self).tickets(),
            final(self).fetched() == old(self).fetched(),
            final(self).stage() == Stage::Done,
    {
        self.stage = Stage::Done;
    }
}

/// Client and server understand each other when a statement is prepared, used
/// and closed. The server reads the query that the client asks to prepare; the
/// client reads the handle that the server answers with; what the client then
/// sends with that handle, and the ticket that the server gives out for it,
/// stand for the query; and once the client closed the statement, the server
/// knows it no more.
pub proof fn prepared_flow_is_understood(
    held: cache::CacheState,
    key: Seq<char>,
    query: Seq<char>,
    schema: Seq<u8>,
)
    requires
        held.wf(),
        handle::is_handle(key),
        !held.order.contains(key),
        query.len() > 0,
        wire::length_delimited(1, encode_utf8(query)).len() <= wire::MAX_PAYLOAD,
        statement::create_result_fields(encode_utf8(key), schema).len() <= wire::MAX_PAYLOAD,
    ensures
        ({
            let bytes = encode_utf8(key);
            let asked = statement::requested_query(statement::create_request_bytes(query));
            let answer = statement::create_result_bytes(bytes, schema);
            let told = wire::field_bytes(
                wire::message_fields(statement::result_message(answer)),
                1,
            );
            let during = held.inserted(key, asked);
            let body = wire::length_delimited(1, told);
            let behind = during.removed(text::lossy_text(statement::closed_handle(body)));
            &&& asked == query
            &&& told == bytes && told.len() > 0
            &&& server::resolved(during, statement::prepared_query_bytes(told)) == Some(
                (query, Some(told)),
            )
            &&& server::ticket_query(during, wire::length_delimited(1, told)) == query
            &&& server::resolved(behind, statement::prepared_query_bytes(told)) is None
        }),
{
    let during = held.inserted(key, query);
    handle::handle_is_ascii(key);
    statement::create_request_round_trip(query);
    statement::create_result_round_trip(encode_utf8(key), schema);
    server::prepared_statement_is_found(held, key, query);
    server::closed_statement_is_refused(during, key);
}

/// A URI that begins with "grpc://" is reached under the same URI with "http://"
/// in its place, whatever follows, and any other URI under itself.
pub proof fn uri_keeps_what_follows(uri: &str, rest: Seq<char>, r: String)
    requires
        call_ensures(normalize_uri, (uri,), r),
    ensures
        uri@ == "grpc://"@ + rest ==> r@ == "http://"@ + rest,
        !("grpc://"@.is_prefix_of(uri@)) ==> r@ == uri@,
        uri@ == "http://"@ + rest ==> r@ == uri@,
{
    reveal_strlit("grpc://");
    reveal_strlit("http://");
    if uri@ == "grpc://"@ + rest {
        assert("grpc://"@ =~= uri@.subrange(0, 7));
        assert(uri@.skip(7) =~= rest);
    }
    if uri@ == "http://"@ + rest {
        assert(uri@[0] == 'h');
        assert("grpc://"@[0] == 'g');
    }
}

/// A query that is sent as a plain command is asked for at once, with its text
/// as the command, and the server takes from it the same text, trimmed.
pub proof fn plain_query_is_understood(
    cypher: &str,
    fetch: FlightQuery,
    sent: &FlightQuery,
    r: Result<Call, String>,
    held: cache::CacheState,
)
    requires
        call_ensures(FlightQuery::plain, (cypher,), fetch),
        *sent == fetch,
        call_ensures(FlightQuery::call, (sent,), r),
    ensures
        r matches Ok(Call::GetFlightInfo(command)) && command@ == encode_utf8(cypher@),
        server::reads_as_text(cypher@) && query::is_taken_plainly(cypher@) ==> (
        r matches Ok(Call::GetFlightInfo(command)) && server::resolved(held, command@) == Some(
            (text::trimmed(cypher@), None::<Seq<u8>>),
        )),
{
    if server::reads_as_text(cypher@) && query::is_taken_plainly(cypher@) {
        server::plain_command_resolves(held, cypher@);
    }
}

/// A query that is to be prepared is first sent in a request to prepare it, from
/// which the server reads the same text.
pub proof fn prepared_query_is_understood(
    cypher: &str,
    fetch: FlightQuery,
    sent: &FlightQuery,
    r: Result<Call, String>,
)
    requires
        call_ensures(FlightQuery::prepared, (cypher,), fetch),
        *sent == fetch,
        call_ensures(FlightQuery::call, (sent,), r),
        cypher@.len() > 0,
        wire::length_delimited(1, encode_utf8(cypher@)).len() <= wire::MAX_PAYLOAD,
    ensures
        r matches Ok(Call::DoAction(kind, body)) && kind@ == "CreatePreparedStatement"@
            && statement::requested_query(body@) == cypher@,
{
    statement::create_request_round_trip(cypher@);
}

/// The handle that the server answers a request to prepare a statement with is
/// the one that the client then asks for the data with.
pub proof fn answered_handle_is_used(
    fetch: &mut FlightQuery,
    bodies: &Vec<Vec<u8>>,
    taken: Result<(), String>,
    next: &FlightQuery,
    r: Result<Call, String>,
    handle: Seq<u8>,
    schema: Seq<u8>,
)
    requires
        old(fetch).stage() == Stage::Create,
        call_ensures(FlightQuery::created, (fetch, bodies), taken),
        *next == *final(fetch),
        call_ensures(FlightQuery::call, (next,), r),
        bodies.len() > 0,
        bodies[0]@ == statement::create_result_bytes(handle, schema),
        statement::create_result_fields(handle, schema).len() <= wire::MAX_PAYLOAD,
    ensures
        handle.len() > 0 ==> taken is Ok && next.handle() == Some(handle) && (
        r matches Ok(Call::GetFlightInfo(command)) && command@ == statement::prepared_query_bytes(
            handle,
        )),
        handle.len() == 0 ==> (taken matches Err(e) && e@
            == "CreatePreparedStatement returned empty handle"@),
{
    statement::create_result_round_trip(handle, schema);
}

/// An answer without a result, or with one from which no handle is read, is an
/// error, and the statement is still to be prepared.
pub proof fn answer_without_handle_is_refused(
    fetch: &mut FlightQuery,
    bodies: &Vec<Vec<u8>>,
    taken: Result<(), String>,
    body: &[u8],
    read: (Vec<u8>, Vec<u8>),
)
    requires
        old(fetch).stage() == Stage::Create,
        call_ensures(FlightQuery::created, (fetch, bodies), taken),
        bodies.len() > 0 ==> body@ == bodies[0]@,
        call_ensures(parse_create_prepared_statement_result, (body,), read),
    ensures
        bodies.len() == 0 ==> (taken matches Err(e) && e@
            == "CreatePreparedStatement returned no result"@),
        bodies.len() > 0 && read.0@.len() == 0 ==> (taken matches Err(e) && e@
            == "CreatePreparedStatement returned empty handle"@),
        bodies.len() > 0 && read.0@.len() > 0 ==> taken is Ok && final(fetch).handle() == Some(
            read.0@,
        ) && final(fetch).stage() == Stage::Describe,
        taken is Err ==> final(fetch).stage() == Stage::Create,
{
}

/// The endpoints are fetched one after the other, from the first on, with the
/// ticket of each; then a statement that was prepared is closed with its handle,
/// and nothing is left to do where none was.
pub proof fn every_endpoint_is_fetched(
    fetch: &mut FlightQuery,
    next: &FlightQuery,
    r: Result<Call, String>,
)
    requires
        old(fetch).wf(),
        old(fetch).stage() == Stage::Fetch,
        call_ensures(FlightQuery::received, (fetch,), ()),
        *next == *final(fetch),
        call_ensures(FlightQuery::call, (next,), r),
    ensures
        next.fetched() == old(fetch).fetched() + 1,
        next.tickets() == old(fetch).tickets(),
        next.fetched() < next.tickets().len() ==> match next.tickets()[next.fetched() as int] {
            Some(ticket) => r matches Ok(Call::DoGet(t)) && t@ == ticket@,
            None => r matches Err(e) && e@ == "flight endpoint missing ticket"@,
        },
        next.fetched() == next.tickets().len() ==> match old(fetch).handle() {
            Some(handle) => r matches Ok(Call::DoAction(kind, body)) && kind@
                == "ClosePreparedStatement"@ && (0 < handle.len() <= wire::MAX_PAYLOAD
                ==> statement::closed_handle(body@) == handle),
            None => r matches Ok(Call::Done),
        },
{
    if let Some(handle) = old(fetch).handle() {
        if 0 < handle.len() <= wire::MAX_PAYLOAD {
            statement::close_request_round_trip(handle);
        }
    }
}

/// Once the data is described, the first endpoint is fetched, where there is
/// one; and once a statement is closed, nothing is left to do.
pub proof fn described_data_is_fetched(
    fetch: &mut FlightQuery,
    tickets: Vec<Option<Vec<u8>>>,
    next: &FlightQuery,
    r: Result<Call, String>,
)
    requires
        old(fetch).stage() == Stage::Describe,
        call_ensures(FlightQuery::described, (fetch, tickets), ()),
        *next == *final(fetch),
        call_ensures(FlightQuery::call, (next,), r),
    ensures
        next.tickets() == tickets@ && next.fetched() == 0,
        tickets.len() > 0 ==> match tickets[0] {
            Some(ticket) => r matches Ok(Call::DoGet(t)) && t@ == ticket@,
            None => r matches Err(e) && e@ == "flight endpoint missing ticket"@,
        },
        tickets.len() == 0 && old(fetch).handle() is None ==> (r matches Ok(Call::Done)),
        tickets.len() == 0 && old(fetch).handle() is Some ==> (r matches Ok(
            Call::DoAction(kind, _),
        ) && kind@ == "ClosePreparedStatement"@),
{
}

/// Once a statement is closed, nothing is left to do.
pub proof fn closed_fetch_is_done(
    fetch: &mut FlightQuery,
    next: &FlightQuery,
    r: Result<Call, String>,
)
    requires
        old(fetch).stage() == Stage::Close,
        call_ensures(FlightQuery::closed, (fetch,), ()),
        *next == *final(fetch),
        call_ensures(FlightQuery::call, (next,), r),
    ensures
        r matches Ok(Call::Done),
{
}

} // verus!
