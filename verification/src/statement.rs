//! The Flight SQL messages of the prepared-statement handshake: how they are
//! built and how they are read.

use crate::any;
use crate::any::{decode_any, encode_any};
use crate::query;
use crate::query::extract_query;
use crate::text;
use crate::text::has_text;
use crate::varint;
use crate::wire;
use crate::wire::{decode_fields, encode_ld, message_bytes, message_text};
use vstd::prelude::*;
use vstd::slice::*;
use vstd::string::*;
use vstd::utf8::*;

verus! {

/// `CommandStatementQuery`, wrapped, with this query.
pub open spec fn statement_query_bytes(query: Seq<char>) -> Seq<u8> {
    any::any_bytes("CommandStatementQuery"@, wire::length_delimited(1, encode_utf8(query)))
}

/// `CommandPreparedStatementQuery`, wrapped, with this handle.
pub open spec fn prepared_query_bytes(handle: Seq<u8>) -> Seq<u8> {
    any::any_bytes("CommandPreparedStatementQuery"@, wire::length_delimited(1, handle))
}

/// `ActionCreatePreparedStatementRequest`, wrapped, with this query.
pub open spec fn create_request_bytes(query: Seq<char>) -> Seq<u8> {
    any::any_bytes(
        "ActionCreatePreparedStatementRequest"@,
        wire::length_delimited(1, encode_utf8(query)),
    )
}

/// The fields of `ActionCreatePreparedStatementResult`.
pub open spec fn create_result_fields(handle: Seq<u8>, schema: Seq<u8>) -> Seq<u8> {
    wire::length_delimited(1, handle) + wire::length_delimited(2, schema)
}

/// `ActionCreatePreparedStatementResult`, wrapped, with this handle and this
/// schema.
pub open spec fn create_result_bytes(handle: Seq<u8>, schema: Seq<u8>) -> Seq<u8> {
    any::any_bytes("ActionCreatePreparedStatementResult"@, create_result_fields(handle, schema))
}

/// The payload of the first length-delimited field of number 1 that is not
/// empty.
pub open spec fn first_handle(fields: Seq<wire::WireField>) -> Option<Seq<u8>>
    decreases fields.len(),
{
    if fields.len() == 0 {
        None
    } else if fields[0].0 == 1 && fields[0].1 == 2 && fields[0].2.len() > 0 {
        Some(fields[0].2)
    } else {
        first_handle(fields.drop_first())
    }
}

/// The handle that a ticket holds: in its own first field, in that of the
/// message it wraps, or the whole ticket.
pub open spec fn ticket_handle(ticket: Seq<u8>) -> Seq<u8> {
    match first_handle(wire::message_fields(ticket)) {
        Some(handle) => handle,
        None => match first_handle(wire::message_fields(any::any_value(ticket))) {
            Some(handle) => handle,
            None => ticket,
        },
    }
}

/// The query that a request to prepare a statement holds: in the message it
/// wraps, in its own first field, or as any command holds it.
pub open spec fn requested_query(body: Seq<u8>) -> Seq<char> {
    let wrapped = wire::field_text(wire::message_fields(any::any_value(body)), 1);
    let bare = wire::field_text(wire::message_fields(body), 1);
    if text::contains(any::any_url(body), "CreatePreparedStatement"@) && wrapped.len() > 0 {
        wrapped
    } else if bare.len() > 0 {
        bare
    } else {
        query::query_of(body)
    }
}

/// The message that a result of preparing a statement holds: the one that it
/// wraps, or itself.
pub open spec fn result_message(body: Seq<u8>) -> Seq<u8> {
    if any::any_value(body).len() > 0 && any::any_url(body).len() > 0 {
        any::any_value(body)
    } else {
        body
    }
}

/// The handle that a request to close a statement holds: in the first field
/// of the message it wraps, or of its own where it wraps none, or else as a
/// ticket holds it.
pub open spec fn closed_handle(body: Seq<u8>) -> Seq<u8> {
    let value = any::any_value(body);
    let message = if value.len() == 0 { body } else { value };
    let handle = wire::field_bytes(wire::message_fields(message), 1);
    if handle.len() > 0 {
        handle
    } else {
        ticket_handle(body)
    }
}

/// The payload of the first length-delimited field of number 1 of the message
/// `blob` that is not empty.
fn find_handle(blob: &[u8]) -> (r: Option<Vec<u8>>)
    ensures
        first_handle(wire::message_fields(blob@)) == (match r {
            Some(handle) => Some(handle@),
            None => None,
        }),
{
    let fields: Vec<(u32, u8, Vec<u8>)> = decode_fields(blob);
    let ghost all = fields.deep_view();
    let mut i: usize = 0;
    assert(all.skip(0) =~= all);
    while i < fields.len()
        invariant
            i <= fields.len(),
            all == fields.deep_view(),
            all == wire::message_fields(blob@),
            first_handle(all) == first_handle(all.skip(i as int)),
        decreases fields.len() - i,
    {
        let field: &(u32, u8, Vec<u8>) = &fields[i];
        assert(all.skip(i as int)[0] == fields[i as int].deep_view());
        if field.0 == 1 && field.1 == 2 && field.2.len() > 0 {
            return Some(slice_to_vec(field.2.as_slice()));
        }
        assert(all.skip(i as int).drop_first() =~= all.skip(i + 1));
        i = i + 1;
    }
    None
}

/// Reads the handle of a prepared statement from a ticket.
pub fn decode_ticket_handle(ticket: &[u8]) -> (r: Vec<u8>)
    ensures
        r@ == ticket_handle(ticket@),
{
    if let Some(handle) = find_handle(ticket) {
        return handle;
    }
    let (_, value) = decode_any(ticket);
    if let Some(handle) = find_handle(value.as_slice()) {
        return handle;
    }
    slice_to_vec(ticket)
}

/// Builds a wrapped `CommandStatementQuery`.
pub fn any_command_statement_query(query: &str) -> (out: Vec<u8>)
    ensures
        out@ == statement_query_bytes(query@),
{
    encode_any("CommandStatementQuery", encode_ld(1, query.as_bytes()).as_slice())
}

/// Builds a wrapped `CommandPreparedStatementQuery`.
pub fn any_command_prepared_statement_query(handle: &[u8]) -> (out: Vec<u8>)
    ensures
        out@ == prepared_query_bytes(handle@),
{
    encode_any("CommandPreparedStatementQuery", encode_ld(1, handle).as_slice())
}

/// Builds a bare `TicketStatementQuery`.
pub fn ticket_statement_query(handle: &[u8]) -> (out: Vec<u8>)
    ensures
        out@ == wire::length_delimited(1, handle@),
{
    encode_ld(1, handle)
}

/// Builds a wrapped `ActionCreatePreparedStatementRequest`.
pub fn action_create_prepared_statement_request(query: &str) -> (out: Vec<u8>)
    ensures
        out@ == create_request_bytes(query@),
{
    encode_any("ActionCreatePreparedStatementRequest", encode_ld(1, query.as_bytes()).as_slice())
}

/// Reads the query of a `CreatePreparedStatement` action, wrapped or raw.
pub fn parse_create_prepared_statement_request(body: &[u8]) -> (r: String)
    ensures
        r@ == requested_query(body@),
{
    let (url, value) = decode_any(body);
    if has_text(url.as_str(), "CreatePreparedStatement") && value.len() > 0 {
        let query: String = message_text(value.as_slice(), 1);
        if !query.as_str().is_empty() {
            return query;
        }
    }
    assert(any::any_value(body@).len() == 0 ==> wire::message_fields(
        any::any_value(body@),
    ).len() == 0);
    let bare: String = message_text(body, 1);
    if !bare.as_str().is_empty() {
        return bare;
    }
    extract_query(body)
}

/// Builds a wrapped `ActionCreatePreparedStatementResult`.
pub fn encode_create_prepared_statement_result(
    handle: &[u8],
    dataset_schema_ipc: &[u8],
) -> (out: Vec<u8>)
    ensures
        out@ == create_result_bytes(handle@, dataset_schema_ipc@),
{
    let mut msg: Vec<u8> = encode_ld(1, handle);
    let mut schema: Vec<u8> = encode_ld(2, dataset_schema_ipc);
    msg.append(&mut schema);
    encode_any("ActionCreatePreparedStatementResult", msg.as_slice())
}

/// Reads the handle and the schema of a `CreatePreparedStatement` result.
pub fn parse_create_prepared_statement_result(body: &[u8]) -> (r: (Vec<u8>, Vec<u8>))
    ensures
        r.0@ == wire::field_bytes(wire::message_fields(result_message(body@)), 1),
        r.1@ == wire::field_bytes(wire::message_fields(result_message(body@)), 2),
{
    let (url, value) = decode_any(body);
    let inner: Vec<u8> = if value.len() > 0 && !url.as_str().is_empty() {
        value
    } else {
        slice_to_vec(body)
    };
    (message_bytes(inner.as_slice(), 1), message_bytes(inner.as_slice(), 2))
}

/// Builds a bare `ActionClosePreparedStatementRequest`.
pub fn action_close_prepared_statement_request(handle: &[u8]) -> (out: Vec<u8>)
    ensures
        out@ == wire::length_delimited(1, handle@),
{
    encode_ld(1, handle)
}

/// Reads the handle of a `ClosePreparedStatement` action.
pub fn parse_close_prepared_statement_request(body: &[u8]) -> (r: Vec<u8>)
    ensures
        r@ == closed_handle(body@),
{
    let (_, value) = decode_any(body);
    let handle: Vec<u8> = if value.len() == 0 {
        message_bytes(body, 1)
    } else {
        message_bytes(value.as_slice(), 1)
    };
    if handle.len() > 0 {
        return handle;
    }
    decode_ticket_handle(body)
}

/// A query that is sent as a `CommandStatementQuery` is found again, trimmed.
pub proof fn statement_query_round_trip(query: Seq<char>)
    requires
        !text::is_blank(query),
        wire::length_delimited(1, encode_utf8(query)).len() <= wire::MAX_PAYLOAD,
    ensures
        query::query_of(statement_query_bytes(query)) == text::trimmed(query),
{
    assert(is_ascii_chars("CommandStatementQuery"@) && "CommandStatementQuery"@.len() <= 100) by {
        reveal_strlit("CommandStatementQuery");
    }
    lemma_wrapped_text("CommandStatementQuery"@, query);
    query::lemma_wrapped(statement_query_bytes(query), query);
}

/// A query that is sent in a request to prepare it is read again as it was
/// sent. Taken as any other command, the request holds the query trimmed.
pub proof fn create_request_round_trip(query: Seq<char>)
    requires
        query.len() > 0,
        wire::length_delimited(1, encode_utf8(query)).len() <= wire::MAX_PAYLOAD,
    ensures
        requested_query(create_request_bytes(query)) == query,
        !text::is_blank(query) ==> query::query_of(create_request_bytes(query)) == text::trimmed(
            query,
        ),
{
    let cmd = create_request_bytes(query);
    lemma_request_url();
    lemma_wrapped_text("ActionCreatePreparedStatementRequest"@, query);
    if !text::is_blank(query) {
        query::lemma_wrapped(cmd, query);
    }
}

/// The type URL of a request to prepare a statement.
proof fn lemma_request_url()
    ensures
        is_ascii_chars("ActionCreatePreparedStatementRequest"@),
        "ActionCreatePreparedStatementRequest"@.len() <= 100,
        text::contains(
            any::type_url("ActionCreatePreparedStatementRequest"@),
            "CreatePreparedStatement"@,
        ),
{
    let name = "ActionCreatePreparedStatementRequest"@;
    let url = any::type_url(name);
    lemma_request_name();
    lemma_url(name);
    assert(url.subrange(46, url.len() as int) =~= url.skip(46));
    text::lemma_part_contains(url, 46, url.len() as int, "CreatePreparedStatement"@);
}

/// The name of a request to prepare a statement.
proof fn lemma_request_name()
    ensures
        is_ascii_chars("ActionCreatePreparedStatementRequest"@),
        "ActionCreatePreparedStatementRequest"@.len() <= 100,
        text::contains("ActionCreatePreparedStatementRequest"@, "CreatePreparedStatement"@),
{
    reveal_strlit("ActionCreatePreparedStatementRequest");
    reveal_strlit("CreatePreparedStatement");
    let name = "ActionCreatePreparedStatementRequest"@;
    assert(name.subrange(6, 29) =~= "CreatePreparedStatement"@);
    assert(text::occurs_at(name, "CreatePreparedStatement"@, 6));
}

/// The handle and the schema that a result of preparing a statement was built
/// with are read again.
pub proof fn create_result_round_trip(handle: Seq<u8>, schema: Seq<u8>)
    requires
        create_result_fields(handle, schema).len() <= wire::MAX_PAYLOAD,
    ensures
        ({
            let fields = wire::message_fields(
                result_message(create_result_bytes(handle, schema)),
            );
            &&& wire::field_bytes(fields, 1) == handle
            &&& wire::field_bytes(fields, 2) == schema
        }),
{
    let name = "ActionCreatePreparedStatementResult"@;
    let message = create_result_fields(handle, schema);
    reveal_strlit("ActionCreatePreparedStatementResult");
    lemma_url(name);
    any::any_round_trip(name, message);
    let second = wire::length_delimited(2, schema);
    wire::field_round_trip(1, handle, second);
    lemma_single_field(2, schema);
    let fields = wire::message_fields(message);
    assert(fields =~= seq![(1u32, 2u8, handle), (2u32, 2u8, schema)]);
    assert(fields.drop_first() =~= seq![(2u32, 2u8, schema)]);
    assert(wire::first_payload(fields.drop_first(), 2) == Some(schema));
    assert(any::any_value(create_result_bytes(handle, schema)).len() > 0) by {
        if message.len() == 0 {
            assert(wire::message_fields(message).len() == 0);
        }
    }
}

/// The handle that a ticket was built with is read again.
pub proof fn ticket_round_trip(handle: Seq<u8>)
    requires
        0 < handle.len() <= wire::MAX_PAYLOAD,
    ensures
        ticket_handle(wire::length_delimited(1, handle)) == handle,
{
    lemma_single_field(1, handle);
}

/// The handle that a request to close a statement was built with is read
/// again.
pub proof fn close_request_round_trip(handle: Seq<u8>)
    requires
        0 < handle.len() <= wire::MAX_PAYLOAD,
    ensures
        closed_handle(wire::length_delimited(1, handle)) == handle,
{
    lemma_single_field(1, handle);
    let fields = wire::message_fields(wire::length_delimited(1, handle));
    assert(any::value_of(fields.drop_last()).len() == 0);
}

/// The handle that a `CommandPreparedStatementQuery` was built with is read
/// again, and the type URL tells the command.
pub proof fn prepared_query_round_trip(handle: Seq<u8>)
    requires
        wire::length_delimited(1, handle).len() <= wire::MAX_PAYLOAD,
    ensures
        ({
            let cmd = prepared_query_bytes(handle);
            &&& text::contains(any::any_url(cmd), "CommandPreparedStatementQuery"@)
            &&& wire::field_bytes(wire::message_fields(any::any_value(cmd)), 1) == handle
        }),
{
    let name = "CommandPreparedStatementQuery"@;
    reveal_strlit("CommandPreparedStatementQuery");
    lemma_url(name);
    any::any_round_trip(name, wire::length_delimited(1, handle));
    lemma_single_field(1, handle);
}

/// The type URL of a result of preparing a statement: it is that of a result,
/// whatever the handle and the schema.
pub proof fn result_is_labelled(handle: Seq<u8>, schema: Seq<u8>)
    requires
        create_result_fields(handle, schema).len() <= wire::MAX_PAYLOAD,
    ensures
        any::any_url(create_result_bytes(handle, schema))
            == "type.googleapis.com/arrow.flight.protocol.sql.ActionCreatePreparedStatementResult"@,
        any::any_value(create_result_bytes(handle, schema)) == create_result_fields(handle, schema),
{
    let name = "ActionCreatePreparedStatementResult"@;
    assert(is_ascii_chars(name) && name.len() <= 100) by {
        reveal_strlit("ActionCreatePreparedStatementResult");
    }
    lemma_url(name);
    any::any_round_trip(name, create_result_fields(handle, schema));
    lemma_result_type();
}

/// The answer to a request to prepare a statement tells by its type URL that it
/// is a result, and whoever reads it finds the handle and the schema.
pub proof fn built_result_is_read(
    handle: &[u8],
    schema: &[u8],
    out: Vec<u8>,
    body: &[u8],
    wrapped: (String, Vec<u8>),
    read: (Vec<u8>, Vec<u8>),
)
    requires
        call_ensures(encode_create_prepared_statement_result, (handle, schema), out),
        body@ == out@,
        call_ensures(decode_any, (body,), wrapped),
        call_ensures(parse_create_prepared_statement_result, (body,), read),
        create_result_fields(handle@, schema@).len() <= wire::MAX_PAYLOAD,
    ensures
        wrapped.0@
            == "type.googleapis.com/arrow.flight.protocol.sql.ActionCreatePreparedStatementResult"@,
        wrapped.1@ == seq![0x0au8] + varint::varint_bytes(handle@.len()) + handle@ + seq![0x12u8]
            + varint::varint_bytes(schema@.len()) + schema@,
        read.0@ == handle@,
        read.1@ == schema@,
{
    result_is_labelled(handle@, schema@);
    create_result_round_trip(handle@, schema@);
    wire::field_layout(1, handle@);
    wire::field_layout(2, schema@);
}

/// A statement query tells by its type URL that it is one, and holds the query
/// in its first field.
pub proof fn statement_query_is_labelled(query: &str, out: Vec<u8>)
    requires
        call_ensures(any_command_statement_query, (query,), out),
        wire::length_delimited(1, encode_utf8(query@)).len() <= wire::MAX_PAYLOAD,
    ensures
        any::any_url(out@)
            == "type.googleapis.com/arrow.flight.protocol.sql.CommandStatementQuery"@,
        any::any_value(out@) == seq![0x0au8] + varint::varint_bytes(encode_utf8(query@).len())
            + encode_utf8(query@),
{
    let name = "CommandStatementQuery"@;
    assert(is_ascii_chars(name) && name.len() <= 100) by {
        reveal_strlit("CommandStatementQuery");
    }
    lemma_url(name);
    any::any_round_trip(name, wire::length_delimited(1, encode_utf8(query@)));
    wire::field_layout(1, encode_utf8(query@));
    lemma_statement_type();
}

/// A command for a prepared statement tells by its type URL that it is one, and
/// holds the handle in its first field.
pub proof fn prepared_query_is_labelled(handle: &[u8], out: Vec<u8>)
    requires
        call_ensures(any_command_prepared_statement_query, (handle,), out),
        wire::length_delimited(1, handle@).len() <= wire::MAX_PAYLOAD,
    ensures
        any::any_url(out@)
            == "type.googleapis.com/arrow.flight.protocol.sql.CommandPreparedStatementQuery"@,
        any::any_value(out@) == seq![0x0au8] + varint::varint_bytes(handle@.len()) + handle@,
{
    let name = "CommandPreparedStatementQuery"@;
    assert(is_ascii_chars(name) && name.len() <= 100) by {
        reveal_strlit("CommandPreparedStatementQuery");
    }
    lemma_url(name);
    any::any_round_trip(name, wire::length_delimited(1, handle@));
    wire::field_layout(1, handle@);
    lemma_prepared_type();
}

/// A request to prepare a statement tells by its type URL that it is one, and
/// holds the query in its first field.
pub proof fn create_request_is_labelled(query: &str, out: Vec<u8>)
    requires
        call_ensures(action_create_prepared_statement_request, (query,), out),
        wire::length_delimited(1, encode_utf8(query@)).len() <= wire::MAX_PAYLOAD,
    ensures
        any::any_url(out@)
            == "type.googleapis.com/arrow.flight.protocol.sql.ActionCreatePreparedStatementRequest"@,
        any::any_value(out@) == seq![0x0au8] + varint::varint_bytes(encode_utf8(query@).len())
            + encode_utf8(query@),
{
    let name = "ActionCreatePreparedStatementRequest"@;
    lemma_request_name();
    lemma_url(name);
    any::any_round_trip(name, wire::length_delimited(1, encode_utf8(query@)));
    wire::field_layout(1, encode_utf8(query@));
    lemma_request_type();
}

/// A ticket and a bare request to close a statement are one field that holds
/// the handle.
pub proof fn bare_messages_hold_the_handle(
    handle: &[u8],
    ticket: Vec<u8>,
    closing: Vec<u8>,
)
    requires
        call_ensures(ticket_statement_query, (handle,), ticket),
        call_ensures(action_close_prepared_statement_request, (handle,), closing),
    ensures
        ticket@ == seq![0x0au8] + varint::varint_bytes(handle@.len()) + handle@,
        closing@ == seq![0x0au8] + varint::varint_bytes(handle@.len()) + handle@,
{
    wire::field_layout(1, handle@);
}

/// A query is read again from the request to prepare it, as it was sent,
/// whether the request is wrapped or not.
pub proof fn requested_query_is_read(
    query: &str,
    out: Vec<u8>,
    body: &[u8],
    read: String,
    bare: &[u8],
    bare_read: String,
)
    requires
        query@.len() > 0,
        wire::length_delimited(1, encode_utf8(query@)).len() <= wire::MAX_PAYLOAD,
        call_ensures(action_create_prepared_statement_request, (query,), out),
        body@ == out@,
        call_ensures(parse_create_prepared_statement_request, (body,), read),
        bare@ == wire::length_delimited(1, encode_utf8(query@)),
        call_ensures(parse_create_prepared_statement_request, (bare,), bare_read),
    ensures
        read@ == query@,
        bare_read@ == query@,
{
    create_request_round_trip(query@);
    bare_request_round_trip(query@);
}

/// A query that is sent in a bare request to prepare it is read again as it was
/// sent.
pub proof fn bare_request_round_trip(query: Seq<char>)
    requires
        query.len() > 0,
        wire::length_delimited(1, encode_utf8(query)).len() <= wire::MAX_PAYLOAD,
    ensures
        requested_query(wire::length_delimited(1, encode_utf8(query))) == query,
{
    let body = wire::length_delimited(1, encode_utf8(query));
    lemma_single_field(1, encode_utf8(query));
    encode_utf8_valid_utf8(query);
    encode_utf8_decode_utf8(query);
    let fields = wire::message_fields(body);
    assert(any::value_of(fields.drop_last()).len() == 0);
    assert(any::any_value(body).len() == 0);
    assert(wire::message_fields(any::any_value(body)).len() == 0);
}

/// The handle of a request to close a statement that is wrapped, under
/// whatever name, is read again whole.
pub proof fn wrapped_close_request_round_trip(name: Seq<char>, handle: Seq<u8>)
    requires
        encode_utf8(any::type_url(name)).len() <= wire::MAX_PAYLOAD,
        0 < handle.len(),
        wire::length_delimited(1, handle).len() <= wire::MAX_PAYLOAD,
    ensures
        closed_handle(any::any_bytes(name, wire::length_delimited(1, handle))) == handle,
{
    let inner = wire::length_delimited(1, handle);
    any::any_round_trip(name, inner);
    lemma_single_field(1, handle);
    assert(inner.len() > 0);
}

/// The handle of a wrapped `ActionClosePreparedStatementRequest` is read again
/// whole.
pub proof fn close_request_is_read(handle: Seq<u8>)
    requires
        0 < handle.len(),
        wire::length_delimited(1, handle).len() <= wire::MAX_PAYLOAD,
    ensures
        closed_handle(
            any::any_bytes(
                "ActionClosePreparedStatementRequest"@,
                wire::length_delimited(1, handle),
            ),
        ) == handle,
{
    let name = "ActionClosePreparedStatementRequest"@;
    assert(is_ascii_chars(name) && name.len() <= 100) by {
        reveal_strlit("ActionClosePreparedStatementRequest");
    }
    lemma_url(name);
    wrapped_close_request_round_trip(name, handle);
}

/// Whoever closes a statement, with a bare request, with a wrapped one or with
/// the handle alone, names the whole handle, byte for byte. The handle alone
/// names itself where its bytes are those of characters from U+0018 to U+007F,
/// as the digits of a drawn handle are.
pub proof fn closed_handle_is_the_handle(
    handle: &[u8],
    bare: Vec<u8>,
    message: Vec<u8>,
    bodies: (&[u8], &[u8]),
    read: (Vec<u8>, Vec<u8>, Vec<u8>),
    seen: Vec<u8>,
)
    requires
        0 < handle@.len(),
        wire::length_delimited(1, handle@).len() <= wire::MAX_PAYLOAD,
        call_ensures(action_close_prepared_statement_request, (handle,), bare),
        bodies.0@ == bare@,
        call_ensures(
            encode_any,
            ("ActionClosePreparedStatementRequest", bodies.0),
            message,
        ),
        bodies.1@ == message@,
        call_ensures(parse_close_prepared_statement_request, (bodies.0,), read.0),
        call_ensures(parse_close_prepared_statement_request, (bodies.1,), read.1),
        call_ensures(parse_close_prepared_statement_request, (handle,), read.2),
        call_ensures(decode_ticket_handle, (handle,), seen),
    ensures
        read.0@ == handle@,
        read.1@ == handle@,
        (forall|i: int| 0 <= i < handle@.len() ==> 24 <= #[trigger] handle@[i] < 128) ==> read.2@
            == handle@ && seen@ == handle@,
{
    assert(handle@.len() <= wire::length_delimited(1, handle@).len());
    close_request_round_trip(handle@);
    close_request_is_read(handle@);
    if forall|i: int| 0 <= i < handle@.len() ==> 24 <= #[trigger] handle@[i] < 128 {
        raw_handle_round_trip(handle@);
    }
}

/// Bytes of characters from U+0018 to U+007F, taken as a ticket or as a request
/// to close a statement, are a handle themselves.
pub proof fn raw_handle_round_trip(handle: Seq<u8>)
    requires
        forall|i: int| 0 <= i < handle.len() ==> 24 <= #[trigger] handle[i] < 128,
    ensures
        ticket_handle(handle) == handle,
        closed_handle(handle) == handle,
        any::any_url(handle).len() == 0,
        any::any_value(handle).len() == 0,
{
    let fields = wire::message_fields(handle);
    lemma_no_low_field(handle);
    lemma_nothing_found(fields);
    assert(wire::message_fields(any::any_value(handle)).len() == 0);
}

/// No field of such bytes has the number 1 or 2.
proof fn lemma_no_low_field(s: Seq<u8>)
    requires
        forall|i: int| 0 <= i < s.len() ==> 24 <= #[trigger] s[i] < 128,
    ensures
        forall|k: int|
            0 <= k < wire::message_fields(s).len() ==> (#[trigger] wire::message_fields(s)[k]).0
                > 2,
    decreases s.len(),
{
    wire::lemma_leading_field(s);
    if let Some((field, n)) = wire::leading_field(s) {
        assert(varint::continued(s) == 0);
        let head = s.take(1);
        assert(head.drop_first().len() == 0);
        assert(varint::base128(head) == s[0] as nat) by {
            assert(varint::base128(head.drop_first()) == 0);
            assert(head[0] == s[0]);
        }
        assert(field.0 == s[0] as nat / 8);
        let tail = s.skip(n as int);
        assert forall|i: int| 0 <= i < tail.len() implies 24 <= #[trigger] tail[i] < 128 by {
            assert(tail[i] == s[i + n]);
        }
        lemma_no_low_field(tail);
        let fields = wire::message_fields(s);
        assert forall|k: int| 0 <= k < fields.len() implies (#[trigger] fields[k]).0 > 2 by {
            if k > 0 {
                assert(fields[k] == wire::message_fields(tail)[k - 1]);
            }
        }
    }
}

/// Where no field has the number 1 or 2, none is found.
proof fn lemma_nothing_found(fields: Seq<wire::WireField>)
    requires
        forall|k: int| 0 <= k < fields.len() ==> (#[trigger] fields[k]).0 > 2,
    ensures
        first_handle(fields) is None,
        wire::first_payload(fields, 1) is None,
        any::url_of(fields).len() == 0,
        any::value_of(fields).len() == 0,
    decreases fields.len(),
{
    if fields.len() > 0 {
        let tail = fields.drop_first();
        let less = fields.drop_last();
        assert forall|k: int| 0 <= k < tail.len() implies (#[trigger] tail[k]).0 > 2 by {
            assert(tail[k] == fields[k + 1]);
        }
        assert forall|k: int| 0 <= k < less.len() implies (#[trigger] less[k]).0 > 2 by {
            assert(less[k] == fields[k]);
        }
        lemma_nothing_found(tail);
        lemma_nothing_found(less);
        assert(fields[0].0 > 2);
        assert(fields[fields.len() - 1].0 > 2);
    }
}

/// A wrapped message, taken as a ticket, holds its type URL as a handle.
pub proof fn wrapped_ticket_holds_url(name: Seq<char>, value: Seq<u8>)
    requires
        encode_utf8(any::type_url(name)).len() <= wire::MAX_PAYLOAD,
    ensures
        ticket_handle(any::any_bytes(name, value)) == encode_utf8(
            "type.googleapis.com/arrow.flight.protocol.sql."@ + name,
        ),
{
    let url = encode_utf8(any::type_url(name));
    any::lemma_type_url(name);
    wire::field_round_trip(1, url, wire::length_delimited(2, value));
    assert(url.len() > 0) by {
        if url.len() == 0 {
            encode_utf8_decode_utf8(any::type_url(name));
            assert(decode_utf8(url).len() == 0);
            reveal_strlit("type.googleapis.com/arrow.flight.protocol.sql.");
        }
    }
    let fields = wire::message_fields(any::any_bytes(name, value));
    assert(fields[0] == (1u32, 2u8, url));
}

/// The handle of a ticket is the payload of the first of its fields that has
/// the number 1 and is not empty: a field in front takes its place where it is
/// such a field, and changes nothing where it is not.
pub proof fn first_handle_counts(field: wire::WireField, fields: Seq<wire::WireField>)
    ensures
        field.0 == 1 && field.1 == 2 && field.2.len() > 0 ==> first_handle(
            seq![field] + fields,
        ) == Some(field.2),
        !(field.0 == 1 && field.1 == 2 && field.2.len() > 0) ==> first_handle(
            seq![field] + fields,
        ) == first_handle(fields),
        first_handle(Seq::<wire::WireField>::empty()) is None,
{
    assert((seq![field] + fields).drop_first() =~= fields);
}

/// The type URL of a result of preparing a statement.
proof fn lemma_result_type()
    ensures
        any::type_url("ActionCreatePreparedStatementResult"@)
            == "type.googleapis.com/arrow.flight.protocol.sql.ActionCreatePreparedStatementResult"@,
{
    any::lemma_type_url("ActionCreatePreparedStatementResult"@);
    reveal_strlit("type.googleapis.com/arrow.flight.protocol.sql.");
    reveal_strlit("ActionCreatePreparedStatementResult");
    reveal_strlit("type.googleapis.com/arrow.flight.protocol.sql.ActionCreatePreparedStatementResult");
    assert("type.googleapis.com/arrow.flight.protocol.sql."@ + "ActionCreatePreparedStatementResult"@
        =~= "type.googleapis.com/arrow.flight.protocol.sql.ActionCreatePreparedStatementResult"@);
}

/// The type URL of a statement query.
proof fn lemma_statement_type()
    ensures
        any::type_url("CommandStatementQuery"@)
            == "type.googleapis.com/arrow.flight.protocol.sql.CommandStatementQuery"@,
{
    any::lemma_type_url("CommandStatementQuery"@);
    reveal_strlit("type.googleapis.com/arrow.flight.protocol.sql.");
    reveal_strlit("CommandStatementQuery");
    reveal_strlit("type.googleapis.com/arrow.flight.protocol.sql.CommandStatementQuery");
    assert("type.googleapis.com/arrow.flight.protocol.sql."@ + "CommandStatementQuery"@
        =~= "type.googleapis.com/arrow.flight.protocol.sql.CommandStatementQuery"@);
}

/// The type URL of a command for a prepared statement.
proof fn lemma_prepared_type()
    ensures
        any::type_url("CommandPreparedStatementQuery"@)
            == "type.googleapis.com/arrow.flight.protocol.sql.CommandPreparedStatementQuery"@,
{
    any::lemma_type_url("CommandPreparedStatementQuery"@);
    reveal_strlit("type.googleapis.com/arrow.flight.protocol.sql.");
    reveal_strlit("CommandPreparedStatementQuery");
    reveal_strlit("type.googleapis.com/arrow.flight.protocol.sql.CommandPreparedStatementQuery");
    assert("type.googleapis.com/arrow.flight.protocol.sql."@ + "CommandPreparedStatementQuery"@
        =~= "type.googleapis.com/arrow.flight.protocol.sql.CommandPreparedStatementQuery"@);
}

/// The type URL of a request to prepare a statement, in full.
proof fn lemma_request_type()
    ensures
        any::type_url("ActionCreatePreparedStatementRequest"@)
            == "type.googleapis.com/arrow.flight.protocol.sql.ActionCreatePreparedStatementRequest"@,
{
    any::lemma_type_url("ActionCreatePreparedStatementRequest"@);
    reveal_strlit("type.googleapis.com/arrow.flight.protocol.sql.");
    reveal_strlit("ActionCreatePreparedStatementRequest");
    reveal_strlit("type.googleapis.com/arrow.flight.protocol.sql.ActionCreatePreparedStatementRequest");
    assert("type.googleapis.com/arrow.flight.protocol.sql."@ + "ActionCreatePreparedStatementRequest"@
        =~= "type.googleapis.com/arrow.flight.protocol.sql.ActionCreatePreparedStatementRequest"@);
}

/// A message of one length-delimited field.
proof fn lemma_single_field(number: u32, payload: Seq<u8>)
    requires
        number < 0x2000_0000,
        payload.len() <= wire::MAX_PAYLOAD,
    ensures
        wire::message_fields(wire::length_delimited(number, payload)) == seq![
            (number, 2u8, payload),
        ],
{
    let bytes = wire::length_delimited(number, payload);
    wire::field_round_trip(number, payload, Seq::empty());
    assert(bytes + Seq::<u8>::empty() =~= bytes);
    assert(wire::message_fields(Seq::<u8>::empty()).len() == 0);
}

/// The type URL of an ASCII name: it is ASCII, of known length, and the name
/// stands at its end.
pub(crate) proof fn lemma_url(name: Seq<char>)
    requires
        is_ascii_chars(name),
    ensures
        is_ascii_chars(any::type_url(name)),
        any::type_url(name).len() == 46 + name.len(),
        encode_utf8(any::type_url(name)).len() == 46 + name.len(),
        any::type_url(name).skip(46) == name,
        text::contains(any::type_url(name), name),
{
    reveal_strlit("type.googleapis.com/");
    reveal_strlit("arrow.flight.protocol.sql");
    reveal_strlit(".");
    let url = any::type_url(name);
    assert forall|i: int| 0 <= i < url.len() implies '\0' <= #[trigger] url[i] <= '\u{7f}' by {
        if i >= 46 {
            assert(url[i] == name[i - 46]);
        }
    }
    is_ascii_chars_encode_utf8(url);
    assert(url.skip(46) =~= name);
    assert(url.subrange(46, url.len() as int) =~= name);
    assert(text::occurs_at(url, name, 46));
}

/// The type URL of a statement query does not tell a prepared statement.
pub(crate) proof fn lemma_statement_is_not_prepared()
    ensures
        !text::contains(
            any::type_url("CommandStatementQuery"@),
            "CommandPreparedStatementQuery"@,
        ),
{
    let url = any::type_url("CommandStatementQuery"@);
    let name = "CommandPreparedStatementQuery"@;
    reveal_strlit("CommandPreparedStatementQuery");
    assert(url.len() == 67 && forall|i: int| 0 <= i < 46 ==> #[trigger] url[i] != 'C') by {
        reveal_strlit("type.googleapis.com/");
        reveal_strlit("arrow.flight.protocol.sql");
        reveal_strlit(".");
        reveal_strlit("CommandStatementQuery");
    }
    if text::contains(url, name) {
        let i = choose|i: int| text::occurs_at(url, name, i);
        assert(url.subrange(i, i + name.len())[0] == url[i]);
    }
}

/// A wrapped message whose first field is a text.
pub(crate) proof fn lemma_wrapped_text(name: Seq<char>, content: Seq<char>)
    requires
        is_ascii_chars(name),
        name.len() <= 100,
        wire::length_delimited(1, encode_utf8(content)).len() <= wire::MAX_PAYLOAD,
    ensures
        ({
            let cmd = any::any_bytes(name, wire::length_delimited(1, encode_utf8(content)));
            &&& any::any_url(cmd) == any::type_url(name)
            &&& text::contains(any::any_url(cmd), name)
            &&& any::any_value(cmd).len() > 0
            &&& wire::field_text(wire::message_fields(any::any_value(cmd)), 1) == content
        }),
{
    let inner = wire::length_delimited(1, encode_utf8(content));
    lemma_url(name);
    any::any_round_trip(name, inner);
    lemma_single_field(1, encode_utf8(content));
    encode_utf8_valid_utf8(content);
    encode_utf8_decode_utf8(content);
    assert(inner.len() > 0) by {
        if inner.len() == 0 {
            assert(wire::message_fields(inner).len() == 0);
        }
    }
}

/// The text that is prepared for a wrapped message that is no request to prepare
/// a statement, or holds no query, is its type URL.
pub proof fn other_messages_prepare_their_url(name: Seq<char>, value: Seq<u8>)
    requires
        encode_utf8(any::type_url(name)).len() <= wire::MAX_PAYLOAD,
        value.len() <= wire::MAX_PAYLOAD,
        !text::contains(any::type_url(name), "CreatePreparedStatement"@) || wire::field_text(
            wire::message_fields(value),
            1,
        ).len() == 0,
    ensures
        requested_query(any::any_bytes(name, value))
            == "type.googleapis.com/arrow.flight.protocol.sql."@ + name,
{
    let body = any::any_bytes(name, value);
    let url = encode_utf8(any::type_url(name));
    any::any_round_trip(name, value);
    any::lemma_type_url(name);
    wire::field_round_trip(1, url, wire::length_delimited(2, value));
    let fields = wire::message_fields(body);
    assert(fields[0] == (1u32, 2u8, url));
    text::encoded_text_is_read(any::type_url(name));
    assert(any::type_url(name).len() > 0) by {
        reveal_strlit("type.googleapis.com/arrow.flight.protocol.sql.");
    }
}

/// A wrapped request to close a statement that holds no handle names its type
/// URL.
pub proof fn close_request_without_handle_names_its_url(name: Seq<char>, value: Seq<u8>)
    requires
        encode_utf8(any::type_url(name)).len() <= wire::MAX_PAYLOAD,
        0 < value.len() <= wire::MAX_PAYLOAD,
        wire::field_bytes(wire::message_fields(value), 1).len() == 0,
    ensures
        closed_handle(any::any_bytes(name, value)) == encode_utf8(
            "type.googleapis.com/arrow.flight.protocol.sql."@ + name,
        ),
{
    any::any_round_trip(name, value);
    wrapped_ticket_holds_url(name, value);
}

/// A ticket whose own first field is missing holds the handle of the message in
/// its second field.
pub proof fn ticket_is_looked_into(handle: Seq<u8>)
    requires
        0 < handle.len(),
        wire::length_delimited(1, handle).len() <= wire::MAX_PAYLOAD,
    ensures
        ticket_handle(wire::length_delimited(2, wire::length_delimited(1, handle))) == handle,
        closed_handle(wire::length_delimited(2, wire::length_delimited(1, handle))) == handle,
{
    let inner = wire::length_delimited(1, handle);
    let ticket = wire::length_delimited(2, inner);
    lemma_single_field(1, handle);
    lemma_single_field(2, inner);
    let fields = wire::message_fields(ticket);
    assert(fields =~= seq![(2u32, 2u8, inner)]);
    assert(first_handle(fields.drop_first()) is None);
    assert(first_handle(fields) is None);
    assert(any::any_value(ticket) == inner);
}

/// A result of preparing a statement that is not wrapped is read as it stands,
/// where its handle is no text or its schema is empty.
pub proof fn bare_result_is_read(
    handle: Seq<u8>,
    schema: Seq<u8>,
    body: &[u8],
    read: (Vec<u8>, Vec<u8>),
)
    requires
        handle.len() <= wire::MAX_PAYLOAD,
        schema.len() <= wire::MAX_PAYLOAD,
        !valid_utf8(handle) || handle.len() == 0 || schema.len() == 0,
        body@ == wire::length_delimited(1, handle) + wire::length_delimited(2, schema),
        call_ensures(parse_create_prepared_statement_result, (body,), read),
    ensures
        read.0@ == handle,
        read.1@ == schema,
{
    wire::field_round_trip(1, handle, wire::length_delimited(2, schema));
    lemma_single_field(2, schema);
    let fields = wire::message_fields(body@);
    let first = seq![(1u32, 2u8, handle)];
    assert(fields =~= first.push((2u32, 2u8, schema)));
    assert(fields.drop_last() =~= first);
    assert(fields.drop_first() =~= seq![(2u32, 2u8, schema)]);
    assert(any::url_of(first.drop_last()).len() == 0);
    assert(any::any_value(body@) == schema);
    assert(any::url_of(fields) == any::url_of(first));
    assert(first.last() == (1u32, 2u8, handle));
    assert(any::any_url(body@).len() == 0 || schema.len() == 0) by {
        if handle.len() == 0 {
            assert(decode_utf8(handle).len() == 0);
        }
    }
    assert(wire::first_payload(fields.drop_first(), 2) == Some(schema));
}

} // verus!
