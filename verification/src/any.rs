//! The protobuf `Any` wrapper: a message with the URL of its type.

use crate::text;
use crate::text::utf8_text;
use crate::varint;
use crate::wire;
use crate::wire::{decode_fields, encode_ld};
use vstd::prelude::*;
use vstd::slice::*;
use vstd::string::*;
use vstd::utf8::*;

verus! {

/// The package of the Flight SQL messages.
pub const SQL_PKG: &'static str = "arrow.flight.protocol.sql";

/// What type URLs begin with.
pub const TYPE_HOST: &'static str = "type.googleapis.com/";

/// The URL of the Flight SQL message type `name`.
pub open spec fn type_url(name: Seq<char>) -> Seq<char> {
    TYPE_HOST@ + SQL_PKG@ + "."@ + name
}

/// The bytes of the `Any` wrapper round `value`, a message of type `name`.
pub open spec fn any_bytes(name: Seq<char>, value: Seq<u8>) -> Seq<u8> {
    wire::length_delimited(1, encode_utf8(type_url(name))) + wire::length_delimited(2, value)
}

/// The type URL among the fields of an `Any`: the last length-delimited field
/// of number 1 that is valid UTF-8, or the empty text.
pub open spec fn url_of(fields: Seq<wire::WireField>) -> Seq<char>
    decreases fields.len(),
{
    if fields.len() == 0 {
        Seq::empty()
    } else if fields.last().0 == 1 && fields.last().1 == 2 && valid_utf8(fields.last().2) {
        decode_utf8(fields.last().2)
    } else {
        url_of(fields.drop_last())
    }
}

/// The value among the fields of an `Any`: the last length-delimited field of
/// number 2, or no bytes.
pub open spec fn value_of(fields: Seq<wire::WireField>) -> Seq<u8>
    decreases fields.len(),
{
    if fields.len() == 0 {
        Seq::empty()
    } else if fields.last().0 == 2 && fields.last().1 == 2 {
        fields.last().2
    } else {
        value_of(fields.drop_last())
    }
}

/// The type URL that is read from the message `blob`.
pub open spec fn any_url(blob: Seq<u8>) -> Seq<char> {
    url_of(wire::message_fields(blob))
}

/// The value that is read from the message `blob`.
pub open spec fn any_value(blob: Seq<u8>) -> Seq<u8> {
    value_of(wire::message_fields(blob))
}

/// Wraps `value`, a Flight SQL message of type `message`, in an `Any`.
pub fn encode_any(message: &str, value: &[u8]) -> (out: Vec<u8>)
    ensures
        out@ == any_bytes(message@, value@),
{
    let url: String = TYPE_HOST.to_owned().concat(SQL_PKG).concat(".").concat(message);
    let mut out: Vec<u8> = encode_ld(1, url.as_str().as_bytes());
    let mut rest: Vec<u8> = encode_ld(2, value);
    out.append(&mut rest);
    out
}

/// Reads the type URL and the value of an `Any`.
pub fn decode_any(blob: &[u8]) -> (r: (String, Vec<u8>))
    ensures
        r.0@ == any_url(blob@),
        r.1@ == any_value(blob@),
{
    let mut type_url: String = String::new();
    let mut value: Vec<u8> = Vec::new();
    let fields: Vec<(u32, u8, Vec<u8>)> = decode_fields(blob);
    let ghost all = fields.deep_view();
    let mut i: usize = 0;
    while i < fields.len()
        invariant
            i <= fields.len(),
            all == fields.deep_view(),
            type_url@ == url_of(all.take(i as int)),
            value@ == value_of(all.take(i as int)),
        decreases fields.len() - i,
    {
        let field: &(u32, u8, Vec<u8>) = &fields[i];
        proof {
            let next = all.take(i + 1);
            assert(next.last() == fields[i as int].deep_view());
            assert(next.drop_last() =~= all.take(i as int));
            assert(field.2.deep_view() =~= field.2@);
        }
        if field.0 == 1 && field.1 == 2 {
            if let Some(s) = utf8_text(slice_to_vec(field.2.as_slice())) {
                type_url = s;
            }
        } else if field.0 == 2 && field.1 == 2 {
            value = slice_to_vec(field.2.as_slice());
        }
        i = i + 1;
    }
    assert(all.take(i as int) =~= all);
    (type_url, value)
}

/// The type URL that is read from a text holds no name that the text does not
/// hold.
pub proof fn url_names_are_in_text(whole: Seq<char>, name: Seq<char>)
    requires
        is_ascii_chars(name),
        name.len() > 0,
        text::contains(any_url(encode_utf8(whole)), name),
    ensures
        text::contains(whole, name),
{
    let blob = encode_utf8(whole);
    let url = any_url(blob);
    let fields = wire::message_fields(blob);
    lemma_url_is_payload(fields);
    assert(url.len() > 0) by {
        let i = choose|i: int| text::occurs_at(url, name, i);
        assert(url.subrange(i, i + name.len()).len() == name.len());
    }
    let k = choose|k: int| is_url_at(fields, k);
    wire::payload_is_part(blob, k);
    let (a, b) = choose|a: int, b: int| wire::is_part(blob, fields[k].2, a, b);
    decode_utf8_encode_utf8(fields[k].2);
    text::lemma_encoded_contains(url, name);
    text::lemma_part_contains(blob, a, b, encode_utf8(name));
    text::lemma_decoded_contains(whole, name);
}

/// Whether the type URL among the fields is the text of the field `k`.
spec fn is_url_at(fields: Seq<wire::WireField>, k: int) -> bool {
    &&& 0 <= k < fields.len()
    &&& valid_utf8(fields[k].2)
    &&& url_of(fields) == decode_utf8(fields[k].2)
}

/// A type URL that is not empty is the text of a field.
proof fn lemma_url_is_payload(fields: Seq<wire::WireField>)
    ensures
        url_of(fields).len() > 0 ==> exists|k: int| is_url_at(fields, k),
    decreases fields.len(),
{
    if fields.len() > 0 {
        let less = fields.drop_last();
        lemma_url_is_payload(less);
        let last = fields.len() - 1;
        if fields.last().0 == 1 && fields.last().1 == 2 && valid_utf8(fields.last().2) {
            assert(is_url_at(fields, last));
        } else if url_of(fields).len() > 0 {
            let k = choose|k: int| is_url_at(less, k);
            assert(is_url_at(fields, k));
        }
    }
}

/// An `Any` that is read gives back the type URL and the value that were
/// wrapped.
pub proof fn any_round_trip(name: Seq<char>, value: Seq<u8>)
    requires
        encode_utf8(type_url(name)).len() <= wire::MAX_PAYLOAD,
        value.len() <= wire::MAX_PAYLOAD,
    ensures
        any_url(any_bytes(name, value)) == type_url(name),
        any_value(any_bytes(name, value)) == value,
{
    let url = encode_utf8(type_url(name));
    let second = wire::length_delimited(2, value);
    encode_utf8_valid_utf8(type_url(name));
    encode_utf8_decode_utf8(type_url(name));
    wire::field_round_trip(1, url, second);
    wire::field_round_trip(2, value, Seq::empty());
    assert(second + Seq::<u8>::empty() =~= second);
    let first = seq![(1u32, 2u8, url)];
    let fields = wire::message_fields(any_bytes(name, value));
    assert(fields =~= first.push((2u32, 2u8, value)));
    assert(fields.drop_last() =~= first);
    assert(url_of(first) == type_url(name));
}

/// The type URL that an `Any` is built with is the same for every message but
/// for the name at its end. It stands in the first field, the value in the
/// second.
pub proof fn any_layout(message: &str, value: &[u8], out: Vec<u8>)
    requires
        call_ensures(encode_any, (message, value), out),
    ensures
        ({
            let url = encode_utf8("type.googleapis.com/arrow.flight.protocol.sql."@ + message@);
            &&& type_url(message@) == "type.googleapis.com/arrow.flight.protocol.sql."@ + message@
            &&& out@ == seq![0x0au8] + varint::varint_bytes(url.len()) + url + seq![0x12u8]
                + varint::varint_bytes(value@.len()) + value@
        }),
{
    lemma_type_url(message@);
    let url = encode_utf8(type_url(message@));
    wire::field_layout(1, url);
    wire::field_layout(2, value@);
    assert(out@ =~= seq![0x0au8] + varint::varint_bytes(url.len()) + url + seq![0x12u8]
        + varint::varint_bytes(value@.len()) + value@);
}

/// What type URLs begin with.
pub(crate) proof fn lemma_type_url(name: Seq<char>)
    ensures
        type_url(name) == "type.googleapis.com/arrow.flight.protocol.sql."@ + name,
{
    reveal_strlit("type.googleapis.com/");
    reveal_strlit("arrow.flight.protocol.sql");
    reveal_strlit(".");
    reveal_strlit("type.googleapis.com/arrow.flight.protocol.sql.");
    assert(TYPE_HOST@ + SQL_PKG@ + "."@ =~= "type.googleapis.com/arrow.flight.protocol.sql."@);
}

/// What is read from a message that was built as an `Any`: the type URL, with
/// the name of the message at its end, and the value.
pub proof fn any_is_read_back(
    message: &str,
    value: &[u8],
    blob: &[u8],
    out: Vec<u8>,
    read: (String, Vec<u8>),
)
    requires
        call_ensures(encode_any, (message, value), out),
        blob@ == out@,
        call_ensures(decode_any, (blob,), read),
        encode_utf8("type.googleapis.com/arrow.flight.protocol.sql."@ + message@).len()
            <= wire::MAX_PAYLOAD,
        value@.len() <= wire::MAX_PAYLOAD,
    ensures
        read.0@ == "type.googleapis.com/arrow.flight.protocol.sql."@ + message@,
        read.1@ == value@,
{
    lemma_type_url(message@);
    any_round_trip(message@, value@);
}

/// The type URL is the text of the last field of number 1 that is a text, and
/// the value the payload of the last field of number 2: a field behind them
/// takes their place where it is such a field, and changes nothing where it is
/// not.
pub proof fn last_field_counts(fields: Seq<wire::WireField>, field: wire::WireField)
    ensures
        url_of(fields.push(field)) == (if field.0 == 1 && field.1 == 2 && valid_utf8(field.2) {
            decode_utf8(field.2)
        } else {
            url_of(fields)
        }),
        value_of(fields.push(field)) == (if field.0 == 2 && field.1 == 2 {
            field.2
        } else {
            value_of(fields)
        }),
        url_of(Seq::<wire::WireField>::empty()) == Seq::<char>::empty(),
        value_of(Seq::<wire::WireField>::empty()) == Seq::<u8>::empty(),
{
    assert(fields.push(field).drop_last() =~= fields);
}

} // verus!
