//! The fields of a protobuf message: a tag, which holds a field number and a
//! wire type, and a payload whose extent the wire type tells.

use crate::text;
use crate::text::utf8_lossy;
use crate::varint;
use crate::varint::{encode_varint, read_varint};
use vstd::prelude::*;
use vstd::slice::*;

verus! {

/// The longest payload that a length-delimited field is read with.
pub const MAX_PAYLOAD: u64 = 50_000_000;

/// A field as it is read: its number, its wire type and its raw payload.
pub type WireField = (u32, u8, Seq<u8>);

/// The bytes of a length-delimited field. The number keeps its low 29 bits.
pub open spec fn length_delimited(number: u32, payload: Seq<u8>) -> Seq<u8> {
    varint::varint_bytes((number as nat % 0x2000_0000) * 8 + 2) + varint::varint_bytes(
        payload.len(),
    ) + payload
}

/// How many bytes the payload of a field of wire type `wire` takes at the head
/// of `s`, the length prefix not counted, and how many the prefix takes.
/// `None` where `s` is too short, the length too large, or the type unknown.
pub open spec fn payload_extent(wire: u8, s: Seq<u8>) -> Option<(nat, nat)> {
    if wire == 0 {
        let n = varint::continued(s) + 1;
        Some((0, if n <= s.len() { n } else { s.len() }))
    } else if wire == 1 {
        if 8 <= s.len() { Some((0, 8)) } else { None }
    } else if wire == 2 {
        match varint::leading_varint(s) {
            Some((length, n)) => if length <= MAX_PAYLOAD && n + length <= s.len() {
                Some((n, length as nat))
            } else {
                None
            },
            None => None,
        }
    } else if wire == 5 {
        if 4 <= s.len() { Some((0, 4)) } else { None }
    } else {
        None
    }
}

/// The field at the head of `s`, with the number of its bytes.
pub open spec fn leading_field(s: Seq<u8>) -> Option<(WireField, nat)> {
    match varint::leading_varint(s) {
        Some((tag, n)) => {
            let number = (tag as nat / 8 % 0x1_0000_0000) as u32;
            let wire = (tag % 8) as u8;
            let rest = s.skip(n as int);
            match payload_extent(wire, rest) {
                Some((prefix, length)) => Some(
                    (
                        (number, wire, rest.subrange(prefix as int, (prefix + length) as int)),
                        n + prefix + length,
                    ),
                ),
                None => None,
            }
        },
        None => None,
    }
}

/// The fields of the message `s`, up to the first place where no field can be
/// read.
pub open spec fn message_fields(s: Seq<u8>) -> Seq<WireField>
    decreases s.len(),
{
    match leading_field(s) {
        Some((field, n)) => {
            proof {
                lemma_leading_field(s);
            }
            seq![field] + message_fields(s.skip(n as int))
        },
        None => Seq::empty(),
    }
}

/// The payload of the first length-delimited field with this number.
pub open spec fn first_payload(fields: Seq<WireField>, number: u32) -> Option<Seq<u8>>
    decreases fields.len(),
{
    if fields.len() == 0 {
        None
    } else if fields[0].0 == number && fields[0].1 == 2 {
        Some(fields[0].2)
    } else {
        first_payload(fields.drop_first(), number)
    }
}

/// The bytes of the first length-delimited field with this number, or none.
pub open spec fn field_bytes(fields: Seq<WireField>, number: u32) -> Seq<u8> {
    match first_payload(fields, number) {
        Some(payload) => payload,
        None => Seq::empty(),
    }
}

/// The text of the first length-delimited field with this number, or none.
pub open spec fn field_text(fields: Seq<WireField>, number: u32) -> Seq<char> {
    match first_payload(fields, number) {
        Some(payload) => text::lossy_text(payload),
        None => Seq::empty(),
    }
}

/// A length-delimited field that is read gives back the payload that was
/// written, and its number in 29 bits, whatever follows it.
pub proof fn field_round_trip(number: u32, payload: Seq<u8>, rest: Seq<u8>)
    requires
        payload.len() <= MAX_PAYLOAD,
    ensures
        message_fields(length_delimited(number, payload) + rest) == seq![
            ((number % 0x2000_0000) as u32, 2u8, payload),
        ] + message_fields(rest),
{
    let whole = length_delimited(number, payload) + rest;
    let tag = ((number as nat % 0x2000_0000) * 8 + 2) as u64;
    let head = varint::varint_bytes(tag as nat);
    let length = varint::varint_bytes(payload.len());
    let behind = whole.skip(head.len() as int);
    varint::varint_round_trip(tag, length + payload + rest);
    assert(whole =~= head + (length + payload + rest));
    assert(behind =~= length + (payload + rest));
    varint::varint_round_trip(payload.len() as u64, payload + rest);
    assert(behind.subrange(length.len() as int, (length.len() + payload.len()) as int) =~= payload);
    assert(whole.skip((head.len() + length.len() + payload.len()) as int) =~= rest);
}

/// The bytes of a length-delimited field with a low number: a byte that holds
/// the number in its five high bits and 2 in its three low ones, the length as
/// a varint, and the payload.
pub proof fn field_layout(number: u32, payload: Seq<u8>)
    requires
        number < 16,
    ensures
        length_delimited(number, payload) == seq![(number * 8 + 2) as u8] + varint::varint_bytes(
            payload.len(),
        ) + payload,
        length_delimited(1, payload)[0] == 0x0a,
        length_delimited(2, payload)[0] == 0x12,
{
    assert(varint::varint_bytes((number * 8 + 2) as nat) =~= seq![(number * 8 + 2) as u8]);
    assert(varint::varint_bytes(10) =~= seq![10u8]);
    assert(varint::varint_bytes(18) =~= seq![18u8]);
}

/// A payload longer than the limit is not read, nor is anything behind it.
pub proof fn overlong_field_ends_message(number: u32, payload: Seq<u8>, rest: Seq<u8>)
    requires
        MAX_PAYLOAD < payload.len() <= u64::MAX,
    ensures
        message_fields(length_delimited(number, payload) + rest) == Seq::<WireField>::empty(),
{
    let whole = length_delimited(number, payload) + rest;
    let tag = ((number as nat % 0x2000_0000) * 8 + 2) as u64;
    let head = varint::varint_bytes(tag as nat);
    let length = varint::varint_bytes(payload.len());
    varint::varint_round_trip(tag, length + payload + rest);
    assert(whole =~= head + (length + payload + rest));
    assert(whole.skip(head.len() as int) =~= length + (payload + rest));
    varint::varint_round_trip(payload.len() as u64, payload + rest);
}

/// A field takes at least one byte and no more than there are.
pub proof fn lemma_leading_field(s: Seq<u8>)
    ensures
        leading_field(s) matches Some((_, n)) ==> 0 < n <= s.len(),
{
}

/// Whether `part` stands in `s` from `a` to `b`.
pub open spec fn is_part(s: Seq<u8>, part: Seq<u8>, a: int, b: int) -> bool {
    0 <= a <= b <= s.len() && part == s.subrange(a, b)
}

/// The payload of a field is a part of the message.
pub proof fn payload_is_part(s: Seq<u8>, k: int)
    requires
        0 <= k < message_fields(s).len(),
    ensures
        exists|a: int, b: int| is_part(s, message_fields(s)[k].2, a, b),
    decreases s.len(),
{
    lemma_leading_field(s);
    let (field, n) = leading_field(s)->0;
    if k == 0 {
        let (_, tag_len) = varint::leading_varint(s)->0;
        let rest = s.skip(tag_len as int);
        let (prefix, length) = payload_extent(field.1, rest)->0;
        let a = (tag_len + prefix) as int;
        assert(field.2 =~= s.subrange(a, a + length));
        assert(is_part(s, message_fields(s)[0].2, a, a + length));
    } else {
        let tail = s.skip(n as int);
        payload_is_part(tail, k - 1);
        let payload = message_fields(tail)[k - 1].2;
        let (a, b) = choose|a: int, b: int| is_part(tail, payload, a, b);
        assert(tail.subrange(a, b) =~= s.subrange(a + n, b + n));
        assert(is_part(s, message_fields(s)[k].2, a + n, b + n));
    }
}

/// Encodes a length-delimited field.
pub fn encode_ld(field: u32, payload: &[u8]) -> (out: Vec<u8>)
    ensures
        out@ == length_delimited(field, payload@),
{
    assert((field << 3) | 2 == (field % 0x2000_0000) * 8 + 2) by (bit_vector);
    let mut out: Vec<u8> = encode_varint(((field << 3) | 2) as u64);
    let mut length: Vec<u8> = encode_varint(payload.len() as u64);
    let mut body: Vec<u8> = slice_to_vec(payload);
    out.append(&mut length);
    out.append(&mut body);
    out
}

/// The end of the varint that stands in `blob` at `start`, or the end of
/// `blob` where the varint does not end before.
fn skip_varint(blob: &[u8], start: usize) -> (end: usize)
    requires
        start <= blob.len(),
    ensures
        payload_extent(0, blob@.skip(start as int)) == Some((0nat, (end - start) as nat)),
        start <= end <= blob.len(),
{
    let ghost s = blob@.skip(start as int);
    let mut j: usize = start;
    while j < blob.len()
        invariant
            start <= j <= blob.len(),
            s == blob@.skip(start as int),
            forall|i: int| 0 <= i < j - start ==> s[i] >= 128,
        decreases blob.len() - j,
    {
        let b: u8 = blob[j];
        assert(b & 0x80 == 0 <==> b < 128) by (bit_vector);
        assert(s[j - start] == b);
        if b & 0x80 == 0 {
            proof {
                varint::lemma_continued(s, j - start);
            }
            return j + 1;
        }
        j = j + 1;
    }
    proof {
        varint::lemma_continued(s, s.len() as int);
    }
    j
}

/// Reads the field that stands in `blob` at `start`, and gives it with the
/// index behind it.
pub fn read_field(blob: &[u8], start: usize) -> (r: Option<((u32, u8, Vec<u8>), usize)>)
    requires
        start <= blob.len(),
    ensures
        match leading_field(blob@.skip(start as int)) {
            Some((field, n)) => r matches Some((f, end)) && f.deep_view() == field && end == start
                + n,
            None => r is None,
        },
{
    let ghost s = blob@.skip(start as int);
    let (tag, at) = match read_varint(blob, start) {
        Some(found) => found,
        None => {
            return None;
        },
    };
    assert(tag & 0x7 == tag % 8) by (bit_vector);
    assert(tag >> 3 == tag / 8) by (bit_vector);
    assert((tag >> 3) as u32 == (tag / 8) % 0x1_0000_0000) by (bit_vector);
    let wire: u8 = (tag & 0x7) as u8;
    let number: u32 = #[verifier::truncate] ((tag >> 3) as u32);
    let n: usize = blob.len();
    let ghost rest = s.skip(at - start);
    assert(rest =~= blob@.skip(at as int));
    let (from, to): (usize, usize) = if wire == 2 {
        match read_varint(blob, at) {
            Some((length, from)) => {
                if length > MAX_PAYLOAD || length as usize > n - from {
                    return None;
                }
                (from, from + length as usize)
            },
            None => {
                return None;
            },
        }
    } else if wire == 0 {
        (at, skip_varint(blob, at))
    } else if wire == 1 {
        if n - at < 8 {
            return None;
        }
        (at, at + 8)
    } else if wire == 5 {
        if n - at < 4 {
            return None;
        }
        (at, at + 4)
    } else {
        return None;
    };
    let payload: Vec<u8> = slice_to_vec(slice_subrange(blob, from, to));
    assert(payload@ =~= rest.subrange(from - at, to - at));
    Some(((number, wire, payload), to))
}

/// Reads the top-level fields of a message: for each its number, its wire
/// type and its raw payload.
pub fn decode_fields(blob: &[u8]) -> (fields: Vec<(u32, u8, Vec<u8>)>)
    ensures
        fields.deep_view() == message_fields(blob@),
{
    let mut fields: Vec<(u32, u8, Vec<u8>)> = Vec::new();
    let mut i: usize = 0;
    let ghost s = blob@;
    assert(s.skip(0) =~= s);
    loop
        invariant_except_break
            i <= blob.len(),
            message_fields(s) =~= fields.deep_view() + message_fields(s.skip(i as int)),
        invariant
            s == blob@,
        ensures
            fields.deep_view() == message_fields(s),
        decreases blob.len() - i,
    {
        proof {
            lemma_leading_field(s.skip(i as int));
        }
        match read_field(blob, i) {
            Some((field, end)) => {
                let ghost before = fields.deep_view();
                let ghost shown = field.deep_view();
                fields.push(field);
                assert(fields.deep_view() =~= before.push(shown));
                assert(s.skip(i as int).skip(end - i) =~= s.skip(end as int));
                i = end;
            },
            None => {
                break;
            },
        }
    }
    fields
}

/// The payload of the first length-delimited field with this number.
fn find_payload(fields: &[(u32, u8, Vec<u8>)], field_no: u32) -> (r: Option<Vec<u8>>)
    ensures
        first_payload(fields.deep_view(), field_no) == (match r {
            Some(payload) => Some(payload@),
            None => None,
        }),
{
    let ghost all = fields.deep_view();
    let mut i: usize = 0;
    assert(all.skip(0) =~= all);
    while i < fields.len()
        invariant
            i <= fields.len(),
            all == fields.deep_view(),
            first_payload(all, field_no) == first_payload(all.skip(i as int), field_no),
        decreases fields.len() - i,
    {
        let field: &(u32, u8, Vec<u8>) = &fields[i];
        assert(all.skip(i as int)[0] == fields[i as int].deep_view());
        if field.0 == field_no && field.1 == 2 {
            return Some(slice_to_vec(field.2.as_slice()));
        }
        assert(all.skip(i as int).drop_first() =~= all.skip(i + 1));
        i = i + 1;
    }
    None
}

/// The text of the first length-delimited field with this number, or the
/// empty text.
pub fn get_str(fields: &[(u32, u8, Vec<u8>)], field_no: u32) -> (r: String)
    ensures
        r@ == field_text(fields.deep_view(), field_no),
{
    match find_payload(fields, field_no) {
        Some(payload) => utf8_lossy(payload.as_slice()),
        None => String::new(),
    }
}

/// The bytes of the first length-delimited field with this number, or none.
pub fn get_bytes(fields: &[(u32, u8, Vec<u8>)], field_no: u32) -> (r: Vec<u8>)
    ensures
        r@ == field_bytes(fields.deep_view(), field_no),
{
    match find_payload(fields, field_no) {
        Some(payload) => payload,
        None => Vec::new(),
    }
}

/// The text of the first length-delimited field of the message `blob` with
/// this number, or the empty text.
pub(crate) fn message_text(blob: &[u8], field_no: u32) -> (r: String)
    ensures
        r@ == field_text(message_fields(blob@), field_no),
{
    let fields: Vec<(u32, u8, Vec<u8>)> = decode_fields(blob);
    let found: &[(u32, u8, Vec<u8>)] = fields.as_slice();
    assert(found.deep_view() =~= fields.deep_view());
    get_str(found, field_no)
}

/// The bytes of the first length-delimited field of the message `blob` with
/// this number, or none.
pub(crate) fn message_bytes(blob: &[u8], field_no: u32) -> (r: Vec<u8>)
    ensures
        r@ == field_bytes(message_fields(blob@), field_no),
{
    let fields: Vec<(u32, u8, Vec<u8>)> = decode_fields(blob);
    let found: &[(u32, u8, Vec<u8>)] = fields.as_slice();
    assert(found.deep_view() =~= fields.deep_view());
    get_bytes(found, field_no)
}

/// A field of a fixed width, or one that is a varint of any length, is read with
/// its number and its bytes, and what follows is read behind it.
pub proof fn unprefixed_fields_are_read(number: u32, wire: u8, payload: Seq<u8>, rest: Seq<u8>)
    requires
        number < 0x2000_0000,
        ({
            ||| {
                &&& wire == 0
                &&& payload.len() > 0
                &&& forall|i: int| 0 <= i < payload.len() - 1 ==> #[trigger] payload[i] >= 128
                &&& payload.last() < 128 || rest.len() == 0
            }
            ||| wire == 1 && payload.len() == 8
            ||| wire == 5 && payload.len() == 4
        }),
    ensures
        message_fields(varint::varint_bytes((number * 8 + wire) as nat) + payload + rest) == seq![
            (number, wire, payload),
        ] + message_fields(rest),
{
    let tag = (number * 8 + wire) as u64;
    let head = varint::varint_bytes(tag as nat);
    let whole = head + payload + rest;
    let behind = whole.skip(head.len() as int);
    let n = payload.len() as int;
    varint::varint_round_trip(tag, payload + rest);
    assert(whole =~= head + (payload + rest));
    assert(behind =~= payload + rest);
    assert(tag / 8 == number && tag % 8 == wire);
    if wire == 0 {
        assert forall|i: int| 0 <= i < n - 1 implies behind[i] >= 128 by {
            assert(payload[i] >= 128);
        }
        varint::lemma_continued(behind, n - 1);
        assert(behind.skip(n - 1)[0] == payload[n - 1]);
        if payload.last() >= 128 {
            varint::lemma_continued(behind, n);
        }
    }
    assert(behind.subrange(0, n) =~= payload);
    assert(whole.skip((head.len() + payload.len()) as int) =~= rest);
}

/// The number of a field keeps 32 bits of what its tag holds.
pub proof fn numbers_keep_32_bits(tag: u64, payload: Seq<u8>, rest: Seq<u8>)
    requires
        tag % 8 == 2,
        payload.len() <= MAX_PAYLOAD,
    ensures
        message_fields(
            varint::varint_bytes(tag as nat) + varint::varint_bytes(payload.len()) + payload + rest,
        ) == seq![((tag as nat / 8 % 0x1_0000_0000) as u32, 2u8, payload)] + message_fields(rest),
{
    let head = varint::varint_bytes(tag as nat);
    let length = varint::varint_bytes(payload.len());
    let whole = head + length + payload + rest;
    let behind = whole.skip(head.len() as int);
    varint::varint_round_trip(tag, length + payload + rest);
    assert(whole =~= head + (length + payload + rest));
    assert(behind =~= length + (payload + rest));
    varint::varint_round_trip(payload.len() as u64, payload + rest);
    assert(behind.subrange(length.len() as int, (length.len() + payload.len()) as int) =~= payload);
    assert(whole.skip((head.len() + length.len() + payload.len()) as int) =~= rest);
}

/// A payload of up to fifty million bytes is read, and a longer one ends the
/// message.
pub proof fn payloads_are_limited(number: u32, payload: Seq<u8>, rest: Seq<u8>)
    requires
        number < 0x2000_0000,
        payload.len() <= u64::MAX,
    ensures
        payload.len() <= 50_000_000 ==> message_fields(length_delimited(number, payload) + rest)
            == seq![(number, 2u8, payload)] + message_fields(rest),
        payload.len() > 50_000_000 ==> message_fields(length_delimited(number, payload) + rest).len()
            == 0,
{
    if payload.len() <= 50_000_000 {
        field_round_trip(number, payload, rest);
    } else {
        overlong_field_ends_message(number, payload, rest);
    }
}

/// A field of an unknown type ends the message, and so does one of a fixed width
/// that is cut short.
pub proof fn unreadable_fields_end_the_message(number: u32, wire: u8, rest: Seq<u8>)
    requires
        number < 0x2000_0000,
        ({
            ||| wire == 3 || wire == 4 || wire == 6 || wire == 7
            ||| wire == 1 && rest.len() < 8
            ||| wire == 5 && rest.len() < 4
        }),
    ensures
        message_fields(varint::varint_bytes((number * 8 + wire) as nat) + rest) == Seq::<
            WireField,
        >::empty(),
{
    let tag = (number * 8 + wire) as u64;
    let head = varint::varint_bytes(tag as nat);
    let whole = head + rest;
    varint::varint_round_trip(tag, rest);
    assert(whole.skip(head.len() as int) =~= rest);
    assert(tag / 8 == number && tag % 8 == wire);
}

/// A field whose payload is cut short ends the message.
pub proof fn cut_field_ends_the_message(number: u32, payload: Seq<u8>, n: int)
    requires
        payload.len() <= MAX_PAYLOAD,
        0 <= n < payload.len(),
    ensures
        message_fields(
            varint::varint_bytes((number as nat % 0x2000_0000) * 8 + 2) + varint::varint_bytes(
                payload.len(),
            ) + payload.take(n),
        ) == Seq::<WireField>::empty(),
{
    let tag = ((number as nat % 0x2000_0000) * 8 + 2) as u64;
    let head = varint::varint_bytes(tag as nat);
    let length = varint::varint_bytes(payload.len());
    let whole = head + length + payload.take(n);
    varint::varint_round_trip(tag, length + payload.take(n));
    assert(whole =~= head + (length + payload.take(n)));
    assert(whole.skip(head.len() as int) =~= length + payload.take(n));
    varint::varint_round_trip(payload.len() as u64, payload.take(n));
}

/// The fields that are written one behind the other are read again, in that
/// order, and nothing else.
pub proof fn written_fields_are_read(
    first: (u32, &[u8], Vec<u8>),
    second: (u32, &[u8], Vec<u8>),
    blob: &[u8],
    fields: Vec<(u32, u8, Vec<u8>)>,
)
    requires
        call_ensures(encode_ld, (first.0, first.1), first.2),
        call_ensures(encode_ld, (second.0, second.1), second.2),
        first.0 < 0x2000_0000,
        second.0 < 0x2000_0000,
        first.1@.len() <= MAX_PAYLOAD,
        second.1@.len() <= MAX_PAYLOAD,
        blob@ == first.2@ + second.2@,
        call_ensures(decode_fields, (blob,), fields),
    ensures
        fields.len() == 2,
        fields[0].0 == first.0 && fields[0].1 == 2 && fields[0].2@ == first.1@,
        fields[1].0 == second.0 && fields[1].1 == 2 && fields[1].2@ == second.1@,
{
    let shown = fields.deep_view();
    assert(shown.len() == fields.len());
    assert(shown == seq![(first.0, 2u8, first.1@), (second.0, 2u8, second.1@)]) by {
        lemma_two_fields(first.0, first.1@, second.0, second.1@);
    }
    assert(shown[0] == fields[0].deep_view());
    assert(shown[1] == fields[1].deep_view());
    assert(fields[0].2.deep_view() =~= fields[0].2@);
    assert(fields[1].2.deep_view() =~= fields[1].2@);
}

/// A message of two length-delimited fields.
proof fn lemma_two_fields(number: u32, payload: Seq<u8>, next: u32, more: Seq<u8>)
    requires
        number < 0x2000_0000,
        next < 0x2000_0000,
        payload.len() <= MAX_PAYLOAD,
        more.len() <= MAX_PAYLOAD,
    ensures
        message_fields(length_delimited(number, payload) + length_delimited(next, more)) == seq![
            (number, 2u8, payload),
            (next, 2u8, more),
        ],
{
    let second = length_delimited(next, more);
    field_round_trip(number, payload, second);
    field_round_trip(next, more, Seq::empty());
    assert(second + Seq::<u8>::empty() =~= second);
    assert(message_fields(Seq::<u8>::empty()).len() == 0);
    assert(message_fields(second) =~= seq![(next, 2u8, more)]);
    assert(message_fields(length_delimited(number, payload) + second) =~= seq![
        (number, 2u8, payload),
        (next, 2u8, more),
    ]);
}

/// What is found under a number is the payload of the first length-delimited
/// field with that number: a field in front takes its place where it is such a
/// field, and changes nothing where it is not. Where there is none, nothing is
/// found.
pub proof fn first_field_counts(
    field: WireField,
    fields: Seq<WireField>,
    number: u32,
    all: &[(u32, u8, Vec<u8>)],
    bytes: Vec<u8>,
    shown: String,
)
    requires
        all.deep_view() == seq![field] + fields,
        call_ensures(get_bytes, (all, number), bytes),
        call_ensures(get_str, (all, number), shown),
    ensures
        field.0 == number && field.1 == 2 ==> bytes@ == field.2 && shown@ == text::lossy_text(
            field.2,
        ),
        !(field.0 == number && field.1 == 2) ==> bytes@ == field_bytes(fields, number) && shown@
            == field_text(fields, number),
        field_bytes(Seq::<WireField>::empty(), number).len() == 0,
        field_text(Seq::<WireField>::empty(), number).len() == 0,
{
    assert((seq![field] + fields).drop_first() =~= fields);
}

/// The field that stands at an index is read with its number and its payload,
/// and with the index behind it, whatever stands around it.
pub proof fn field_is_read_in_place(
    before: Seq<u8>,
    number: u32,
    payload: Seq<u8>,
    rest: Seq<u8>,
    blob: &[u8],
    start: usize,
    r: Option<((u32, u8, Vec<u8>), usize)>,
)
    requires
        number < 0x2000_0000,
        payload.len() <= 50_000_000,
        blob@ == before + length_delimited(number, payload) + rest,
        start == before.len(),
        call_ensures(read_field, (blob, start), r),
    ensures
        r matches Some((field, end)) && field.0 == number && field.1 == 2 && field.2@ == payload
            && end == start + length_delimited(number, payload).len(),
{
    let whole = length_delimited(number, payload) + rest;
    assert(blob@.skip(start as int) =~= whole);
    let tag = (number * 8 + 2) as u64;
    let head = varint::varint_bytes(tag as nat);
    let length = varint::varint_bytes(payload.len());
    let behind = whole.skip(head.len() as int);
    varint::varint_round_trip(tag, length + payload + rest);
    assert(whole =~= head + (length + payload + rest));
    assert(behind =~= length + (payload + rest));
    varint::varint_round_trip(payload.len() as u64, payload + rest);
    assert(behind.subrange(length.len() as int, (length.len() + payload.len()) as int) =~= payload);
    let (f, n) = leading_field(whole)->0;
    assert(f == (number, 2u8, payload));
    assert(n == length_delimited(number, payload).len());
    let (field, end) = r->0;
    assert(field.deep_view() == f);
    assert(field.2.deep_view() =~= field.2@);
}

} // verus!
