use ladybug_adbc::varint::read_varint;
use ladybug_adbc::{
    action_close_prepared_statement_request, action_create_prepared_statement_request,
    any_command_prepared_statement_query, any_command_statement_query, decode_any, decode_fields,
    decode_ticket_handle, encode_any, encode_create_prepared_statement_result, encode_ld,
    encode_varint, extract_query, get_bytes, get_str, looks_like_query,
    parse_close_prepared_statement_request, parse_create_prepared_statement_request,
    parse_create_prepared_statement_result, ticket_statement_query,
};

#[test]
fn raw_and_protobuf_extract() {
    assert_eq!(
        extract_query(b"MATCH (u:User) RETURN u.name"),
        "MATCH (u:User) RETURN u.name"
    );
    let mut inner = encode_ld(1, b"MATCH (u:User) RETURN u.name");
    let _ = &mut inner;
    let blob = {
        let mut b = encode_ld(
            1,
            b"type.googleapis.com/arrow.flight.protocol.sql.CommandStatementQuery",
        );
        b.extend_from_slice(&encode_ld(2, &inner));
        b
    };
    assert_eq!(extract_query(&blob), "MATCH (u:User) RETURN u.name");
}

#[test]
fn test_extract_query_raw_and_protobuf() {
    assert_eq!(
        extract_query(b"MATCH (u:User) RETURN u.name"),
        "MATCH (u:User) RETURN u.name"
    );
    // Proper FlightSQL Any(CommandStatementQuery{query}) encoding.
    let inner = ladybug_adbc::encode_ld(1, b"MATCH (u:User) RETURN u.name");
    let mut blob = ladybug_adbc::encode_ld(
        1,
        b"type.googleapis.com/arrow.flight.protocol.sql.CommandStatementQuery",
    );
    blob.extend_from_slice(&ladybug_adbc::encode_ld(2, &inner));
    assert_eq!(extract_query(&blob), "MATCH (u:User) RETURN u.name");
}

#[test]
fn varints_are_little_endian_groups_of_seven_bits() {
    assert_eq!(encode_varint(0), vec![0]);
    assert_eq!(encode_varint(127), vec![0x7f]);
    assert_eq!(encode_varint(128), vec![0x80, 0x01]);
    assert_eq!(encode_varint(300), vec![0xac, 0x02]);
    let mut largest = vec![0xff; 9];
    largest.push(0x01);
    assert_eq!(encode_varint(u64::MAX), largest);
}

#[test]
fn varints_are_read_back() {
    for value in [0u64, 1, 127, 128, 16_383, 16_384, 1 << 35, u64::MAX] {
        let mut bytes = encode_varint(value);
        let len = bytes.len();
        bytes.push(0x55);
        assert_eq!(read_varint(&bytes, 0), Some((value, len)));
    }
    assert_eq!(read_varint(&[0x80, 0x80], 0), None);
    assert_eq!(read_varint(&[0x80; 11], 0), None);
}

#[test]
fn length_delimited_fields() {
    assert_eq!(encode_ld(1, b"hi"), vec![0x0a, 2, b'h', b'i']);
    assert_eq!(decode_fields(&encode_ld(1, b"hi")), vec![(1, 2, b"hi".to_vec())]);
    // Field numbers keep their low 29 bits.
    assert_eq!(encode_ld(0x2000_0001, b""), vec![0x0a, 0]);
}

#[test]
fn fields_of_every_wire_type() {
    let mut blob = vec![0x08, 0x96, 0x01];
    blob.extend_from_slice(&[0x11, 1, 2, 3, 4, 5, 6, 7, 8]);
    blob.extend_from_slice(&encode_ld(3, b"abc"));
    blob.extend_from_slice(&[0x25, 9, 8, 7, 6]);
    assert_eq!(
        decode_fields(&blob),
        vec![
            (1, 0, vec![0x96, 0x01]),
            (2, 1, vec![1, 2, 3, 4, 5, 6, 7, 8]),
            (3, 2, b"abc".to_vec()),
            (4, 5, vec![9, 8, 7, 6]),
        ]
    );
}

#[test]
fn reading_stops_where_no_field_is() {
    assert_eq!(decode_fields(&[]), vec![]);
    // A wire type that is not known.
    let mut blob = encode_ld(1, b"x");
    blob.push(0x0b);
    assert_eq!(decode_fields(&blob), vec![(1, 2, b"x".to_vec())]);
    // Too few bytes.
    assert_eq!(decode_fields(&[0x0a, 5, 1, 2]), vec![]);
    assert_eq!(decode_fields(&[0x09, 1, 2, 3]), vec![]);
    assert_eq!(decode_fields(&[0x0d, 1, 2]), vec![]);
    assert_eq!(decode_fields(&[0x80; 10]), vec![]);
    // A varint that does not end is taken as far as it goes.
    assert_eq!(decode_fields(&[0x08, 0x80, 0x80]), vec![(1, 0, vec![0x80, 0x80])]);
}

#[test]
fn payloads_over_the_limit_are_not_read() {
    let limit = 50_000_000;
    let fits = encode_ld(1, &vec![7; limit]);
    assert_eq!(decode_fields(&fits)[0].2.len(), limit);
    let too_long = encode_ld(1, &vec![7; limit + 1]);
    assert_eq!(decode_fields(&too_long), vec![]);
}

#[test]
fn first_field_of_a_number() {
    let mut blob = encode_ld(1, b"first");
    blob.extend_from_slice(&encode_ld(1, b"second"));
    let fields = decode_fields(&blob);
    assert_eq!(get_str(&fields, 1), "first");
    assert_eq!(get_bytes(&fields, 1), b"first");
    assert_eq!(get_str(&fields, 2), "");
    assert_eq!(get_bytes(&fields, 2), b"");
    // A field of another wire type does not count.
    assert_eq!(get_str(&decode_fields(&[0x08, 0x41]), 1), "");
    // Bytes that are not UTF-8 are repaired.
    assert_eq!(get_str(&decode_fields(&encode_ld(1, b"a\xffb")), 1), "a\u{fffd}b");
}

#[test]
fn any_wrapper_round_trip() {
    let blob = encode_any("Thing", b"payload");
    let (url, value) = decode_any(&blob);
    assert_eq!(url, "type.googleapis.com/arrow.flight.protocol.sql.Thing");
    assert_eq!(value, b"payload");
}

#[test]
fn any_wrapper_takes_the_last_of_each() {
    let mut blob = encode_ld(1, b"one");
    blob.extend_from_slice(&encode_ld(2, b"x"));
    blob.extend_from_slice(&encode_ld(1, b"two"));
    blob.extend_from_slice(&encode_ld(2, b"y"));
    blob.extend_from_slice(&encode_ld(1, b"\xff"));
    assert_eq!(decode_any(&blob), ("two".to_string(), b"y".to_vec()));
    assert_eq!(decode_any(b""), (String::new(), Vec::new()));
}

#[test]
fn query_words() {
    assert!(looks_like_query("match (n) return n"));
    assert!(looks_like_query("(CALL)"));
    assert!(looks_like_query("x;Explain"));
    assert!(!looks_like_query("MATCHES"));
    assert!(!looks_like_query("_MATCH"));
    assert!(!looks_like_query("RETURN1"));
    assert!(!looks_like_query(""));
    assert!(looks_like_query("é SHOW é"));
}

#[test]
fn query_from_plain_text_is_trimmed() {
    assert_eq!(extract_query(b"  RETURN 1\n"), "RETURN 1");
    assert_eq!(extract_query("\u{3000}RETURN 1\u{a0}".as_bytes()), "RETURN 1");
    // Text that does not look like a query is taken as it is.
    assert_eq!(extract_query(b" hello "), "hello");
    assert_eq!(extract_query(b""), "");
}

#[test]
fn blank_text_has_no_query() {
    assert_eq!(extract_query(b" \n\t "), "");
    // The bytes read as a field whose payload is not UTF-8.
    let text = "\n\n\u{3000}\u{3000}\u{3000}\u{3000}";
    let fields = decode_fields(text.as_bytes());
    assert_eq!(fields[0].0, 1);
    assert!(String::from_utf8(fields[0].2.clone()).is_err());
    assert_eq!(extract_query(text.as_bytes()), "");
}

#[test]
fn invalid_bytes_become_replacement_characters() {
    let text = get_str(&decode_fields(&encode_ld(1, b"\xf0\x9f\x98a\xff\xfeb")), 1);
    assert_eq!(text, "\u{fffd}a\u{fffd}\u{fffd}b");
}

#[test]
fn query_from_a_wrapped_command_is_trimmed() {
    assert_eq!(extract_query(&any_command_statement_query(" RETURN 1 ")), "RETURN 1");
    assert_eq!(extract_query(&action_create_prepared_statement_request(" foo ")), "foo");
}

#[test]
fn query_from_a_bare_field() {
    // The length byte is the letter A, which hides the only keyword.
    let query = format!("CALL {}", "x".repeat(60));
    assert_eq!(query.len(), 65);
    assert_eq!(extract_query(&encode_ld(1, query.as_bytes())), query);
    // Elsewhere the length byte stays in front of the text.
    assert_eq!(
        extract_query(&encode_ld(1, b"MATCH (n) RETURN n")),
        "\u{12}MATCH (n) RETURN n"
    );
}

#[test]
fn query_from_the_longest_nested_field() {
    let short = format!("CALL {}", "x".repeat(60));
    let long = format!("CALL {}", "y".repeat(62));
    let mut blob = encode_ld(2, short.as_bytes());
    blob.extend_from_slice(&encode_ld(3, long.as_bytes()));
    assert_eq!(extract_query(&blob), long);
    // A field that speaks of message types is no query.
    let named = format!("CALL arrow.flight {}", "z".repeat(62));
    assert_eq!(named.len(), 80);
    let mut blob = encode_ld(2, named.as_bytes());
    blob.extend_from_slice(&encode_ld(3, short.as_bytes()));
    assert_eq!(extract_query(&blob), short);
}

#[test]
fn ticket_handles() {
    assert_eq!(decode_ticket_handle(&ticket_statement_query(b"abc")), b"abc");
    assert_eq!(ticket_statement_query(b"abc"), vec![0x0a, 3, b'a', b'b', b'c']);
    // A message that is wrapped without a type URL.
    assert_eq!(decode_ticket_handle(&encode_ld(2, &encode_ld(1, b"abc"))), b"abc");
    assert_eq!(decode_ticket_handle(b"xyz"), b"xyz");
    assert_eq!(decode_ticket_handle(b""), b"");
}

#[test]
fn create_requests() {
    let wrapped = action_create_prepared_statement_request(" RETURN 1 ");
    assert_eq!(parse_create_prepared_statement_request(&wrapped), " RETURN 1 ");
    assert_eq!(parse_create_prepared_statement_request(&encode_ld(1, b"RETURN 2")), "RETURN 2");
    assert_eq!(parse_create_prepared_statement_request(b" RETURN 3 "), "RETURN 3");
    // An empty query leaves the type URL as the first text.
    assert_eq!(
        parse_create_prepared_statement_request(&action_create_prepared_statement_request("")),
        "type.googleapis.com/arrow.flight.protocol.sql.ActionCreatePreparedStatementRequest"
    );
}

#[test]
fn create_results() {
    let body = encode_create_prepared_statement_result(b"handle", b"schema");
    let (handle, schema) = parse_create_prepared_statement_result(&body);
    assert_eq!(handle, b"handle");
    assert_eq!(schema, b"schema");
    // Not wrapped.
    let mut bare = encode_ld(1, b"h");
    assert_eq!(parse_create_prepared_statement_result(&bare), (b"h".to_vec(), Vec::new()));
    bare.extend_from_slice(&encode_ld(3, b"s"));
    assert_eq!(parse_create_prepared_statement_result(&bare), (b"h".to_vec(), Vec::new()));
    assert_eq!(parse_create_prepared_statement_result(b""), (Vec::new(), Vec::new()));
}

#[test]
fn close_requests() {
    let body = action_close_prepared_statement_request(b"handle");
    assert_eq!(parse_close_prepared_statement_request(&body), b"handle");
    let wrapped = encode_any("ActionClosePreparedStatementRequest", &body);
    assert_eq!(parse_close_prepared_statement_request(&wrapped), b"handle");
    assert_eq!(parse_close_prepared_statement_request(b"xyz"), b"xyz");
}

#[test]
fn prepared_commands() {
    let (url, value) = decode_any(&any_command_prepared_statement_query(b"h"));
    assert_eq!(
        url,
        "type.googleapis.com/arrow.flight.protocol.sql.CommandPreparedStatementQuery"
    );
    assert_eq!(decode_fields(&value), vec![(1, 2, b"h".to_vec())]);
}
