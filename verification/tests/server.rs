use ladybug_adbc::server::{
    bad_query, demo_path, finish_schema, list_actions, show_tables_text, storage_for, unsupported,
    ActionStep, Descriptor, LadybugFlightServer, Ran, Refusal, StatusCode, Storage, SHOW_TABLES,
};
use ladybug_adbc::{
    action_close_prepared_statement_request, action_create_prepared_statement_request,
    any_command_prepared_statement_query, any_command_statement_query,
    parse_create_prepared_statement_result, ticket_statement_query,
};

fn server() -> LadybugFlightServer {
    LadybugFlightServer::new("grpc://127.0.0.1:50051".to_string())
}

fn said(refusal: Refusal) -> (StatusCode, String) {
    (refusal.code, refusal.message)
}

fn command(bytes: &[u8]) -> Descriptor {
    Descriptor::Command(bytes.to_vec())
}

fn ran(schema: &[u8], rows: usize, bytes: usize) -> Result<Ran, String> {
    Ok(Ran { schema: Ok(schema.to_vec()), rows, bytes })
}

#[test]
fn handles_are_fresh_and_hexadecimal() {
    let mut s = server();
    let a = s.store("RETURN 1".to_string());
    let b = s.store("RETURN 2".to_string());
    assert_ne!(a, b);
    assert_eq!(a.len(), 32);
    assert!(a.iter().all(|c| c.is_ascii_digit() || (b'a'..=b'f').contains(c)));
    assert_eq!(a[12], b'4');
    assert!(matches!(a[16], b'8' | b'9' | b'a' | b'b'));
    assert_eq!(s.lookup(&a).as_deref(), Some("RETURN 1"));
    assert_eq!(s.lookup(&b).as_deref(), Some("RETURN 2"));
    assert_eq!(s.lookup(b"other"), None);
}

#[test]
fn handles_that_are_not_text_are_repaired_before_they_are_looked_up() {
    let mut s = server();
    let handle = s.store_as("a\u{fffd}b".to_string(), "RETURN 1".to_string());
    assert_eq!(handle, "a\u{fffd}b".as_bytes());
    assert_eq!(s.lookup(b"a\xffb").as_deref(), Some("RETURN 1"));
}

#[test]
fn descriptors_resolve_to_queries() {
    let mut s = server();
    let handle = s.store_as("h".to_string(), " RETURN 1 ".to_string());
    assert_eq!(
        s.resolve_descriptor_query(&command(&any_command_prepared_statement_query(&handle)))
            .unwrap(),
        (" RETURN 1 ".to_string(), Some(b"h".to_vec()))
    );
    assert_eq!(
        s.resolve_descriptor_query(&command(&any_command_statement_query(" RETURN 2 "))).unwrap(),
        (" RETURN 2 ".to_string(), None)
    );
    assert_eq!(
        s.resolve_descriptor_query(&command(b" RETURN 3 ")).unwrap(),
        ("RETURN 3".to_string(), None)
    );
    let path = Descriptor::Path(vec!["MATCH (n)".to_string(), "RETURN n".to_string()]);
    assert_eq!(
        s.resolve_descriptor_query(&path).unwrap(),
        ("MATCH (n)\nRETURN n".to_string(), None)
    );
}

#[test]
fn unknown_handles_are_not_found() {
    let s = server();
    let asked = command(&any_command_prepared_statement_query(b"nothing"));
    assert_eq!(
        said(s.resolve_descriptor_query(&asked).unwrap_err()),
        (StatusCode::NotFound, "unknown prepared statement handle".to_string())
    );
}

#[test]
fn tickets_resolve_to_queries() {
    let mut s = server();
    let handle = s.store_as("h".to_string(), "RETURN 1".to_string());
    assert_eq!(s.resolve_ticket(&ticket_statement_query(&handle)).unwrap(), "RETURN 1");
    assert_eq!(s.resolve_ticket(b"h").unwrap(), "RETURN 1");
    // A ticket that names no statement is read as a query.
    assert_eq!(s.resolve_ticket(b" RETURN 2 ").unwrap(), "RETURN 2");
    assert_eq!(
        said(s.resolve_ticket(b"  ").unwrap_err()),
        (StatusCode::InvalidArgument, "empty query".to_string())
    );
}

#[test]
fn closing_any_handle_leaves_the_others() {
    let mut s = server();
    let kept = s.store("RETURN 1".to_string());
    let drawn = s.store("RETURN 2".to_string());
    for handle in [drawn.clone(), drawn.clone(), b"never held".to_vec()] {
        let body = action_close_prepared_statement_request(&handle);
        let ActionStep::Answer(answer) = s.begin_action("ClosePreparedStatement", &body) else {
            panic!("not closed");
        };
        assert!(answer.is_empty());
        assert_eq!(s.lookup(&handle), None);
        assert_eq!(s.lookup(&kept).as_deref(), Some("RETURN 1"));
    }
    assert_eq!(s.resolve_ticket(&ticket_statement_query(&kept)).unwrap(), "RETURN 1");
}

#[test]
fn closing_an_overlong_handle_leaves_the_others() {
    let mut s = server();
    let kept = s.store("RETURN 1".to_string());
    let overlong = vec![b'h'; 50_000_001];
    let body = action_close_prepared_statement_request(&overlong);
    assert!(matches!(s.begin_action("ClosePreparedStatement", &body), ActionStep::Answer(_)));
    assert_eq!(s.lookup(&overlong), None);
    assert_eq!(s.lookup(&kept).as_deref(), Some("RETURN 1"));
}

#[test]
fn failed_queries_are_reported() {
    assert_eq!(
        said(bad_query("empty query".to_string())),
        (StatusCode::InvalidArgument, "empty query".to_string())
    );
    assert_eq!(
        said(bad_query("ladybug query failed: x".to_string())),
        (StatusCode::Internal, "ladybug query failed: x".to_string())
    );
}

#[test]
fn schemas_are_given_or_refused() {
    assert_eq!(finish_schema(Ok(Ok(vec![1, 2]))).unwrap(), vec![1, 2]);
    assert_eq!(
        said(finish_schema(Ok(Err("odd".to_string()))).unwrap_err()),
        (StatusCode::Internal, "schema encode failed: odd".to_string())
    );
    assert_eq!(
        said(finish_schema(Err("no".to_string())).unwrap_err()),
        (StatusCode::Internal, "no".to_string())
    );
}

#[test]
fn a_statement_is_prepared_used_and_closed() {
    let mut s = server();
    let body = action_create_prepared_statement_request(" RETURN 1 ");
    let ActionStep::Prepare(query) = s.begin_action("CreatePreparedStatement", &body) else {
        panic!("not prepared");
    };
    assert_eq!(query, " RETURN 1 ");
    let answer = s.finish_prepare(query, Ok(Ok(b"schema".to_vec()))).unwrap();
    let (handle, schema) = parse_create_prepared_statement_result(&answer);
    assert_eq!(handle.len(), 32);
    assert_eq!(schema, b"schema");

    let asked = command(&any_command_prepared_statement_query(&handle));
    let (query, held) = s.resolve_descriptor_query(&asked).unwrap();
    assert_eq!(query, " RETURN 1 ");
    assert_eq!(held, Some(handle.clone()));
    let reply = s.finish_flight_info(query, held, ran(b"schema", 5, 640)).unwrap();
    assert_eq!(reply.schema, b"schema");
    assert_eq!(reply.ticket, ticket_statement_query(&handle));
    assert_eq!(reply.location, "grpc://127.0.0.1:50051");
    assert_eq!(reply.total_records, 5);
    assert_eq!(reply.total_bytes, 640);
    assert_eq!(s.resolve_ticket(&reply.ticket).unwrap(), " RETURN 1 ");

    let body = action_close_prepared_statement_request(&handle);
    let ActionStep::Answer(answer) = s.begin_action("ClosePreparedStatement", &body) else {
        panic!("not closed");
    };
    assert!(answer.is_empty());
    assert_eq!(s.lookup(&handle), None);
    assert_eq!(
        said(s.resolve_descriptor_query(&asked).unwrap_err()).0,
        StatusCode::NotFound
    );
}

#[test]
fn both_flows_run_the_same_query() {
    let mut s = server();
    let text = "  MATCH (u:User) RETURN u.name ";
    let (plain, none) = s.resolve_descriptor_query(&command(text.as_bytes())).unwrap();
    assert_eq!(none, None);
    let reply = s.finish_flight_info(plain.clone(), None, ran(b"", 0, 0)).unwrap();
    let body = action_create_prepared_statement_request(text);
    let ActionStep::Prepare(prepared) = s.begin_action("CreatePreparedStatement", &body) else {
        panic!("not prepared");
    };
    assert_eq!(plain.trim(), "MATCH (u:User) RETURN u.name");
    assert_eq!(prepared.trim(), plain.trim());
    assert_eq!(s.resolve_ticket(&reply.ticket).unwrap(), plain);
}

#[test]
fn nothing_is_kept_of_a_query_that_fails() {
    let mut s = server();
    let e = s.finish_prepare_as("h".to_string(), "x".to_string(), Err("bad".to_string()));
    assert_eq!(said(e.unwrap_err()), (StatusCode::Internal, "bad".to_string()));
    let e = s.finish_prepare_as("h".to_string(), "x".to_string(), Ok(Err("odd".to_string())));
    assert_eq!(
        said(e.unwrap_err()),
        (StatusCode::Internal, "schema encode failed: odd".to_string())
    );
    let e = s.finish_flight_info_as(
        "h".to_string(),
        "x".to_string(),
        None,
        Err("empty query".to_string()),
    );
    assert_eq!(
        said(e.unwrap_err()),
        (StatusCode::InvalidArgument, "empty query".to_string())
    );
    assert_eq!(s.lookup(b"h"), None);
}

#[test]
fn a_query_stays_held_though_its_schema_cannot_be_encoded() {
    let mut s = server();
    let outcome = Ok(Ran { schema: Err("odd".to_string()), rows: 1, bytes: 1 });
    let e = s.finish_flight_info_as("h".to_string(), "RETURN 1".to_string(), None, outcome);
    assert_eq!(
        said(e.unwrap_err()),
        (StatusCode::Internal, "schema encode failed: odd".to_string())
    );
    assert_eq!(s.lookup(b"h").as_deref(), Some("RETURN 1"));
}

#[test]
fn sizes_beyond_the_range_wrap() {
    let s = server();
    let reply = s.flight_info_for(Ok(vec![]), -1, i64::MAX, b"h").unwrap();
    assert_eq!((reply.total_records, reply.total_bytes), (-1, i64::MAX));
    let mut s = server();
    let reply = s
        .finish_flight_info_as("h".to_string(), String::new(), None, ran(b"", usize::MAX, 3))
        .unwrap();
    assert_eq!((reply.total_records, reply.total_bytes), (-1, 3));
}

#[test]
fn actions() {
    let mut s = server();
    assert!(matches!(s.begin_action("show_tables", b""), ActionStep::ShowTables));
    assert!(matches!(s.begin_action("schema", b""), ActionStep::ShowTables));
    let ActionStep::Refuse(e) = s.begin_action("dance", b"") else {
        panic!("not refused");
    };
    assert_eq!(said(e), (StatusCode::Unimplemented, "unknown action: dance".to_string()));
    let ActionStep::Refuse(e) = s.begin_action("CreatePreparedStatement", b" \n ") else {
        panic!("not refused");
    };
    assert_eq!(said(e), (StatusCode::InvalidArgument, "empty query".to_string()));
    let ActionStep::Answer(list) = s.begin_action("list_queries", b"") else {
        panic!("not answered");
    };
    let list = String::from_utf8(list).unwrap();
    let lines: Vec<&str> = list.lines().collect();
    assert_eq!(lines.len(), 6);
    assert_eq!(
        lines[0],
        "all_users: MATCH (u:User) RETURN u.name, u.age ORDER BY u.id"
    );
}

#[test]
fn tables_are_shown() {
    assert_eq!(SHOW_TABLES, "CALL show_tables() RETURN *");
    assert_eq!(show_tables_text(Ok((4, 12))), "show_tables: 4 rows x 12 cols");
    assert_eq!(show_tables_text(Err("x".to_string())), "show_tables failed: x");
}

#[test]
fn offered_and_refused_methods() {
    let names: Vec<&str> = list_actions().iter().map(|a| a.0).collect();
    assert_eq!(
        names,
        vec!["CreatePreparedStatement", "ClosePreparedStatement", "show_tables", "list_queries"]
    );
    assert_eq!(list_actions()[3].1, "List demo queries");
    assert_eq!(
        said(unsupported("do_put")),
        (StatusCode::Unimplemented, "do_put not supported".to_string())
    );
    assert_eq!(demo_path("follows"), vec!["demo".to_string(), "follows".to_string()]);
    assert_eq!(storage_for(":memory:"), Storage::InMemory);
    assert_eq!(storage_for("/tmp/g.lbdb"), Storage::OnDisk);
}
