use ladybug_adbc::client::{Call, FlightQuery};
use ladybug_adbc::normalize_uri;
use ladybug_adbc::{
    action_close_prepared_statement_request, action_create_prepared_statement_request,
    any_command_prepared_statement_query, encode_create_prepared_statement_result,
    ticket_statement_query,
};

#[test]
fn uris_are_normalized() {
    assert_eq!(normalize_uri("grpc://localhost:50051"), "http://localhost:50051");
    assert_eq!(normalize_uri("http://localhost:50051"), "http://localhost:50051");
    assert_eq!(normalize_uri("grpc:/x"), "grpc:/x");
    let once = normalize_uri("grpc://grpc://x");
    assert_eq!(once, "http://grpc://x");
    assert_eq!(normalize_uri(&once), once);
}

#[test]
fn a_plain_query_is_described_and_fetched() {
    let mut q = FlightQuery::plain("RETURN 1");
    let Ok(Call::GetFlightInfo(cmd)) = q.call() else { panic!("not described") };
    assert_eq!(cmd, b"RETURN 1");
    q.described(vec![Some(b"a".to_vec()), Some(b"b".to_vec())]);
    let Ok(Call::DoGet(ticket)) = q.call() else { panic!("not fetched") };
    assert_eq!(ticket, b"a");
    q.received();
    let Ok(Call::DoGet(ticket)) = q.call() else { panic!("not fetched") };
    assert_eq!(ticket, b"b");
    q.received();
    assert!(matches!(q.call(), Ok(Call::Done)));
}

#[test]
fn a_prepared_query_is_closed_in_the_end() {
    let mut q = FlightQuery::prepared("RETURN 1");
    let Ok(Call::DoAction(kind, body)) = q.call() else { panic!("not created") };
    assert_eq!(kind, "CreatePreparedStatement");
    assert_eq!(body, action_create_prepared_statement_request("RETURN 1"));
    let answer = encode_create_prepared_statement_result(b"handle", b"schema");
    assert_eq!(q.created(&vec![answer, b"ignored".to_vec()]), Ok(()));
    let Ok(Call::GetFlightInfo(cmd)) = q.call() else { panic!("not described") };
    assert_eq!(cmd, any_command_prepared_statement_query(b"handle"));
    q.described(vec![Some(ticket_statement_query(b"handle"))]);
    let Ok(Call::DoGet(ticket)) = q.call() else { panic!("not fetched") };
    assert_eq!(ticket, ticket_statement_query(b"handle"));
    q.received();
    let Ok(Call::DoAction(kind, body)) = q.call() else { panic!("not closed") };
    assert_eq!(kind, "ClosePreparedStatement");
    assert_eq!(body, action_close_prepared_statement_request(b"handle"));
    q.closed();
    assert!(matches!(q.call(), Ok(Call::Done)));
}

#[test]
fn data_without_endpoints() {
    let mut q = FlightQuery::plain("RETURN 1");
    q.described(vec![]);
    assert!(matches!(q.call(), Ok(Call::Done)));
    let mut q = FlightQuery::prepared("RETURN 1");
    q.created(&vec![encode_create_prepared_statement_result(b"h", b"")]).unwrap();
    q.described(vec![]);
    assert!(matches!(q.call(), Ok(Call::DoAction(_, _))));
}

#[test]
fn errors_of_a_server_that_answers_badly() {
    let mut q = FlightQuery::prepared("RETURN 1");
    assert_eq!(
        q.created(&vec![]),
        Err("CreatePreparedStatement returned no result".to_string())
    );
    assert_eq!(
        q.created(&vec![vec![]]),
        Err("CreatePreparedStatement returned empty handle".to_string())
    );
    let mut q = FlightQuery::plain("RETURN 1");
    q.described(vec![Some(b"a".to_vec()), None]);
    q.received();
    assert_eq!(q.call().err().unwrap(), "flight endpoint missing ticket");
}
