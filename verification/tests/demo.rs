use ladybug_adbc::bench::{
    check_batches, check_rows, client_queries, mode_name, preview, rows_query, task_share,
};
use ladybug_adbc::demo::{
    demo_statements, list_queries_text, reports_existing, select_queries, DemoLoad,
    SCHEMA_STATEMENTS,
};
use ladybug_adbc::demo_queries;
use ladybug_adbc::net::{listen_address, location, probe_code, probe_uri, PROBE_QUERY};
use ladybug_adbc::text::{decimal_text, join_texts};

#[test]
fn six_demo_queries() {
    let queries = demo_queries();
    let labels: Vec<&str> = queries.iter().map(|q| q.0).collect();
    assert_eq!(
        labels,
        vec![
            "all_users",
            "follows",
            "lives_in",
            "sf_users",
            "two_hop_from_alice",
            "same_city_follows",
        ]
    );
    assert_eq!(
        queries[1].1,
        "MATCH (a:User)-[f:Follows]->(b:User) \
         RETURN a.name AS follower, b.name AS followed, f.since ORDER BY f.since"
    );
    assert_eq!(
        queries[5].1,
        "MATCH (a:User)-[:Follows]->(b:User), \
         (a)-[:LivesIn]->(c:City)<-[:LivesIn]-(b) \
         RETURN a.name AS user, b.name AS follows, c.name AS shared_city"
    );
    assert_eq!(list_queries_text().lines().count(), 6);
}

#[test]
fn statements_of_the_demo_graph() {
    let statements = demo_statements();
    assert_eq!(statements.len(), 23);
    assert_eq!(
        statements[0],
        "CREATE NODE TABLE User (id INT64, name STRING, age INT64, PRIMARY KEY(id))"
    );
    assert_eq!(statements[4], "CREATE (u:User {id: 1, name: 'Alice', age: 30})");
    assert_eq!(
        statements[9],
        "CREATE (c:City {id: 1, name: 'San Francisco', population: 874961})"
    );
    assert_eq!(
        statements[12],
        "MATCH (a:User {id:1}), (b:User {id:2}) CREATE (a)-[:Follows {since: 2020}]->(b)"
    );
    assert_eq!(
        statements[22],
        "MATCH (u:User {id:5}), (c:City {id:2}) CREATE (u)-[:LivesIn]->(c)"
    );
}

#[test]
fn a_load_runs_every_statement() {
    let mut load = DemoLoad::start();
    let mut run = Vec::new();
    while let Some(statement) = load.next() {
        run.push(statement);
        load.record(Ok(())).unwrap();
    }
    assert_eq!(run, demo_statements());
}

#[test]
fn a_load_tolerates_what_is_there_already() {
    let mut load = DemoLoad::start();
    for _ in 0..SCHEMA_STATEMENTS {
        load.record(Err("Table User ALREADY EXISTS in catalog".to_string())).unwrap();
    }
    // Rows may fail for any reason.
    load.record(Err("anything".to_string())).unwrap();
    assert_eq!(load.next(), Some(demo_statements()[5].clone()));
}

#[test]
fn a_load_ends_where_a_table_cannot_be_created() {
    let mut load = DemoLoad::start();
    load.record(Err("Duplicate table".to_string())).unwrap();
    assert_eq!(load.record(Err("Disk full".to_string())), Err("Disk full".to_string()));
    assert_eq!(load.next(), Some(demo_statements()[1].clone()));
}

#[test]
fn messages_of_what_exists() {
    assert!(reports_existing("x already exists"));
    assert!(reports_existing("duplicate key"));
    assert!(!reports_existing("Duplicate key"));
    assert!(!reports_existing("already"));
}

#[test]
fn selections() {
    assert_eq!(select_queries("all").len(), 6);
    let one = select_queries("sf_users");
    assert_eq!(one.len(), 1);
    assert_eq!(one[0].0, "sf_users");
    assert_eq!(one[0].1, demo_queries()[3].1);
    assert_eq!(
        select_queries("RETURN 1"),
        vec![("RETURN 1".to_string(), "RETURN 1".to_string())]
    );
    assert_eq!(client_queries(true, "x").len(), 6);
    assert_eq!(client_queries(false, "x"), vec![("query".to_string(), "x".to_string())]);
    assert_eq!(mode_name(true), "plain Flight");
    assert_eq!(mode_name(false), "ADBC FlightSQL");
}

#[test]
fn previews() {
    assert_eq!(preview("RETURN 1"), "RETURN 1");
    let long = "é".repeat(150);
    assert_eq!(preview(&long), "é".repeat(100));
}

#[test]
fn work_is_shared() {
    let shares: Vec<Option<usize>> = (0..8).map(|t| task_share(500, 8, t)).collect();
    assert_eq!(shares.iter().map(|s| s.unwrap()).sum::<usize>(), 500);
    assert_eq!(shares[0], Some(63));
    assert_eq!(shares[7], Some(59));
    assert_eq!(task_share(0, 4, 3), Some(0));
    assert_eq!(task_share(200, 1, 0), Some(200));
    assert_eq!(task_share(4, 2, 1), Some(2));
    assert_eq!(task_share(6, 4, 3), Some(0));
    assert_eq!(task_share(5, 4, 3), None);
    assert_eq!(task_share(usize::MAX, 2, usize::MAX), None);
}

#[test]
fn rows_of_the_large_query() {
    assert_eq!(
        rows_query(1_000_000),
        "UNWIND range(1, 1000000) AS i \
         RETURN i AS id, i % 1000 AS bucket, CAST(i AS STRING) AS name"
    );
    assert_eq!(check_rows(3, 3), Ok(()));
    assert_eq!(check_rows(3, 10), Err("expected 3 rows, got 10".to_string()));
    assert_eq!(check_batches(1), Ok(()));
    assert_eq!(check_batches(0), Err("no batches to encode".to_string()));
}

#[test]
fn addresses() {
    assert_eq!(listen_address("127.0.0.1", 50051), "127.0.0.1:50051");
    assert_eq!(location("127.0.0.1", 0), "grpc://127.0.0.1:0");
}

#[test]
fn probes() {
    assert_eq!(PROBE_QUERY, "RETURN 1 AS ok");
    assert_eq!(probe_uri(None, None), "grpc://127.0.0.1:50051");
    assert_eq!(
        probe_uri(Some("0.0.0.0".to_string()), Some("9".to_string())),
        "grpc://127.0.0.1:9"
    );
    assert_eq!(probe_uri(Some("db".to_string()), None), "grpc://db:50051");
    assert_eq!(probe_code(Some(1)), 0);
    assert_eq!(probe_code(Some(0)), 1);
    assert_eq!(probe_code(None), 1);
}

#[test]
fn numbers_and_lines() {
    assert_eq!(decimal_text(0), "0");
    assert_eq!(decimal_text(u64::MAX), u64::MAX.to_string());
    assert_eq!(join_texts(&vec![], ","), "");
    assert_eq!(join_texts(&vec!["a".to_string(), String::new(), "b".to_string()], ", "), "a, , b");
}
