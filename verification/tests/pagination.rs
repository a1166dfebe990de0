use arangors::{AqlQuery, ClientError, Database, Method, RawJson, ScriptedTransport};

fn test_db() -> Database {
    Database::new("http://localhost:8529/", "test_db").unwrap()
}

fn transport_with(bodies: &[&str]) -> ScriptedTransport {
    ScriptedTransport::new(bodies.iter().map(|s| s.to_string()).collect())
}

#[test]
fn round_trip_three_pages_in_order() {
    let db = test_db();
    let mut t = transport_with(&[
        r#"{"error":false,"result":[1,2],"hasMore":true,"id":"c1"}"#,
        r#"{"error":false,"result":[3],"hasMore":true,"id":"c1"}"#,
        r#"{"error":false,"result":[4,5],"hasMore":false}"#,
    ]);
    let aql = AqlQuery::new("FOR u IN c RETURN u");
    let rows: Vec<u64> = db.aql_query(&mut t, &aql).unwrap();
    assert_eq!(rows, vec![1, 2, 3, 4, 5]);
    assert_eq!(t.calls_made(), 3);
    assert_eq!(t.requests.len(), 3);
    assert!(t.requests[0].method == Method::Post);
    assert_eq!(
        t.requests[0].url,
        "http://localhost:8529/_db/test_db/_api/cursor"
    );
    assert_eq!(t.requests[0].body, aql.to_body());
    assert!(t.requests[1].method == Method::Put);
    assert_eq!(
        t.requests[1].url,
        "http://localhost:8529/_db/test_db/_api/cursor/c1"
    );
    assert_eq!(t.requests[1].body, "");
    assert!(t.requests[2].method == Method::Put);
}

#[test]
fn single_page_issues_one_call() {
    let db = test_db();
    let mut t = transport_with(&[r#"{"error":false,"result":[7],"hasMore":false}"#]);
    let rows: Vec<u64> = db.aql_str(&mut t, "RETURN 7").unwrap();
    assert_eq!(rows, vec![7]);
    assert_eq!(t.calls_made(), 1);
}

#[test]
fn mid_stream_failure_discards_fetched_pages() {
    let db = test_db();
    let mut t = transport_with(&[
        r#"{"error":false,"result":[1],"hasMore":true,"id":"c"}"#,
        r#"{"error":false,"result":[2],"hasMore":true,"id":"c"}"#,
        r#"{"error":true,"code":500,"errorNum":32,"errorMessage":"boom"}"#,
        r#"{"error":false,"result":[4],"hasMore":true,"id":"c"}"#,
        r#"{"error":false,"result":[5],"hasMore":false}"#,
    ]);
    let rows: Result<Vec<u64>, ClientError> = db.aql_str(&mut t, "FOR u IN c RETURN u");
    match rows {
        Err(ClientError::ServerError {
            status,
            error_num,
            message,
        }) => {
            assert_eq!(status, 500);
            assert_eq!(error_num, 32);
            assert_eq!(message, "boom");
        }
        other => panic!("expected a server error, got {:?}", other),
    }
    assert_eq!(t.calls_made(), 3);
}

#[test]
fn scenario_two_pages_of_documents() {
    let db = test_db();
    let mut t = transport_with(&[
        r#"{"error":false,"result":[{"a":1}],"hasMore":true,"id":"123"}"#,
        r#"{"error":false,"result":[{"a":2},{"a":3}],"hasMore":false}"#,
    ]);
    let rows: Vec<RawJson> = db
        .aql_str(&mut t, "FOR u IN c LIMIT 3 RETURN u")
        .unwrap();
    let texts: Vec<&str> = rows.iter().map(|r| r.text.as_str()).collect();
    assert_eq!(texts, vec![r#"{"a":1}"#, r#"{"a":2}"#, r#"{"a":3}"#]);
    assert_eq!(t.calls_made(), 2);
    assert_eq!(
        t.requests[1].url,
        "http://localhost:8529/_db/test_db/_api/cursor/123"
    );
}

#[test]
fn transport_failure_propagates() {
    let db = test_db();
    let mut t = transport_with(&[r#"{"error":false,"result":[1],"hasMore":true,"id":"c"}"#]);
    let rows: Result<Vec<u64>, ClientError> = db.aql_str(&mut t, "FOR u IN c RETURN u");
    assert!(matches!(rows, Err(ClientError::Transport(_))));
    assert_eq!(t.calls_made(), 1);
}

#[test]
fn first_page_failure_propagates() {
    let db = test_db();
    let mut t = transport_with(&[r#"{"error":true,"code":401,"errorNum":11,"errorMessage":"not authorized"}"#]);
    let rows: Result<Vec<u64>, ClientError> = db.aql_str(&mut t, "RETURN 1");
    match rows {
        Err(ClientError::ServerError { status, error_num, .. }) => {
            assert_eq!(status, 401);
            assert_eq!(error_num, 11);
        }
        other => panic!("expected a server error, got {:?}", other),
    }
    assert_eq!(t.calls_made(), 1);
}

#[test]
fn manual_pagination_page_at_a_time() {
    let db = test_db();
    let mut t = transport_with(&[
        r#"{"error":false,"result":[10],"hasMore":true,"id":"k"}"#,
        r#"{"error":false,"result":[20],"hasMore":false}"#,
    ]);
    let aql = AqlQuery::new("FOR u IN c RETURN u").batch_size(1);
    let c1: arangors::Cursor<u64> = db.aql_query_batch(&mut t, &aql).unwrap();
    assert_eq!(c1.result, vec![10]);
    assert!(c1.more);
    let id = c1.id.clone().unwrap();
    let c2: arangors::Cursor<u64> = db.aql_next_batch(&mut t, id.as_str()).unwrap();
    assert_eq!(c2.result, vec![20]);
    assert!(!c2.more);
    assert!(c2.id.is_none());
    assert_eq!(
        t.requests[0].body,
        r#"{"query":"FOR u IN c RETURN u","bindVars":{},"batchSize":1}"#
    );
}

#[test]
fn bind_vars_are_submitted_in_order() {
    let db = test_db();
    let mut t = transport_with(&[r#"{"error":false,"result":[],"hasMore":false}"#]);
    let rows: Vec<u64> = db
        .aql_bind_vars(
            &mut t,
            "FOR u IN @@col FILTER u.x == @x RETURN u",
            vec![
                ("@col".to_string(), r#""c""#.to_string()),
                ("x".to_string(), "1".to_string()),
            ],
        )
        .unwrap();
    assert!(rows.is_empty());
    assert_eq!(
        t.requests[0].body,
        r#"{"query":"FOR u IN @@col FILTER u.x == @x RETURN u","bindVars":{"@col":"c","x":1}}"#
    );
}
