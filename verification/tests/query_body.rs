use arangors::{AqlQuery, Database};

#[test]
fn body_of_bare_query() {
    let aql = AqlQuery::new("RETURN 1");
    assert_eq!(aql.to_body(), r#"{"query":"RETURN 1","bindVars":{}}"#);
}

#[test]
fn body_with_bind_vars_and_options() {
    let aql = AqlQuery::new("FOR u IN c RETURN u")
        .bind_var("x", "1")
        .bind_var("name", r#""bob""#)
        .batch_size(25)
        .cache(true);
    assert_eq!(
        aql.to_body(),
        r#"{"query":"FOR u IN c RETURN u","bindVars":{"x":1,"name":"bob"},"batchSize":25,"cache":true}"#
    );
}

#[test]
fn body_escapes_query_text() {
    let aql = AqlQuery::new(r#"RETURN "quo\ted""#);
    assert_eq!(
        aql.to_body(),
        r#"{"query":"RETURN \"quo\\ted\"","bindVars":{}}"#
    );
}

#[test]
fn body_with_cache_off() {
    let aql = AqlQuery::new("RETURN 2").cache(false);
    assert_eq!(aql.to_body(), r#"{"query":"RETURN 2","bindVars":{},"cache":false}"#);
}

#[test]
fn body_renders_batch_size_digits() {
    let aql = AqlQuery::new("x").batch_size(0);
    assert_eq!(aql.to_body(), r#"{"query":"x","bindVars":{},"batchSize":0}"#);
    let aql = AqlQuery::new("x").batch_size(18446744073709551615);
    assert_eq!(
        aql.to_body(),
        r#"{"query":"x","bindVars":{},"batchSize":18446744073709551615}"#
    );
}

#[test]
fn database_derives_addresses() {
    let db = Database::new("http://localhost:8529/", "test_db").unwrap();
    assert_eq!(db.get_url().as_str(), "http://localhost:8529/_db/test_db/");
    assert_eq!(
        db.api_url("_api/collection").as_deref(),
        Some("http://localhost:8529/_db/test_db/_api/collection")
    );
    assert_eq!(
        db.api_url("_api/version").as_deref(),
        Some("http://localhost:8529/_db/test_db/_api/version")
    );
}

#[test]
fn database_rejects_unparseable_base() {
    assert!(Database::new("not an absolute url", "d").is_none());
}
