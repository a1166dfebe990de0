use arangors::{decode_cursor, decode_response, ClientError, Cursor, Database, RawJson, ScriptedTransport};

#[test]
fn error_envelope_beats_payload_decoding() {
    let body = r#"{"error": true, "code": 404, "errorNum": 1600, "errorMessage": "cursor not found"}"#;
    let r: Result<Cursor<RawJson>, ClientError> = decode_cursor(body);
    match r {
        Err(ClientError::ServerError {
            status,
            error_num,
            message,
        }) => {
            assert_eq!(status, 404);
            assert_eq!(error_num, 1600);
            assert_eq!(message, "cursor not found");
        }
        other => panic!("expected a server error, got {:?}", other),
    }
}

#[test]
fn advance_maps_not_found_to_invalid_cursor() {
    let db = Database::new("http://localhost:8529/", "d").unwrap();
    let mut t = ScriptedTransport::new(vec![
        r#"{"error": true, "code": 404, "errorNum": 1600, "errorMessage": "cursor not found"}"#
            .to_string(),
    ]);
    let r: Result<Cursor<RawJson>, ClientError> = db.aql_next_batch(&mut t, "stale");
    match r {
        Err(ClientError::InvalidCursor { error_num, message }) => {
            assert_eq!(error_num, 1600);
            assert_eq!(message, "cursor not found");
        }
        other => panic!("expected an invalid-cursor error, got {:?}", other),
    }
}

#[test]
fn advance_keeps_other_server_errors() {
    let db = Database::new("http://localhost:8529/", "d").unwrap();
    let mut t = ScriptedTransport::new(vec![
        r#"{"error":true,"code":500,"errorNum":4,"errorMessage":"oops"}"#.to_string(),
    ]);
    let r: Result<Cursor<RawJson>, ClientError> = db.aql_next_batch(&mut t, "id");
    assert!(matches!(
        r,
        Err(ClientError::ServerError { status: 500, .. })
    ));
}

#[test]
fn schema_mismatch_is_not_a_server_error() {
    let body = r#"{"error":false,"result":[{"x":1}],"hasMore":false}"#;
    let r: Result<Cursor<u64>, ClientError> = decode_cursor(body);
    assert!(matches!(r, Err(ClientError::SchemaMismatch)));
    assert!(!matches!(r, Err(ClientError::ServerError { .. })));
}

#[test]
fn has_more_without_id_is_rejected() {
    let body = r#"{"error":false,"result":[1],"hasMore":true}"#;
    let r: Result<Cursor<u64>, ClientError> = decode_cursor(body);
    assert!(matches!(r, Err(ClientError::MalformedResponse)));
}

#[test]
fn has_more_with_id_decodes() {
    let body = r#"{"error":false,"result":[1,2],"hasMore":true,"id":"abc","count":9}"#;
    let c: Cursor<u64> = decode_cursor(body).unwrap();
    assert_eq!(c.result, vec![1, 2]);
    assert!(c.more);
    assert_eq!(c.id.as_deref(), Some("abc"));
    assert_eq!(c.count, Some(9));
}

#[test]
fn unparseable_body_is_malformed() {
    let r: Result<Cursor<u64>, ClientError> = decode_cursor("this is not json");
    assert!(matches!(r, Err(ClientError::MalformedResponse)));
}

#[test]
fn missing_error_discriminant_is_malformed() {
    let r: Result<Cursor<u64>, ClientError> = decode_cursor(r#"{"result":[],"hasMore":false}"#);
    assert!(matches!(r, Err(ClientError::MalformedResponse)));
}

#[test]
fn missing_has_more_is_schema_mismatch() {
    let r: Result<Cursor<u64>, ClientError> = decode_cursor(r#"{"error":false,"result":[]}"#);
    assert!(matches!(r, Err(ClientError::SchemaMismatch)));
}

#[test]
fn missing_result_array_is_schema_mismatch() {
    let r: Result<Cursor<u64>, ClientError> = decode_cursor(r#"{"error":false,"hasMore":false}"#);
    assert!(matches!(r, Err(ClientError::SchemaMismatch)));
}

#[test]
fn extra_field_is_carried_as_raw_text() {
    let body = r#"{"error":false,"result":[],"hasMore":false,"extra":{"stats":{"writesExecuted":0}}}"#;
    let c: Cursor<u64> = decode_cursor(body).unwrap();
    assert_eq!(c.extra.as_deref(), Some(r#"{"stats":{"writesExecuted":0}}"#));
}

#[test]
fn error_envelope_defaults_missing_fields() {
    let r: Result<Cursor<u64>, ClientError> = decode_cursor(r#"{"error":true}"#);
    match r {
        Err(ClientError::ServerError {
            status,
            error_num,
            message,
        }) => {
            assert_eq!(status, 0);
            assert_eq!(error_num, 0);
            assert_eq!(message, "");
        }
        other => panic!("expected a server error, got {:?}", other),
    }
}

#[test]
fn plain_response_decodes_whole_body() {
    let r: Result<u64, ClientError> = decode_response("42");
    assert_eq!(r.unwrap(), 42);
}

#[test]
fn plain_response_surfaces_server_error() {
    let r: Result<u64, ClientError> =
        decode_response(r#"{"error":true,"code":403,"errorNum":9,"errorMessage":"no"}"#);
    assert!(matches!(
        r,
        Err(ClientError::ServerError { status: 403, .. })
    ));
}

#[test]
fn plain_response_schema_mismatch() {
    let r: Result<u64, ClientError> = decode_response(r#"{"a":1}"#);
    assert!(matches!(r, Err(ClientError::SchemaMismatch)));
}

#[test]
fn raw_json_passes_item_text_through() {
    let body = r#"{"error":false,"result":[{"deep":{"doc":[1,2]}},"s"],"hasMore":false}"#;
    let c: Cursor<RawJson> = decode_cursor(body).unwrap();
    assert_eq!(c.result.len(), 2);
    assert_eq!(c.result[0].text, r#"{"deep":{"doc":[1,2]}}"#);
    assert_eq!(c.result[1].text, r#""s""#);
}
