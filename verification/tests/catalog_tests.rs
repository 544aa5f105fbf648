use cpi_sync::catalog::{parse_listing, parse_listing_response};
use cpi_sync::errors::Error;

#[test]
fn parse_listing_reads_id_name_and_mode() {
    let body = r#"{"d":{"results":[
        {"Id":"A","Name":"Alpha"},
        {"Id":"B","Name":"Beta","Mode":"EDIT_ALLOWED"}
    ]}}"#;
    let entries = parse_listing(body).unwrap();
    assert_eq!(entries.len(), 2);
    assert_eq!(entries[0].id, "A");
    assert_eq!(entries[0].name, "Alpha");
    assert_eq!(entries[0].mode, None);
    assert_eq!(entries[1].id, "B");
    assert_eq!(entries[1].mode, Some("EDIT_ALLOWED".to_string()));
}

#[test]
fn parse_listing_accepts_null_mode() {
    let body = r#"{"d":{"results":[{"Id":"A","Name":"Alpha","Mode":null}]}}"#;
    let entries = parse_listing(body).unwrap();
    assert_eq!(entries[0].mode, None);
}

#[test]
fn parse_listing_accepts_an_empty_listing() {
    let body = r#"{"d":{"results":[]}}"#;
    assert!(parse_listing(body).unwrap().is_empty());
}

#[test]
fn parse_listing_rejects_broken_json() {
    match parse_listing("{not json") {
        Err(Error::Decode(_)) => {}
        other => panic!("expected a decode error, got {:?}", other),
    }
}

#[test]
fn parse_listing_rejects_a_missing_envelope() {
    match parse_listing(r#"{"results":[]}"#) {
        Err(Error::Decode(_)) => {}
        other => panic!("expected a decode error, got {:?}", other),
    }
}

#[test]
fn parse_listing_rejects_results_that_are_no_array() {
    match parse_listing(r#"{"d":{"results":{}}}"#) {
        Err(Error::Decode(_)) => {}
        other => panic!("expected a decode error, got {:?}", other),
    }
}

#[test]
fn parse_listing_rejects_an_entry_without_name() {
    match parse_listing(r#"{"d":{"results":[{"Id":"A"}]}}"#) {
        Err(Error::Decode(_)) => {}
        other => panic!("expected a decode error, got {:?}", other),
    }
}

#[test]
fn parse_listing_rejects_a_non_string_id() {
    match parse_listing(r#"{"d":{"results":[{"Id":7,"Name":"Alpha"}]}}"#) {
        Err(Error::Decode(_)) => {}
        other => panic!("expected a decode error, got {:?}", other),
    }
}

#[test]
fn listing_response_with_failure_status_is_a_remote_api_error() {
    match parse_listing_response("https://u", 403, "forbidden") {
        Err(Error::RemoteApi { url, status, body }) => {
            assert_eq!(url, "https://u");
            assert_eq!(status, 403);
            assert_eq!(body, "forbidden");
        }
        other => panic!("expected a remote-api error, got {:?}", other),
    }
}

#[test]
fn listing_response_with_success_status_is_parsed() {
    let body = r#"{"d":{"results":[{"Id":"A","Name":"Alpha"}]}}"#;
    let entries = parse_listing_response("https://u", 200, body).unwrap();
    assert_eq!(entries.len(), 1);
    assert_eq!(entries[0].id, "A");
}
