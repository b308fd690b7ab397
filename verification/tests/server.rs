use quo_client::events::ConnectionEstablishedEvent;
use quo_client::server::{
    clear_entries_reply, is_localhost, on_body_read, on_payload_parsed, respond, route, route_reply,
    BodyRead, HttpMethod, PayloadStep, Route, ServerState, STATUS_BAD_REQUEST, STATUS_NOT_FOUND,
    STATUS_OK,
};

fn header_names(headers: &[(String, String)]) -> Vec<&str> {
    headers.iter().map(|(n, _)| n.as_str()).collect()
}

#[test]
fn routes_requests_by_method_and_path() {
    assert_eq!(route(HttpMethod::Options, "/anything"), Route::Preflight);
    assert_eq!(route(HttpMethod::Get, "/"), Route::Index);
    assert_eq!(route(HttpMethod::Post, "/payload"), Route::Payload);
    assert_eq!(route(HttpMethod::Get, "/payload"), Route::NotFound);
    assert_eq!(route(HttpMethod::Post, "/"), Route::NotFound);
    assert_eq!(route(HttpMethod::Other, "/"), Route::NotFound);
}

#[test]
fn localhost_origins_are_recognised() {
    assert!(is_localhost("http://localhost"));
    assert!(is_localhost("http://localhost:3000"));
    assert!(is_localhost("https://localhost:8443"));
    assert!(is_localhost("http://127.0.0.1"));
    assert!(is_localhost("https://127.0.0.1:1"));
    assert!(is_localhost("http://[::1]:8080"));
    assert!(is_localhost("https://[::1]"));
}

#[test]
fn foreign_origins_are_not_localhost() {
    assert!(!is_localhost("http://localhost.evil.com"));
    assert!(!is_localhost("http://example.com"));
    assert!(!is_localhost("localhost"));
    assert!(!is_localhost(""));
    assert!(!is_localhost("ftp://localhost"));
}

#[test]
fn response_echoes_local_origin_only() {
    let local = respond("hi".to_string(), STATUS_OK, Some("http://localhost:5173".to_string()));
    assert_eq!(local.status, 200);
    assert_eq!(local.body, "hi");
    assert_eq!(
        header_names(&local.headers),
        vec![
            "Access-Control-Allow-Methods",
            "Access-Control-Allow-Headers",
            "Access-Control-Max-Age",
            "Vary",
            "Access-Control-Allow-Origin"
        ]
    );
    assert_eq!(local.headers[4].1, "http://localhost:5173");
    assert_eq!(local.headers[0].1, "GET, POST, OPTIONS");
    assert_eq!(local.headers[1].1, "*");
    assert_eq!(local.headers[2].1, "86400");
    assert_eq!(local.headers[3].1, "Origin");

    let foreign = respond("hi".to_string(), STATUS_OK, Some("https://example.com".to_string()));
    assert_eq!(foreign.headers.len(), 4);
    let none = respond("hi".to_string(), STATUS_OK, None);
    assert_eq!(none.headers.len(), 4);
}

#[test]
fn fixed_routes_are_answered() {
    let pre = route_reply(Route::Preflight, None);
    assert_eq!((pre.status, pre.body.as_str()), (200, ""));
    let index = route_reply(Route::Index, None);
    assert_eq!((index.status, index.body.as_str()), (200, "Quo is listening"));
    let missing = route_reply(Route::NotFound, None);
    assert_eq!(missing.status, STATUS_NOT_FOUND);
    assert_eq!(missing.body, "This route does not exist for Quo");
}

#[test]
fn unreadable_and_empty_bodies_are_refused() {
    match on_body_read(BodyRead::Failed("connection reset".to_string()), None) {
        PayloadStep::Reply(p) => {
            assert_eq!(p.status, STATUS_BAD_REQUEST);
            assert_eq!(p.body, "Unparseable payload: connection reset");
        }
        PayloadStep::Parse(_) => panic!("a failed read must be answered"),
    }
    match on_body_read(BodyRead::Read(vec![]), None) {
        PayloadStep::Reply(p) => {
            assert_eq!(p.status, 400);
            assert_eq!(p.body, "Empty payload");
        }
        PayloadStep::Parse(_) => panic!("an empty body must be answered"),
    }
    assert_eq!(
        on_body_read(BodyRead::Read(b"{}".to_vec()), None),
        PayloadStep::Parse(b"{}".to_vec())
    );
}

#[test]
fn parse_outcome_is_answered() {
    let bad = on_payload_parsed(Err("expected value at line 1".to_string()), None);
    assert_eq!(bad.status, 400);
    assert_eq!(bad.body, "Could not parse payload into Quo Payload: expected value at line 1");
    let ok = on_payload_parsed(Ok(()), Some("http://127.0.0.1:9000".to_string()));
    assert_eq!((ok.status, ok.body.as_str()), (200, "OK"));
    assert_eq!(ok.headers.len(), 5);
    let cleared = clear_entries_reply(None);
    assert_eq!((cleared.status, cleared.body.as_str()), (200, "OK"));
}

#[test]
fn server_state_gives_back_recorded_event() {
    let mut state = ServerState::new();
    let before = state.connection_info();
    assert_eq!(before.host, "");
    assert_eq!(before.port, 0);
    assert!(!before.success);
    state.record(ConnectionEstablishedEvent { host: "127.0.0.1".to_string(), port: 7312, success: true });
    let after = state.connection_info();
    assert_eq!(after.host, "127.0.0.1");
    assert_eq!(after.port, 7312);
    assert!(after.success);
}
