//! The client's decisions.

use pg_infer::client::error::ClientError;
use pg_infer::client::join::JoinSlots;
use pg_infer::client::transport::{
    address_items, check_response, classify, no_tick, on_wait, request_url, settle, uds_uri,
    BatchItem, CancelToken, Method, RaceOutcome, Scheme, TransportInit, WaitAction, WaitEvent,
    MAX_BODY_BYTES,
};
use pg_infer::client::types::{
    normalized_relations, CapabilitiesResponse, RelationSummary, ServerStats, CAPABILITIES_SCHEMA,
};

#[test]
fn cancel_token_flips_once() {
    let t = CancelToken::new();
    assert!(!t.is_cancelled());
    t.cancel();
    assert!(t.is_cancelled());
    let c = t.clone();
    assert!(c.is_cancelled());
}

#[test]
fn invalid_url_errors_on_connect() {
    let err = classify("not a url");
    assert!(matches!(err, Err(ClientError::InvalidUrl(_))));
}

#[test]
fn invalid_url_returns_error() {
    let result = classify("not-a-url");
    assert!(result.is_err(), "expected error for invalid URL, got: Ok");
    if let Err(ClientError::InvalidUrl(msg)) = result {
        assert!(!msg.is_empty(), "error message should not be empty");
        assert_eq!(msg, "relative URL without a base in 'not-a-url'");
    }
}

#[test]
fn unsupported_scheme_rejected() {
    let err = classify("ftp://example.com/");
    assert!(matches!(err, Err(ClientError::InvalidUrl(_))));
    assert_eq!(
        err.unwrap_err().message(),
        "invalid URL: unsupported URL scheme 'ftp' in 'ftp://example.com/'"
    );
}

#[test]
fn uds_url_parses() {
    let (scheme, base, init) = classify("uds:///tmp/larql.sock").expect("uds:/// form parses");
    assert_eq!(scheme, Scheme::Uds);
    assert_eq!(base, "");
    match init {
        TransportInit::Uds { path } => assert_eq!(path, "/tmp/larql.sock"),
        _ => panic!("expected uds init"),
    }

    let (_, _, init) = classify("unix:///var/run/larql.sock").expect("unix:/// form parses");
    match init {
        TransportInit::Uds { path } => assert_eq!(path, "/var/run/larql.sock"),
        _ => panic!("expected uds init"),
    }

    let (_, _, init) = classify("uds:/tmp/short.sock").expect("uds:/ abbreviation parses");
    match init {
        TransportInit::Uds { path } => assert_eq!(path, "/tmp/short.sock"),
        _ => panic!("expected uds init"),
    }
}

#[test]
fn http_url_parses() {
    let (scheme, base, _) = classify("http://localhost:8080").expect("http parses");
    assert_eq!(scheme, Scheme::Http);
    assert_eq!(base, "http://localhost:8080");

    let (_, base, _) = classify("https://example.com:9999/").expect("trailing slash is stripped");
    assert_eq!(base, "https://example.com:9999");
}

#[test]
fn socket_urls_with_a_host_or_without_a_path() {
    match classify("uds://localhost/run/x.sock").expect("host form parses") {
        (Scheme::Uds, _, TransportInit::Uds { path }) => assert_eq!(path, "/run/x.sock"),
        _ => panic!("expected uds init"),
    }
    assert_eq!(
        classify("uds://").unwrap_err().message(),
        "invalid URL: empty uds path in 'uds://'"
    );
    assert_eq!(
        classify("unix://host").unwrap_err().message(),
        "invalid URL: no socket path in 'unix://host'"
    );
}

#[test]
fn upper_case_schemes_are_schemes() {
    let (scheme, base, _) = classify("HTTP://localhost:8080//").expect("parses");
    assert_eq!(scheme, Scheme::Http);
    assert_eq!(base, "HTTP://localhost:8080");
}

#[test]
fn requests_are_addressed() {
    assert_eq!(request_url(Scheme::Http, "http://h", "/v1/stats"), "http://h/v1/stats");
    assert_eq!(request_url(Scheme::Uds, "", "/v1/stats"), "/v1/stats");
    let items = vec![
        BatchItem { url: "/a".to_string(), method: Method::Get, body: None },
        BatchItem { url: "/b".to_string(), method: Method::Post, body: Some(7) },
    ];
    let out = address_items(Scheme::Http, "http://h", items);
    assert_eq!(out.len(), 2);
    assert_eq!(out[0].url, "http://h/a");
    assert_eq!(out[1].url, "http://h/b");
    assert_eq!(out[1].method, Method::Post);
    assert_eq!(out[1].body, Some(7));
}

#[test]
fn socket_requests_have_a_uri() {
    assert_eq!(uds_uri("/v1/stats").unwrap(), "http://larql-uds/v1/stats");
    let err = uds_uri("/a b").unwrap_err();
    assert_eq!(err, ClientError::InvalidUrl("invalid uri character".to_string()));
}

#[test]
fn methods_have_names_and_bodies() {
    assert_eq!(Method::Get.name(), "GET");
    assert_eq!(Method::Post.name(), "POST");
    assert!(Method::Post.sends_json(2));
    assert!(!Method::Post.sends_json(0));
    assert!(!Method::Get.sends_json(2));
}

#[test]
fn responses_are_checked() {
    assert_eq!(check_response(200, vec![1, 2]).unwrap(), vec![1, 2]);
    assert_eq!(check_response(299, vec![]).unwrap(), Vec::<u8>::new());
    assert_eq!(
        check_response(404, b"not here".to_vec()).unwrap_err(),
        ClientError::Server { status: 404, body: "not here".to_string() }
    );
    assert_eq!(
        check_response(199, vec![b'a', 0xFF]).unwrap_err().message(),
        "server returned HTTP 199: a\u{FFFD}"
    );
    assert_eq!(
        check_response(200, vec![0; MAX_BODY_BYTES + 1]).unwrap_err().message(),
        "HTTP transport error: response body too large: 67108865 > 67108864"
    );
    assert!(check_response(200, vec![0; MAX_BODY_BYTES]).is_ok());
}

#[test]
fn races_are_settled() {
    assert_eq!(settle(RaceOutcome::Finished(Ok(3))), Ok(3));
    assert_eq!(
        settle::<u8>(RaceOutcome::TimedOut),
        Err(ClientError::Transport("uds request timed out".to_string()))
    );
    assert_eq!(settle::<u8>(RaceOutcome::Cancelled), Err(ClientError::Cancelled));
}

#[test]
fn waiting_ends_when_it_should() {
    assert!(matches!(on_wait(WaitEvent::Reply(Ok(5))), WaitAction::Return(Ok(5))));
    assert!(matches!(on_wait::<u8>(WaitEvent::Ticked(no_tick())), WaitAction::Wait));
    assert!(matches!(
        on_wait::<u8>(WaitEvent::Ticked(Err(ClientError::Cancelled))),
        WaitAction::Abort(ClientError::Cancelled)
    ));
    match on_wait::<u8>(WaitEvent::Disconnected) {
        WaitAction::Return(Err(e)) => {
            assert_eq!(e.message(), "runtime error: reply channel dropped")
        }
        _ => panic!("expected an error"),
    }
}

#[test]
fn results_come_back_in_order() {
    let mut slots: JoinSlots<&str> = JoinSlots::new(3);
    assert!(!slots.is_done());
    slots.ready(0, "a");
    assert_eq!(slots.pending, vec![2, 1]);
    slots.ready(0, "c");
    slots.ready(0, "b");
    assert!(slots.is_done());
    assert_eq!(slots.finish(), vec!["a", "b", "c"]);
    let none: JoinSlots<u8> = JoinSlots::new(0);
    assert!(none.is_done());
    assert!(none.finish().is_empty());
}

#[test]
fn client_errors_have_texts() {
    assert_eq!(ClientError::Cancelled.message(), "request was cancelled");
    assert_eq!(
        ClientError::Parse("x".to_string()).message(),
        "failed to parse response JSON: x"
    );
}

fn relation(layers: Vec<usize>, min_layer: usize, max_layer: usize) -> RelationSummary {
    RelationSummary {
        token: "capital".to_string(),
        count: 2,
        max_score: 0,
        layers,
        examples: Vec::new(),
        min_layer,
        max_layer,
    }
}

#[test]
fn relations_fill_in_their_layers() {
    let mut r = relation(vec![], 3, 5);
    r.normalize();
    assert_eq!(r.layers, vec![3, 4, 5]);
    let mut r = relation(vec![9], 3, 5);
    r.normalize();
    assert_eq!(r.layers, vec![9]);
    let mut r = relation(vec![], 5, 3);
    r.normalize();
    assert!(r.layers.is_empty());
    let mut r = relation(vec![], usize::MAX, usize::MAX);
    r.normalize();
    assert_eq!(r.layers, vec![usize::MAX]);
    let all = normalized_relations(vec![relation(vec![], 1, 2), relation(vec![7], 0, 0)]);
    let layers: Vec<Vec<usize>> = all.relations.into_iter().map(|r| r.layers).collect();
    assert_eq!(layers, vec![vec![1, 2], vec![7]]);
}

#[test]
fn capabilities_are_read() {
    let mut c = CapabilitiesResponse {
        schema: CAPABILITIES_SCHEMA,
        profile: "single_model".to_string(),
        routes: vec!["/v1/stats".to_string(), "/v1/walk".to_string()],
    };
    assert!(c.is_schema_understood());
    assert!(c.serves("/v1/walk"));
    assert!(!c.serves("/v1"));
    c.schema = 2;
    assert!(!c.is_schema_understood());
    assert!(ServerStats::default().v3_kv.is_none());
}
