use helix_lsp::jsonrpc;
use helix_lsp::jsonrpc::{ErrorCode, Id};
use helix_lsp::requests::PendingRequests;
use helix_lsp::Error;
use serde_json::Value;

#[test]
fn identifiers_go_up_by_one() {
    let mut requests: PendingRequests<&str> = PendingRequests::new();
    assert!(requests.is_empty());
    assert_eq!(requests.start("a"), Ok(0));
    assert_eq!(requests.start("b"), Ok(1));
    assert_eq!(requests.respond(0, Ok(Value::Null)), Some(("a", Ok(Value::Null))));
    assert_eq!(requests.start("c"), Ok(2));
    assert!(!requests.is_empty());
}

#[test]
fn table_is_empty_when_nothing_is_in_flight() {
    let mut requests: PendingRequests<u8> = PendingRequests::new();
    assert!(requests.is_empty());
    let a = requests.start(1).unwrap();
    let b = requests.start(2).unwrap();
    let c = requests.start(3).unwrap();
    assert!(!requests.is_empty());
    assert!(requests.respond(a, Ok(Value::from(1))).is_some());
    assert!(!requests.is_empty());
    assert!(requests.expire(b).is_some());
    assert!(!requests.is_empty());
    assert!(requests.cancel(c));
    assert!(requests.is_empty());
}

#[test]
fn every_request_ends_once() {
    let mut requests: PendingRequests<&str> = PendingRequests::new();
    let answered = requests.start("answered").unwrap();
    let failed = requests.start("failed").unwrap();
    let late = requests.start("late").unwrap();
    let dropped = requests.start("dropped").unwrap();
    let open = requests.start("open").unwrap();

    assert_eq!(
        requests.respond(answered, Ok(Value::from("pong"))),
        Some(("answered", Ok(Value::from("pong"))))
    );
    let refusal = jsonrpc::Error {
        code: ErrorCode::MethodNotFound,
        message: "no".to_string(),
        data: None,
    };
    assert_eq!(
        requests.respond(failed, Err(refusal.clone())),
        Some(("failed", Err(Error::Rpc(refusal.clone()))))
    );
    assert_eq!(
        requests.expire(late),
        Some(("late", Error::Timeout(Id::Num(late))))
    );
    assert!(requests.cancel(dropped));

    // whatever comes after the end is for nobody
    assert_eq!(requests.respond(answered, Ok(Value::Null)), None);
    assert_eq!(requests.expire(answered), None);
    assert!(!requests.cancel(answered));
    assert_eq!(requests.respond(late, Ok(Value::Null)), None);
    assert_eq!(requests.respond(dropped, Err(refusal)), None);
    assert_eq!(requests.expire(late), None);
    assert!(!requests.cancel(dropped));
    // and so is an answer to a request that was never made
    assert_eq!(requests.respond(99, Ok(Value::Null)), None);
    assert_eq!(requests.expire(99), None);
    assert!(!requests.cancel(99));

    assert_eq!(requests.close(), vec![(open, "open")]);
    assert!(requests.is_empty());
    assert_eq!(requests.close(), Vec::new());
    assert_eq!(requests.respond(open, Ok(Value::Null)), None);
    // identifiers go on where they were
    assert_eq!(requests.start("next"), Ok(5));
}

#[test]
fn closing_hands_out_every_waiting_sink() {
    let mut requests: PendingRequests<String> = PendingRequests::new();
    for n in 0..50 {
        assert_eq!(requests.start(format!("sink {}", n)), Ok(n));
    }
    for n in (0..50).step_by(2) {
        assert!(requests.cancel(n));
    }
    let mut sinks = requests.close();
    sinks.sort();
    let want: Vec<(u64, String)> = (0..50)
        .filter(|n| n % 2 == 1)
        .map(|n| (n, format!("sink {}", n)))
        .collect();
    assert_eq!(sinks, want);
    assert!(requests.is_empty());
}
