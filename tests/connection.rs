use kv_store::handler::{message_len, Action, Connection, Event, Phase};
use kv_store::{KVStore, KVStoreError, Request, Response};

fn write(key: &str, value: &str) -> Event {
    Event::Decoded(Some(Request::Write { key: key.to_string(), value: value.to_string() }))
}

fn read(key: &str) -> Event {
    Event::Decoded(Some(Request::Read { key: key.to_string() }))
}

/// Runs one request through a connection, the append and the send succeeding.
fn serve(conn: &mut Connection, store: &mut KVStore, request: Event) -> Response {
    assert!(matches!(conn.step(store, Event::Received(40)), Action::Decode(40)));
    let mut action = conn.step(store, request);
    if let Action::Append(_) = action {
        action = conn.step(store, Event::Appended(Ok(())));
    }
    match action {
        Action::Send(r) => {
            assert!(matches!(conn.step(store, Event::Sent(true)), Action::Receive));
            r
        }
        other => panic!("expected a reply, got {:?}", other),
    }
}

#[test]
fn end_to_end_write_then_reads() {
    let mut store = KVStore::new(&Vec::new());
    let mut conn = Connection::new();
    let mut appended = Vec::new();
    assert!(matches!(conn.step(&mut store, Event::Received(60)), Action::Decode(60)));
    match conn.step(&mut store, write("abc12345", "wxyz6789abcdef01")) {
        Action::Append(rec) => appended.push(rec),
        other => panic!("expected an append, got {:?}", other),
    }
    assert!(matches!(conn.step(&mut store, Event::Appended(Ok(()))), Action::Send(Response::Done)));
    assert!(matches!(conn.step(&mut store, Event::Sent(true)), Action::Receive));
    assert_eq!(appended, vec!["abc12345:wxyz6789abcdef01\n".to_string()]);
    match serve(&mut conn, &mut store, read("abc12345")) {
        Response::Value(v) => assert_eq!(v, "wxyz6789abcdef01"),
        other => panic!("expected a value, got {:?}", other),
    }
    assert!(matches!(serve(&mut conn, &mut store, read("doesnotexist")), Response::NotFound));
}

#[test]
fn malformed_message_keeps_connection_open() {
    let mut store = KVStore::new(&Vec::new());
    let mut conn = Connection::new();
    assert!(matches!(conn.step(&mut store, Event::Received(7)), Action::Decode(7)));
    assert!(matches!(conn.step(&mut store, Event::Decoded(None)), Action::Receive));
    assert_eq!(conn.phase(), Phase::AwaitMessage);
    assert!(matches!(serve(&mut conn, &mut store, write("k", "v")), Response::Done));
    match serve(&mut conn, &mut store, read("k")) {
        Response::Value(v) => assert_eq!(v, "v"),
        other => panic!("expected a value, got {:?}", other),
    }
}

#[test]
fn disconnect_or_failed_send_stops() {
    let mut store = KVStore::new(&Vec::new());
    let mut conn = Connection::new();
    assert!(matches!(conn.step(&mut store, Event::Received(0)), Action::Stop));
    assert_eq!(conn.phase(), Phase::Closed);
    let mut conn = Connection::new();
    assert!(matches!(conn.step(&mut store, Event::Received(-1)), Action::Stop));
    let mut conn = Connection::new();
    conn.step(&mut store, Event::Received(10));
    conn.step(&mut store, read("x"));
    assert!(matches!(conn.step(&mut store, Event::Sent(false)), Action::Stop));
    assert_eq!(conn.phase(), Phase::Closed);
}

#[test]
fn append_failure_replies_error_and_stays_open() {
    let mut store = KVStore::new(&Vec::new());
    let mut conn = Connection::new();
    conn.step(&mut store, Event::Received(10));
    assert!(matches!(conn.step(&mut store, write("k", "v")), Action::Append(_)));
    match conn.step(&mut store, Event::Appended(Err(KVStoreError::Io("disk full".to_string())))) {
        Action::Send(Response::Error(m)) => assert_eq!(m, "I/O error: disk full"),
        other => panic!("expected an error reply, got {:?}", other),
    }
    assert!(matches!(conn.step(&mut store, Event::Sent(true)), Action::Receive));
    assert_eq!(conn.phase(), Phase::AwaitMessage);
}

#[test]
fn invalid_write_replies_validation_error() {
    let mut store = KVStore::new(&Vec::new());
    let mut conn = Connection::new();
    match serve(&mut conn, &mut store, write("a:b", "v")) {
        Response::Error(m) => assert!(m.starts_with("Validation error: ")),
        other => panic!("expected an error reply, got {:?}", other),
    }
    assert_eq!(store.read("a:b"), None);
}

#[test]
fn encode_failure_returns_to_waiting() {
    let mut store = KVStore::new(&Vec::new());
    let mut conn = Connection::new();
    conn.step(&mut store, Event::Received(10));
    conn.step(&mut store, read("x"));
    assert!(matches!(conn.step(&mut store, Event::EncodeFailed), Action::Receive));
    assert_eq!(conn.phase(), Phase::AwaitMessage);
}

#[test]
fn unexpected_event_closes() {
    let mut store = KVStore::new(&Vec::new());
    let mut conn = Connection::new();
    assert!(matches!(conn.step(&mut store, Event::Sent(true)), Action::Stop));
    assert_eq!(conn.phase(), Phase::Closed);
}

#[test]
fn message_len_bounds() {
    assert_eq!(message_len(0), None);
    assert_eq!(message_len(-5), None);
    assert_eq!(message_len(1), Some(1));
    assert_eq!(message_len(1024), Some(1024));
    assert_eq!(message_len(1025), None);
}
