use kv_store::record::{encode_record, is_valid_field, parse_line};
use kv_store::{KVStore, KVStoreError};

fn lines(text: &[&str]) -> Vec<String> {
    text.iter().map(|l| l.to_string()).collect()
}

fn reopen_from_records(records: &[String]) -> KVStore {
    let joined: String = records.concat();
    let log: Vec<String> = joined.lines().map(|l| l.to_string()).collect();
    KVStore::new(&log)
}

#[test]
fn empty_log_gives_empty_store() {
    let store = KVStore::new(&Vec::new());
    assert_eq!(store.read("anything"), None);
}

#[test]
fn replay_keeps_last_record_of_each_key() {
    let store = KVStore::new(&lines(&["a:1", "b:2", "a:3"]));
    assert_eq!(store.read("a"), Some("3".to_string()));
    assert_eq!(store.read("b"), Some("2".to_string()));
}

#[test]
fn replay_skips_lines_that_are_no_record() {
    let store = KVStore::new(&lines(&["noseparator", "x:y:z", "", "k:v", ":empty", "tail:"]));
    assert_eq!(store.read("noseparator"), None);
    assert_eq!(store.read("x"), None);
    assert_eq!(store.read("k"), Some("v".to_string()));
    assert_eq!(store.read(""), Some("empty".to_string()));
    assert_eq!(store.read("tail"), Some("".to_string()));
}

#[test]
fn write_returns_record_line() {
    let mut store = KVStore::new(&Vec::new());
    let rec = store.write("abc12345", "wxyz6789abcdef01").unwrap();
    assert_eq!(rec, "abc12345:wxyz6789abcdef01\n");
}

#[test]
fn read_your_writes() {
    let mut store = KVStore::new(&Vec::new());
    store.write("k", "v").unwrap();
    assert_eq!(store.read("k"), Some("v".to_string()));
}

#[test]
fn last_write_wins_in_memory_and_in_log() {
    let mut store = KVStore::new(&Vec::new());
    let r1 = store.write("k", "v1").unwrap();
    let r2 = store.write("k", "v2").unwrap();
    assert_eq!(store.read("k"), Some("v2".to_string()));
    assert_eq!(vec![r1.clone(), r2.clone()], vec!["k:v1\n".to_string(), "k:v2\n".to_string()]);
    let reopened = reopen_from_records(&[r1, r2]);
    assert_eq!(reopened.read("k"), Some("v2".to_string()));
}

#[test]
fn unknown_key_reads_none() {
    let mut store = KVStore::new(&lines(&["a:1"]));
    store.write("b", "2").unwrap();
    assert_eq!(store.read("doesnotexist"), None);
}

#[test]
fn durability_round_trip() {
    let mut store = KVStore::new(&lines(&["old:0", "a:zero"]));
    let mut records = vec!["old:0\n".to_string(), "a:zero\n".to_string()];
    for (k, v) in [("a", "1"), ("b", "2"), ("a", "3"), ("c", "4"), ("b", "5")] {
        records.push(store.write(k, v).unwrap());
    }
    let reopened = reopen_from_records(&records);
    for k in ["old", "a", "b", "c", "missing"] {
        assert_eq!(reopened.read(k), store.read(k));
    }
    assert_eq!(reopened.read("a"), Some("3".to_string()));
    assert_eq!(reopened.read("b"), Some("5".to_string()));
}

#[test]
fn distinct_writers_all_readable_after_reopen() {
    let mut store = KVStore::new(&Vec::new());
    let mut records = Vec::new();
    // Three writers with four keys each, interleaved round-robin.
    for m in 0..4 {
        for n in 0..3 {
            let k = format!("w{}k{}", n, m);
            let v = format!("v{}-{}", n, m);
            records.push(store.write(&k, &v).unwrap());
        }
    }
    assert_eq!(records.len(), 12);
    let reopened = reopen_from_records(&records);
    for m in 0..4 {
        for n in 0..3 {
            assert_eq!(reopened.read(&format!("w{}k{}", n, m)), Some(format!("v{}-{}", n, m)));
        }
    }
}

#[test]
fn write_refuses_delimiter_and_line_breaks() {
    let mut store = KVStore::new(&Vec::new());
    for (k, v) in [("a:b", "v"), ("k", "x:y"), ("k\n", "v"), ("k", "v\r")] {
        match store.write(k, v) {
            Err(KVStoreError::Validation(_)) => {}
            other => panic!("expected a validation error, got {:?}", other),
        }
    }
    assert_eq!(store.read("k"), None);
    assert_eq!(store.read("a:b"), None);
}

#[test]
fn parse_line_splits_on_sole_delimiter() {
    assert_eq!(parse_line("key:value"), Some(("key".to_string(), "value".to_string())));
    assert_eq!(parse_line("κλειδί:τιμή"), Some(("κλειδί".to_string(), "τιμή".to_string())));
    assert_eq!(parse_line("a:b:c"), None);
    assert_eq!(parse_line("abc"), None);
}

#[test]
fn field_validity() {
    assert!(is_valid_field("abc123"));
    assert!(is_valid_field(""));
    assert!(!is_valid_field("a:b"));
    assert!(!is_valid_field("a\nb"));
}

#[test]
fn encode_record_joins_with_delimiter() {
    assert_eq!(encode_record("k", "v"), "k:v\n");
}

#[test]
fn error_messages_name_their_kind() {
    assert_eq!(KVStoreError::Io("disk full".to_string()).message(), "I/O error: disk full");
    assert_eq!(
        KVStoreError::Serialization("bad json".to_string()).message(),
        "Serialization error: bad json"
    );
    assert_eq!(KVStoreError::MachnetError("down".to_string()).message(), "Machnet error: down");
    assert_eq!(KVStoreError::Validation("x".to_string()).message(), "Validation error: x");
}
