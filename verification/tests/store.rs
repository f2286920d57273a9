use dustdb::db::{Database, ValueEntry};
use std::collections::HashMap;

fn entry(value: &str, ttl: Option<u64>) -> ValueEntry {
    ValueEntry { value: value.to_string(), ttl }
}

#[test]
fn new_store_is_empty() {
    let db = Database::new();
    assert_eq!(db.keys(), Vec::<String>::new());
    assert_eq!(db.get("anything"), None);
}

#[test]
fn set_then_get_returns_value() {
    let mut db = Database::new();
    db.set("foo", "bar");
    assert_eq!(db.get("foo"), Some("bar".to_string()));
    assert_eq!(db.get("fo"), None);
    assert_eq!(db.get("foo "), None);
}

#[test]
fn set_overwrites_and_keeps_one_record() {
    let mut db = Database::new();
    db.set("k", "v1");
    db.set("other", "x");
    db.set("k", "v2");
    assert_eq!(db.get("k"), Some("v2".to_string()));
    assert_eq!(db.keys(), vec!["k".to_string(), "other".to_string()]);
}

#[test]
fn last_write_wins() {
    let mut a = Database::new();
    a.set("k", "v1");
    a.set("k", "v2");
    let mut b = Database::new();
    b.set("k", "v2");
    assert_eq!(a.get("k"), Some("v2".to_string()));
    assert_eq!(a.dump(), b.dump());
}

#[test]
fn delete_reports_presence() {
    let mut db = Database::new();
    db.set("foo", "bar");
    assert!(db.del("foo"));
    assert_eq!(db.get("foo"), None);
    assert!(!db.del("foo"));
}

#[test]
fn delete_absent_twice_reports_absent_both_times() {
    let mut db = Database::new();
    db.set("kept", "1");
    assert!(!db.del("ghost"));
    assert!(!db.del("ghost"));
    assert_eq!(db.get("kept"), Some("1".to_string()));
    assert_eq!(db.keys(), vec!["kept".to_string()]);
}

#[test]
fn delete_keeps_the_order_of_the_rest() {
    let mut db = Database::new();
    db.set("a", "1");
    db.set("b", "2");
    db.set("c", "3");
    assert!(db.del("b"));
    assert_eq!(db.keys(), vec!["a".to_string(), "c".to_string()]);
    db.set("b", "4");
    assert_eq!(db.keys(), vec!["a".to_string(), "c".to_string(), "b".to_string()]);
}

#[test]
fn keys_come_in_order_of_first_storing() {
    let mut db = Database::new();
    db.set("z", "1");
    db.set("a", "2");
    db.set("m", "3");
    db.set("a", "4");
    assert_eq!(db.keys(), vec!["z".to_string(), "a".to_string(), "m".to_string()]);
}

#[test]
fn empty_key_and_value_are_ordinary() {
    let mut db = Database::new();
    db.set("", "");
    assert_eq!(db.get(""), Some(String::new()));
    assert!(db.del(""));
    assert!(!db.del(""));
}

#[test]
fn dump_has_the_exact_bytes() {
    let mut db = Database::new();
    db.set("a", "1");
    let expected: Vec<u8> = vec![
        1, 0, 0, 0, 0, 0, 0, 0, // one record
        1, 0, 0, 0, 0, 0, 0, 0, b'a', // key
        1, 0, 0, 0, 0, 0, 0, 0, b'1', // value
        0, // no time-to-live
    ];
    assert_eq!(db.dump(), expected);
}

#[test]
fn dump_of_empty_store_is_a_zero_count() {
    let db = Database::new();
    assert_eq!(db.dump(), vec![0u8; 8]);
}

#[test]
fn dump_reads_as_a_map_of_entries() {
    let mut db = Database::new();
    db.set("alpha", "1");
    db.set("beta", "two");
    let map: HashMap<String, (String, Option<u64>)> = bincode::deserialize(&db.dump()).unwrap();
    assert_eq!(map.len(), 2);
    assert_eq!(map["alpha"], ("1".to_string(), None));
    assert_eq!(map["beta"], ("two".to_string(), None));
}

#[test]
fn load_reads_an_encoded_map() {
    let mut map: HashMap<String, (String, Option<u64>)> = HashMap::new();
    map.insert("x".to_string(), ("1".to_string(), None));
    map.insert("y".to_string(), ("2".to_string(), Some(30)));
    map.insert("z".to_string(), ("3".to_string(), None));
    let bytes = bincode::serialize(&map).unwrap();
    let mut db = Database::new();
    db.set("old", "gone");
    db.load(&bytes);
    assert_eq!(db.get("x"), Some("1".to_string()));
    assert_eq!(db.get("y"), Some("2".to_string()));
    assert_eq!(db.get("z"), Some("3".to_string()));
    assert_eq!(db.get("old"), None);
    let mut keys = db.keys();
    keys.sort();
    assert_eq!(keys, vec!["x".to_string(), "y".to_string(), "z".to_string()]);
}

#[test]
fn round_trip_restores_the_store() {
    let mut db = Database::new();
    db.set("a", "1");
    db.set("b", "2");
    db.set("c", "3");
    db.del("b");
    db.set("a", "one");
    db.set("snow", "\u{2603} and more");
    let bytes = db.dump();
    let mut fresh = Database::new();
    fresh.load(&bytes);
    assert_eq!(fresh.keys(), db.keys());
    for key in db.keys() {
        assert_eq!(fresh.get(&key), db.get(&key));
    }
    assert_eq!(fresh.dump(), bytes);
}

#[test]
fn round_trip_replaces_what_was_there() {
    let mut db = Database::new();
    db.set("a", "1");
    let bytes = db.dump();
    let mut other = Database::new();
    other.set("a", "other");
    other.set("b", "2");
    other.load(&bytes);
    assert_eq!(other.keys(), vec!["a".to_string()]);
    assert_eq!(other.get("a"), Some("1".to_string()));
    assert_eq!(other.get("b"), None);
}

#[test]
fn round_trip_of_empty_store_empties() {
    let db = Database::new();
    let mut other = Database::new();
    other.set("a", "1");
    other.load(&db.dump());
    assert_eq!(other.keys(), Vec::<String>::new());
}

#[test]
fn time_to_live_survives_load_and_dump() {
    let pairs = vec![("k".to_string(), ("v".to_string(), Some(5u64)))];
    let bytes = bincode::serialize(&pairs).unwrap();
    let mut db = Database::new();
    db.load(&bytes);
    assert_eq!(db.get("k"), Some("v".to_string()));
    assert_eq!(db.dump(), bytes);
    db.set("k", "w");
    let after: Vec<(String, (String, Option<u64>))> = bincode::deserialize(&db.dump()).unwrap();
    assert_eq!(after, vec![("k".to_string(), ("w".to_string(), None))]);
}

#[test]
fn load_of_repeated_key_keeps_the_later_value() {
    let pairs = vec![
        ("a".to_string(), ("1".to_string(), None::<u64>)),
        ("b".to_string(), ("2".to_string(), None)),
        ("a".to_string(), ("3".to_string(), Some(9))),
    ];
    let bytes = bincode::serialize(&pairs).unwrap();
    let mut db = Database::new();
    db.load(&bytes);
    assert_eq!(db.keys(), vec!["a".to_string(), "b".to_string()]);
    assert_eq!(db.get("a"), Some("3".to_string()));
    assert_eq!(db.get("b"), Some("2".to_string()));
}

#[test]
fn malformed_bytes_leave_the_store_intact() {
    let mut db = Database::new();
    db.set("foo", "bar");
    db.set("baz", "qux");
    let before = db.dump();
    db.load(&[1, 2, 3]);
    assert_eq!(db.get("foo"), Some("bar".to_string()));
    assert_eq!(db.get("baz"), Some("qux".to_string()));
    assert_eq!(db.dump(), before);
}

#[test]
fn empty_bytes_leave_the_store_intact() {
    let mut db = Database::new();
    db.set("foo", "bar");
    db.load(&[]);
    assert_eq!(db.get("foo"), Some("bar".to_string()));
    assert_eq!(db.keys(), vec!["foo".to_string()]);
}

#[test]
fn truncated_snapshot_leaves_the_store_intact() {
    let mut source = Database::new();
    source.set("a", "1");
    source.set("b", "2");
    let mut bytes = source.dump();
    bytes.pop();
    let mut db = Database::new();
    db.set("foo", "bar");
    db.load(&bytes);
    assert_eq!(db.keys(), vec!["foo".to_string()]);
    assert_eq!(db.get("foo"), Some("bar".to_string()));
}

#[test]
fn invalid_utf8_in_snapshot_leaves_the_store_intact() {
    let bytes: Vec<u8> = vec![
        1, 0, 0, 0, 0, 0, 0, 0, 1, 0, 0, 0, 0, 0, 0, 0, 0xFF, 1, 0, 0, 0, 0, 0, 0, 0, b'1', 0,
    ];
    let mut db = Database::new();
    db.set("foo", "bar");
    db.load(&bytes);
    assert_eq!(db.keys(), vec!["foo".to_string()]);
}

#[test]
fn invalid_option_tag_leaves_the_store_intact() {
    let bytes: Vec<u8> = vec![
        1, 0, 0, 0, 0, 0, 0, 0, 1, 0, 0, 0, 0, 0, 0, 0, b'a', 1, 0, 0, 0, 0, 0, 0, 0, b'1', 2,
    ];
    let mut db = Database::new();
    db.set("foo", "bar");
    db.load(&bytes);
    assert_eq!(db.keys(), vec!["foo".to_string()]);
}

#[test]
fn trailing_bytes_after_a_snapshot_are_ignored() {
    let mut source = Database::new();
    source.set("a", "1");
    let mut bytes = source.dump();
    bytes.push(7);
    let mut db = Database::new();
    db.load(&bytes);
    assert_eq!(db.get("a"), Some("1".to_string()));
}

#[test]
fn restore_stores_pairs_in_turn() {
    let mut db = Database::new();
    db.set("old", "x");
    db.restore(Some(vec![
        ("a".to_string(), entry("1", None)),
        ("b".to_string(), entry("2", Some(4))),
        ("a".to_string(), entry("3", None)),
    ]));
    assert_eq!(db.keys(), vec!["a".to_string(), "b".to_string()]);
    assert_eq!(db.get("a"), Some("3".to_string()));
    assert_eq!(db.get("old"), None);
}

#[test]
fn restore_acts_on_the_decoding_outcome() {
    let mut db = Database::new();
    db.set("old", "x");
    db.restore(None);
    assert_eq!(db.keys(), vec!["old".to_string()]);
    db.restore(Some(vec![("new".to_string(), entry("y", None))]));
    assert_eq!(db.keys(), vec!["new".to_string()]);
    assert_eq!(db.get("new"), Some("y".to_string()));
    db.restore(Some(Vec::new()));
    assert_eq!(db.keys(), Vec::<String>::new());
}

#[test]
fn entry_clone_copies_both_fields() {
    let e = entry("v", Some(3));
    let c = e.clone();
    assert_eq!(c.value, "v");
    assert_eq!(c.ttl, Some(3));
}

#[test]
fn bytes_or_empty_maps_failure_to_nothing() {
    assert_eq!(dustdb::snapshot::bytes_or_empty(None), Vec::<u8>::new());
    assert_eq!(dustdb::snapshot::bytes_or_empty(Some(vec![1, 2])), vec![1, 2]);
}
