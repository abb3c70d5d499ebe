use rem::cache::{Cache, CacheOperation, KvStore};
use rem::error::RemErrorKind;
use rem::op::{delete_value_from_cache, read_value_from_cache, write_stream_str_to_cache};

fn read(cache: &Cache, key: &str) -> Option<Vec<u8>> {
    cache.read_item(String::from(key)).unwrap().map(|b| *b)
}

#[test]
fn overwrite_leaves_second_value() {
    let mut cache = Cache::new();
    cache.cache_item("k", b"v1".to_vec()).unwrap();
    cache.cache_item("k", b"v2".to_vec()).unwrap();
    assert_eq!(read(&cache, "k"), Some(b"v2".to_vec()));
}

#[test]
fn delete_then_read_finds_nothing() {
    let mut cache = Cache::new();
    cache.cache_item("k", b"v".to_vec()).unwrap();
    cache.delete_item(String::from("k")).unwrap();
    assert_eq!(read(&cache, "k"), None);
}

#[test]
fn read_of_absent_key_on_empty_store() {
    let cache = Cache::new();
    assert_eq!(read(&cache, "nope"), None);
}

#[test]
fn delete_of_absent_key_succeeds() {
    let mut cache = Cache::new();
    assert!(cache.delete_item(String::from("ghost")).is_ok());
}

#[test]
fn locked_key_defers_the_write() {
    let mut cache = Cache::new();
    cache.create_lock_file("k").unwrap();
    assert!(cache.lock_exists("k"));
    cache.cache_item("k", b"v".to_vec()).unwrap();
    assert_eq!(read(&cache, "k"), None);
    assert!(cache.pending.is_some());
}

#[test]
fn pending_write_is_replayed_after_next_write() {
    let mut cache = Cache::new();
    cache.create_lock_file("k").unwrap();
    cache.cache_item("k", b"v".to_vec()).unwrap();
    cache.delete_lock_file("k").unwrap();
    assert!(!cache.lock_exists("k"));
    cache.cache_item("other", b"w".to_vec()).unwrap();
    assert_eq!(read(&cache, "k"), Some(b"v".to_vec()));
    assert_eq!(read(&cache, "other"), Some(b"w".to_vec()));
    assert!(cache.pending.is_none());
}

#[test]
fn colliding_writes_keep_the_later_queued() {
    let mut cache = Cache::new();
    cache.create_lock_file("k").unwrap();
    cache.cache_item("k", b"v1".to_vec()).unwrap();
    cache.cache_item("k", b"v2".to_vec()).unwrap();
    assert_eq!(read(&cache, "k"), None);
    cache.delete_lock_file("k").unwrap();
    cache.cache_item("j", b"w".to_vec()).unwrap();
    assert_eq!(read(&cache, "k"), Some(b"v2".to_vec()));
}

#[test]
fn kv_store_insert_get_remove() {
    let mut store = KvStore::new();
    assert!(!store.contains_key("a"));
    store.insert("a", b"1".to_vec());
    store.insert("b", b"2".to_vec());
    store.insert("a", b"3".to_vec());
    assert_eq!(store.get("a"), Some(&b"3".to_vec()));
    assert_eq!(store.get("b"), Some(&b"2".to_vec()));
    store.remove("a");
    assert_eq!(store.get("a"), None);
    assert_eq!(store.get("b"), Some(&b"2".to_vec()));
}

#[test]
fn operation_splits_commands_and_value() {
    let op = CacheOperation::new_from_string(&String::from("W$abc:def"));
    assert_eq!(op.commands, vec!['W']);
    assert_eq!(op.value, "abc:def");
}

#[test]
fn operation_keeps_extra_command_characters() {
    let op = CacheOperation::new_from_string(&String::from("WX$v"));
    assert_eq!(op.commands, vec!['W', 'X']);
    assert_eq!(op.value, "v");
}

#[test]
fn operation_without_dollar_has_empty_value() {
    let op = CacheOperation::new_from_string(&String::from("Wabc"));
    assert_eq!(op.commands, vec!['W', 'a', 'b', 'c']);
    assert_eq!(op.value, "");
}

#[test]
fn operation_of_empty_string_is_empty() {
    let op = CacheOperation::new_from_string(&String::new());
    assert!(op.commands.is_empty());
    assert_eq!(op.value, "");
}

#[test]
fn write_helper_splits_key_and_value() {
    let mut cache = Cache::new();
    write_stream_str_to_cache(String::from("abc:def"), &mut cache).unwrap();
    assert_eq!(read(&cache, "abc"), Some(b"def".to_vec()));
}

#[test]
fn write_helper_without_colon_stores_empty_value() {
    let mut cache = Cache::new();
    write_stream_str_to_cache(String::from("justkey"), &mut cache).unwrap();
    assert_eq!(read(&cache, "justkey"), Some(Vec::new()));
}

#[test]
fn write_helper_keeps_later_colons_in_value() {
    let mut cache = Cache::new();
    write_stream_str_to_cache(String::from("k:a:b"), &mut cache).unwrap();
    assert_eq!(read(&cache, "k"), Some(b"a:b".to_vec()));
}

#[test]
fn read_helper_reports_missing_key() {
    let cache = Cache::new();
    let err = read_value_from_cache(String::from("zzz"), &cache).unwrap_err();
    assert_eq!(err.kind, RemErrorKind::KeyNotFound);
}

#[test]
fn read_helper_returns_stored_bytes() {
    let mut cache = Cache::new();
    cache.cache_item("k", b"payload".to_vec()).unwrap();
    let got = read_value_from_cache(String::from("k"), &cache).unwrap();
    assert_eq!(got, b"payload".to_vec());
}

#[test]
fn delete_helper_removes_the_key() {
    let mut cache = Cache::new();
    cache.cache_item("k", b"v".to_vec()).unwrap();
    delete_value_from_cache(String::from("k"), &mut cache).unwrap();
    assert_eq!(read(&cache, "k"), None);
}
