use token_lifecycle::store::Keyspace;
use token_lifecycle::text::{chars_of, int_string, read_int};
use token_lifecycle::RedisStore;

#[test]
fn allow_list_entries_expire_after_their_last_second() {
    let mut s = RedisStore::new();
    s.add_to_allowlist("jti-1", 42, 60, 40);
    assert!(s.is_allowlisted("jti-1", 100));
    assert!(!s.is_allowlisted("jti-1", 101));
    assert!(!s.is_allowlisted("jti-2", 0));
}

#[test]
fn allow_list_upsert_and_delete() {
    let mut s = RedisStore::new();
    s.add_to_allowlist("k", 1, 10, 0);
    s.add_to_allowlist("k", 1, 10, 10);
    assert!(s.is_allowlisted("k", 15));
    s.remove_from_allowlist("k");
    assert!(!s.is_allowlisted("k", 0));
    s.remove_from_allowlist("k");
    assert!(!s.is_allowlisted("k", 0));
}

#[test]
fn blacklist_is_separate_from_allow_list() {
    let mut s = RedisStore::new();
    s.blacklist_token("tok", 5, 0);
    assert!(s.is_blacklisted("tok", 5));
    assert!(!s.is_allowlisted("tok", 5));
    assert!(!s.is_blacklisted("tok", 6));
}

#[test]
fn ttl_may_reach_the_end_of_time() {
    let mut s = RedisStore::new();
    s.blacklist_token("t", u64::MAX, i64::MIN);
    assert!(s.is_blacklisted("t", i64::MAX));
}

#[test]
fn keyspace_keeps_latest_value() {
    let mut k = Keyspace::new();
    k.set("a", 1, 10);
    k.set("b", 2, 10);
    k.set("a", 3, 10);
    assert_eq!(k.get("a", 0), Some(3));
    assert_eq!(k.get("b", 0), Some(2));
    k.del("a");
    assert_eq!(k.get("a", 0), None);
    assert_eq!(k.get("b", 11), None);
}

#[test]
fn integers_read_from_text() {
    let s = chars_of("x-9223372036854775808,17");
    assert_eq!(read_int(&s, 1), Some((i64::MIN, 21)));
    assert_eq!(read_int(&s, 22), Some((17, 24)));
    assert_eq!(read_int(&s, 0), None);
    let big = chars_of("9223372036854775808");
    assert_eq!(read_int(&big, 0), None);
}

#[test]
fn purge_drops_only_dead_entries() {
    let mut s = RedisStore::new();
    s.add_to_allowlist("old", 1, 5, 0);
    s.add_to_allowlist("new", 2, 50, 0);
    s.blacklist_token("t-old", 5, 0);
    s.blacklist_token("t-new", 50, 0);
    s.purge_expired(10);
    assert!(!s.is_allowlisted("old", 5));
    assert!(s.is_allowlisted("new", 10));
    assert!(!s.is_blacklisted("t-old", 5));
    assert!(s.is_blacklisted("t-new", 50));
}

#[test]
fn purge_keeps_entries_at_their_last_second() {
    let mut k = Keyspace::new();
    k.set("a", 1, 10);
    k.purge(10);
    assert_eq!(k.get("a", 10), Some(1));
    k.purge(11);
    assert_eq!(k.get("a", 0), None);
}

#[test]
fn integers_written_as_text() {
    assert_eq!(int_string(0), "0");
    assert_eq!(int_string(-5), "-5");
    assert_eq!(int_string(1700000000), "1700000000");
    assert_eq!(int_string(i64::MIN), "-9223372036854775808");
    assert_eq!(int_string(i64::MAX), "9223372036854775807");
}
