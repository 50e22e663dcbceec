use my_redis::protocol::{error_frame, lookup_frame, record_line};
use std::sync::Arc;

use my_redis::shard::{select_shard, shard_index, Shard};
use my_redis::store::{SharedDB, ShardDB};
use my_redis::NUM_SHARDS;

#[test]
fn scenario_set_get_missing_empty() {
    let mut db = ShardDB::new();
    let r = db.handle("SET alpha hello world");
    assert_eq!(r.reply, "+OK\r\n");
    assert_eq!(r.record, Some("SET alpha hello world".to_string()));
    let r = db.handle("GET alpha");
    assert_eq!(r.reply, "$11\r\nhello world\r\n");
    assert_eq!(r.record, None);
    assert_eq!(db.handle("GET missing").reply, "$-1\r\n");
    assert_eq!(db.handle("").reply, "-ERROR Empty command\r\n");
}

#[test]
fn invalid_inputs_give_error_frames() {
    let mut db = ShardDB::new();
    let r = db.handle("SET key");
    assert_eq!(r.reply, "-ERROR Value expected\r\n");
    assert_eq!(r.record, None);
    assert_eq!(db.handle("PING now").reply, "-ERROR Unknown Command\r\n");
    assert_eq!(db.handle("GET").reply, "-ERROR Key expected\r\n");
    assert_eq!(db.get(&"key".to_string()), None);
}

#[test]
fn shard_selection_is_stable() {
    for key in ["", "a", "alpha", "some longer key", "ключ"] {
        let first = select_shard(key);
        assert_eq!(first, select_shard(key));
        assert!(first < NUM_SHARDS);
    }
}

#[test]
fn round_trip_through_requests() {
    let mut db = ShardDB::new();
    db.handle("SET k1 v1");
    db.handle("SET k2 a b c");
    assert_eq!(db.handle("GET k1").reply, "$2\r\nv1\r\n");
    assert_eq!(db.handle("GET k2").reply, "$5\r\na b c\r\n");
}

#[test]
fn second_set_overwrites() {
    let mut db = ShardDB::new();
    db.handle("SET k first");
    db.handle("SET k second value");
    assert_eq!(db.handle("GET k").reply, "$12\r\nsecond value\r\n");
    assert_eq!(db.get(&"k".to_string()), Some("second value".to_string()));
}

#[test]
fn absent_key_is_not_found() {
    let mut db = ShardDB::new();
    db.handle("SET other x");
    assert_eq!(db.handle("GET never").reply, "$-1\r\n");
}

#[test]
fn get_shard_holds_the_key() {
    let mut db = ShardDB::new();
    db.set("alpha".to_string(), "one".to_string());
    let shard: &Shard = db.get_shard("alpha");
    assert_eq!(shard.get(&"alpha".to_string()), Some("one".to_string()));
}

#[test]
fn replay_rebuilds_the_store() {
    let mut live = ShardDB::new();
    let mut log: Vec<String> = Vec::new();
    let requests = ["SET a 1", "GET a", "SET b two words", "bogus", "SET a 3", "SET c"];
    for req in requests {
        if let Some(rec) = live.handle(req).record {
            log.push(rec);
        }
    }
    assert_eq!(log.len(), 3);
    let mut restored = ShardDB::new();
    restored.load_lines(&log);
    for key in ["a", "b", "c", "d"] {
        let k = key.to_string();
        assert_eq!(restored.get(&k), live.get(&k));
    }
    assert_eq!(restored.get(&"a".to_string()), Some("3".to_string()));
    assert_eq!(restored.get(&"b".to_string()), Some("two words".to_string()));
}

#[test]
fn replay_of_empty_log_is_empty() {
    let mut db = ShardDB::new();
    db.load_lines(&Vec::new());
    assert_eq!(db.get(&"a".to_string()), None);
    assert_eq!(db.handle("GET a").reply, "$-1\r\n");
}

#[test]
fn replay_skips_lines_that_are_not_stores() {
    let mut db = ShardDB::new();
    let lines = vec!["GET a".to_string(), "".to_string(), "SET a".to_string(), "SET a  x  y ".to_string()];
    db.load_lines(&lines);
    assert_eq!(db.get(&"a".to_string()), Some("x y".to_string()));
}

#[test]
fn lookup_frame_counts_utf8_bytes() {
    assert_eq!(lookup_frame(&Some("héllo".to_string())), "$6\r\nhéllo\r\n");
    assert_eq!(lookup_frame(&Some("0123456789".to_string())), "$10\r\n0123456789\r\n");
    assert_eq!(lookup_frame(&None), "$-1\r\n");
}

#[test]
fn record_and_error_frames() {
    assert_eq!(record_line("key", "va lue"), "SET key va lue");
    assert_eq!(error_frame("Unknown Command"), "-ERROR Unknown Command\r\n");
}

#[test]
fn shared_store_serves_requests() {
    let db = SharedDB::new();
    assert_eq!(db.handle("SET alpha hello world").reply, "+OK\r\n");
    assert_eq!(db.handle("GET alpha").reply, "$11\r\nhello world\r\n");
    assert_eq!(db.handle("GET missing").reply, "$-1\r\n");
    assert_eq!(db.handle("").reply, "-ERROR Empty command\r\n");
}

#[test]
fn shared_store_after_replay() {
    let mut db = ShardDB::new();
    db.load_lines(&vec!["SET k v".to_string()]);
    let shared = db.into_shared();
    assert_eq!(shared.get(&"k".to_string()), Some("v".to_string()));
}

#[test]
fn concurrent_sets_on_distinct_shards() {
    let a = String::from("k0");
    let mut b = String::from("k1");
    let mut n = 1;
    while select_shard(&a) == select_shard(&b) {
        n += 1;
        b = format!("k{}", n);
    }
    let db = Arc::new(SharedDB::new());
    let rt = tokio::runtime::Runtime::new().unwrap();
    rt.block_on(async {
        let (d1, k1) = (db.clone(), a.clone());
        let (d2, k2) = (db.clone(), b.clone());
        let h1 = tokio::task::spawn_blocking(move || d1.set(k1, "first".to_string()));
        let h2 = tokio::task::spawn_blocking(move || d2.set(k2, "second".to_string()));
        h1.await.unwrap();
        h2.await.unwrap();
    });
    assert_eq!(db.get(&a), Some("first".to_string()));
    assert_eq!(db.get(&b), Some("second".to_string()));
}

#[test]
fn shard_index_is_hash_modulo_count() {
    assert_eq!(shard_index(0), 0);
    assert_eq!(shard_index(17), 1);
    assert_eq!(shard_index(u64::MAX), 15);
}

#[test]
fn shared_store_keeps_replayed_keys_under_stores() {
    let mut db = ShardDB::new();
    db.load_lines(&vec!["SET a 1".to_string(), "SET b 2".to_string()]);
    let shared = db.into_shared();
    shared.set("a".to_string(), "3".to_string());
    shared.set("c".to_string(), "4".to_string());
    assert_eq!(shared.get(&"a".to_string()), Some("3".to_string()));
    assert_eq!(shared.get(&"b".to_string()), Some("2".to_string()));
    assert_eq!(shared.handle("GET b").reply, "$1\r\n2\r\n");
}
