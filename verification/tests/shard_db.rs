use std::collections::hash_map::DefaultHasher;
use std::hash::{Hash, Hasher};

use rust_playground::shard_db::{hash, new_shared_db, respond, shard_for_hash, shard_index, Reply, Request, Shard};

fn std_hash(key: &str) -> u64 {
    let mut s = DefaultHasher::new();
    key.hash(&mut s);
    s.finish()
}

#[test]
fn a_new_database_has_empty_shards() {
    let db = new_shared_db(5);
    assert_eq!(db.len(), 5);
    for shard in &db {
        assert!(shard.get("hello").is_none());
    }
    assert!(new_shared_db(0).is_empty());
}

#[test]
fn keys_hash_as_a_fresh_default_hasher_has_them() {
    assert_eq!(hash("hello"), std_hash("hello"));
    assert_ne!(hash("hello"), hash("world"));
}

#[test]
fn a_key_lives_in_the_shard_of_its_hash() {
    for key in ["hello", "name", "age", ""] {
        let i = shard_index(key, 5);
        assert!(i < 5);
        assert_eq!(i, (std_hash(key) as usize) % 5);
    }
    assert_eq!(shard_for_hash(17, 5), 2);
    assert_eq!(shard_for_hash(17, 1), 0);
}

#[test]
fn a_read_gives_back_what_was_written() {
    let mut shard = Shard::new();
    let reply = respond(&mut shard, Request::Get { key: "hello".to_string() });
    assert!(matches!(reply, Reply::Null));
    let reply = respond(&mut shard, Request::Put { key: "hello".to_string(), value: b"world".to_vec() });
    assert!(matches!(reply, Reply::Simple(ref s) if s == "OK"));
    match respond(&mut shard, Request::Get { key: "hello".to_string() }) {
        Reply::Bulk(v) => assert_eq!(v, b"world".to_vec()),
        _ => panic!("expected the bytes written"),
    }
    respond(&mut shard, Request::Put { key: "hello".to_string(), value: b"again".to_vec() });
    assert_eq!(shard.get("hello"), Some(b"again".to_vec()));
    assert!(shard.get("other").is_none());
}

#[test]
fn shards_keep_several_keys() {
    let mut shard = Shard::new();
    shard.insert("a".to_string(), vec![1]);
    shard.insert("b".to_string(), vec![2, 3]);
    shard.insert("a".to_string(), vec![]);
    assert_eq!(shard.get("a"), Some(vec![]));
    assert_eq!(shard.get("b"), Some(vec![2, 3]));
}
