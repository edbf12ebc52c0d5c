use chrono::{DateTime, Duration as ChronoDuration, TimeZone, Utc};
use rust_playground::modules::clock::Instant;
use rust_playground::modules::store::{Redis, RedisCell};
use rust_playground::modules::string_array::ArrayPlacement;

fn instant_of(d: DateTime<Utc>) -> Instant {
    Instant { secs: d.timestamp(), nanos: d.timestamp_subsec_nanos() }
}

#[test]
fn it_should_succeed_get() {
    let mut redis = Redis::new();

    let key = "Name";
    let value = RedisCell { value: String::from("Felipe"), expiry: None };

    redis.set(key.to_string(), value);
    let result = redis.get(key).unwrap();
    assert_eq!(result.value, "Felipe".to_string());
}

#[test]
fn store_it_should_fail_get() {
    let mut redis = Redis::new();

    let key_set = "Name";
    let key_get = "Age";
    let value = RedisCell { value: String::from("Felipe"), expiry: None };

    redis.set(key_set.to_string(), value);
    match redis.get(key_get) {
        None => assert!(true),
        _ => assert!(false),
    }
}

#[test]
fn it_should_overwrite_insert() {
    let mut redis = Redis::new();

    let key = "Name";
    let value = RedisCell { value: String::from("Felipe"), expiry: None };

    redis.set(key.to_string(), value);
    let value = RedisCell { value: String::from("Carlos"), expiry: None };

    redis.set(key.to_string(), value);

    if let Some(result) = redis.get(key) {
        assert_eq!(result.value, "Carlos".to_string());
    }
}

#[test]
fn it_should_be_expired() {
    let mut redis = Redis::new();

    let key = "Name";
    let value = RedisCell {
        value: String::from("Carlos"),
        expiry: Some(instant_of(Utc::now() - ChronoDuration::seconds(10))),
    };

    redis.set(key.to_string(), value);

    match redis.get(key) {
        Some(_) => assert!(false),
        None => assert!(true),
    }
}

#[test]
fn it_should_not_be_expired() {
    let mut redis = Redis::new();

    let key = "Name";
    let value = RedisCell {
        value: String::from("Carlos"),
        expiry: Some(instant_of(Utc::now() + ChronoDuration::hours(1))),
    };

    redis.set(key.to_string(), value);

    match redis.get(key) {
        Some(_) => assert!(true),
        None => assert!(false),
    }
}

#[test]
fn should_create_and_insert_on_array() {
    let mut redis = Redis::new();

    let result = redis.set_list("arr".to_string(), "first".to_string(), ArrayPlacement::RIGHT);

    assert_eq!(1, result.unwrap());
    assert_eq!("[first]", redis.get("arr").unwrap().value);

    let result = redis.set_list("arr".to_string(), "second".to_string(), ArrayPlacement::RIGHT);

    assert_eq!(2, result.unwrap());
    assert_eq!("[first,second]", redis.get("arr").unwrap().value);

    let result = redis.set_list("arr".to_string(), "third".to_string(), ArrayPlacement::LEFT);

    assert_eq!(3, result.unwrap());
    assert_eq!("[third,first,second]", redis.get("arr").unwrap().value)
}

#[test]
fn should_fail_fail_insert_on_array_string() {
    let mut redis = Redis::new();

    redis.set("arr".to_string(), RedisCell { value: "first".to_string(), expiry: None });

    let result = redis.set_list("arr".to_string(), "third".to_string(), ArrayPlacement::LEFT);

    assert!(result.is_err())
}

#[test]
fn set_returns_the_cell_it_replaces() {
    let mut redis = Redis::new();
    assert!(redis.set("k".to_string(), RedisCell { value: "a".to_string(), expiry: None }).is_none());
    let old = redis.set("k".to_string(), RedisCell { value: "b".to_string(), expiry: None });
    assert_eq!(old.unwrap().value, "a");
    assert_eq!(redis.get("k").unwrap().value, "b");
}

#[test]
fn set_leaves_other_keys_alone() {
    let mut redis = Redis::new();
    redis.set("a".to_string(), RedisCell { value: "1".to_string(), expiry: None });
    redis.set("b".to_string(), RedisCell { value: "2".to_string(), expiry: None });
    assert_eq!(redis.get("a").unwrap().value, "1");
    assert_eq!(redis.get("b").unwrap().value, "2");
}

#[test]
fn delete_removes_the_key() {
    let mut redis = Redis::new();
    redis.set("k".to_string(), RedisCell { value: "v".to_string(), expiry: None });
    assert_eq!(redis.delete("k").unwrap().value, "v");
    assert!(redis.get("k").is_none());
    assert!(redis.delete("k").is_none());
}

#[test]
fn an_expired_read_removes_the_key() {
    let mut redis = Redis::new();
    let now = Instant { secs: 100, nanos: 0 };
    redis.set("k".to_string(), RedisCell { value: "v".to_string(), expiry: Some(Instant { secs: 100, nanos: 0 }) });
    assert!(redis.lookup_at("k", Instant { secs: 99, nanos: 999_999_999 }).is_some());
    assert!(redis.get_at("k", now).is_none());
    assert!(redis.delete("k").is_none());
}

#[test]
fn set_list_ignores_an_empty_value() {
    let mut redis = Redis::new();
    redis.set("arr".to_string(), RedisCell { value: "[a,b]".to_string(), expiry: None });
    assert_eq!(redis.set_list("arr".to_string(), String::new(), ArrayPlacement::RIGHT), Ok(2));
    assert_eq!(redis.get("arr").unwrap().value, "[a,b]");
}

#[test]
fn set_list_keeps_the_expiry() {
    let mut redis = Redis::new();
    let later = Instant { secs: 200, nanos: 0 };
    redis.set("arr".to_string(), RedisCell { value: "[a]".to_string(), expiry: Some(later) });
    assert_eq!(redis.set_list_at("arr".to_string(), "b".to_string(), ArrayPlacement::RIGHT, Instant { secs: 100, nanos: 0 }), Ok(2));
    let cell = redis.lookup_at("arr", Instant { secs: 150, nanos: 0 }).unwrap();
    assert_eq!(cell.value, "[a,b]");
    assert_eq!(cell.expiry, Some(later));
}

#[test]
fn should_to_string() {
    let mut redis = Redis::new();

    redis.set("first".to_string(), RedisCell { value: "1".to_string(), expiry: None });

    redis.set(
        "second".to_string(),
        RedisCell {
            value: "2".to_string(),
            expiry: Some(instant_of(DateTime::from(Utc.timestamp_opt((10 as i64).pow(10), 0).unwrap()))),
        },
    );

    redis.set("third".to_string(), RedisCell { value: "3".to_string(), expiry: None });

    redis.set(
        "fourth".to_string(),
        RedisCell {
            value: "4".to_string(),
            expiry: Some(instant_of(DateTime::from(Utc.timestamp_opt(1_000_000, 0).unwrap()))),
        },
    );

    let result = redis.to_text().unwrap();

    assert_eq!(
        "\nfirst,1\nfourth,4,1970-01-12 13:46:40 UTC\nsecond,2,2286-11-20 17:46:40 UTC\nthird,3",
        result.to_string()
    )
}

#[test]
fn should_to_string_empty() {
    let redis = Redis::new();

    let result = redis.to_text().unwrap();

    assert_eq!("", result.to_string())
}

#[test]
fn cells_write_their_expiry() {
    let plain = RedisCell { value: "v".to_string(), expiry: None };
    assert_eq!(plain.to_text().unwrap(), "v");
    let expiring = RedisCell { value: "v".to_string(), expiry: Some(Instant { secs: 1_431_648_000, nanos: 0 }) };
    assert_eq!(expiring.to_text().unwrap(), "v,2015-05-15 00:00:00 UTC");
    let beyond = RedisCell { value: "v".to_string(), expiry: Some(Instant { secs: i64::MAX, nanos: 0 }) };
    assert!(beyond.to_text().is_none());
}

#[test]
fn listing_orders_keys_as_strings() {
    let mut redis = Redis::new();
    for key in ["b", "a", "B", "ab", ""] {
        redis.set(key.to_string(), RedisCell { value: key.to_string(), expiry: None });
    }
    assert_eq!(redis.to_text().unwrap(), "\n,\nB,B\na,a\nab,ab\nb,b");
}
