use redis_starter_rust::store::{
    current_time_millis, DateTimeMetaBuilder, RedisStore, SetOptionalArgs,
};

#[test]
fn can_reset_store_correctly() {
    let mut store = RedisStore::new();
    store.set("key", "value", &None);
    assert_eq!(store.get("key").unwrap(), "value");

    store.reset();
    assert!(store.get("key").is_none());
}

#[test]
fn get_returns_none_if_key_is_not_found() {
    let store = RedisStore::new();
    let result = store.get("random");
    assert!(result.is_none());
}

#[test]
fn get_returns_string_if_key_is_found_and_date_time_meta_is_set_correctly() {
    // created_at is set, expire_at is not set
    {
        let mut store = RedisStore::new();
        let key = "key";
        let value = "value";

        store.set(key, value, &None);

        let result = store.get(key);
        assert!(result.is_some());
        assert_eq!(result.unwrap(), value);

        let date_time_meta = store.date_time(key);
        assert!(date_time_meta.is_some());
        let date_time = date_time_meta.unwrap();
        assert!(date_time.created_at <= current_time_millis());
        assert!(date_time.expire_at.is_none());
    }

    // created_at and expire_at are set
    {
        let mut store = RedisStore::new();
        let key = "key";
        let value = "value";

        let expire_in = 50;
        let set_args = Some(SetOptionalArgs { expire_in_ms: Some(expire_in) });
        store.set(key, value, &set_args);

        let result = store.get(key);
        assert!(result.is_some());
        assert_eq!(result.unwrap(), value);

        let date_time_meta = store.date_time(key);
        assert!(date_time_meta.is_some());

        let date_time = date_time_meta.unwrap();
        assert!(date_time.created_at <= current_time_millis());
        assert_eq!(date_time.expire_at.unwrap(), date_time.created_at + 50);
    }
}

#[test]
fn can_delete_key() {
    let mut store = RedisStore::new();
    let key = "key";
    let value = "value";

    store.set(key, value, &None);

    let result = store.get(key);
    assert!(result.is_some());
    assert_eq!(result.unwrap(), value);

    store.delete(vec![key]);

    let result = store.get(key);
    assert!(result.is_none());
}

#[test]
fn delete_counts_distinct_present_keys() {
    let mut store = RedisStore::new();
    store.set_at("a", "1", &None, 0);
    store.set_at("b", "2", &None, 0);
    assert_eq!(store.delete(vec!["a", "missing", "a", "b"]), 2);
    assert!(store.get("a").is_none());
    assert!(store.get("b").is_none());
    assert_eq!(store.delete(vec![]), 0);
}

#[test]
fn key_expires_correctly() {
    let mut store = RedisStore::new();
    let key = "key";
    let value = "value";

    let expire_in = 50;
    let set_args = Some(SetOptionalArgs { expire_in_ms: Some(expire_in) });
    store.set_at(key, value, &set_args, 10_000);

    let result = store.get(key);
    assert!(result.is_some());
    assert_eq!(result.unwrap(), value);

    assert!(!store.is_key_expired_at(key, 10_049));
    assert!(store.is_key_expired_at(key, 10_050));
    assert!(!store.is_key_expired_at("absent", 10_050));
}

#[test]
fn set_returns_previous_value_and_replaces_times() {
    let mut store = RedisStore::new();
    let with_expiry = Some(SetOptionalArgs { expire_in_ms: Some(7) });
    assert_eq!(store.set_at("k", "old", &with_expiry, 1), None);
    assert_eq!(store.set_at("k", "new", &None, 2), Some(String::from("old")));
    let meta = store.date_time("k").unwrap();
    assert_eq!(meta.created_at, 2);
    assert_eq!(meta.expire_at, None);
    assert!(!store.is_key_expired_at("k", i64::MAX));
}

#[test]
fn expiry_past_the_last_representable_time_is_dropped() {
    let mut store = RedisStore::new();
    let opts = Some(SetOptionalArgs { expire_in_ms: Some(u64::MAX) });
    store.set_at("k", "v", &opts, 5);
    assert_eq!(store.date_time("k").unwrap().expire_at, None);
    store.set_at("k", "v", &opts, -5);
    assert_eq!(store.date_time("k").unwrap().expire_at, None);
    let small = Some(SetOptionalArgs { expire_in_ms: Some(10) });
    store.set_at("k", "v", &small, -5);
    assert_eq!(store.date_time("k").unwrap().expire_at, Some(5));
}

#[test]
fn is_key_expired_with_clock() {
    let mut store = RedisStore::new();
    store.set_at("old", "v", &Some(SetOptionalArgs { expire_in_ms: Some(1) }), 0);
    assert!(store.is_key_expired("old"));
    store.set("fresh", "v", &Some(SetOptionalArgs { expire_in_ms: Some(3_600_000) }));
    assert!(!store.is_key_expired("fresh"));
    assert!(!store.is_key_expired("absent"));
}

#[test]
fn date_time_meta_builder() {
    let meta = DateTimeMetaBuilder::new(3).expire_at(Some(9)).build();
    assert_eq!(meta.created_at, 3);
    assert_eq!(meta.expire_at, Some(9));
    let plain = DateTimeMetaBuilder::new(4).build();
    assert_eq!(plain.expire_at, None);
}
