use ucodex_core::cache::{is_cacheable, ProxyCache, CACHE_MAX_SIZE, CACHE_TTL_MS};
use ucodex_core::json::Json;
use ucodex_core::usage::TokenUsage;

fn object(members: Vec<(&str, Json)>) -> Json {
    Json::Object(members.into_iter().map(|(k, v)| (k.to_string(), v)).collect())
}

#[test]
fn test_cache_key_deterministic() {
    let body = r#"{"model":"test","messages":[]}"#;
    let key1 = ProxyCache::cache_key(body);
    let key2 = ProxyCache::cache_key(body);
    assert_eq!(key1, key2);
}

#[test]
fn test_cache_key_different() {
    let key1 = ProxyCache::cache_key(r#"{"model":"a"}"#);
    let key2 = ProxyCache::cache_key(r#"{"model":"b"}"#);
    assert_ne!(key1, key2);
}

#[test]
fn test_is_cacheable() {
    let body = object(vec![("model", Json::String("test".to_string()))]);
    assert!(is_cacheable(&body));

    let body = object(vec![("model", Json::String("test".to_string())), ("stream", Json::Bool(true))]);
    assert!(!is_cacheable(&body));
}

#[test]
fn stream_false_is_cacheable() {
    let body = object(vec![("stream", Json::Bool(false))]);
    assert!(is_cacheable(&body));
}

#[test]
fn cache_key_is_lowercase_hex() {
    let key = ProxyCache::cache_key("abc");
    assert!(!key.is_empty());
    assert!(key.chars().all(|c| c.is_ascii_hexdigit() && !c.is_ascii_uppercase()));
    assert_ne!(key, "abc");
}

fn usage(model: &str) -> TokenUsage {
    let mut u = TokenUsage::new();
    u.model = model.to_string();
    u.total_tokens = 7;
    u
}

#[test]
fn hit_until_expiry_then_miss() {
    let mut cache = ProxyCache::new();
    cache.insert("k".to_string(), b"resp".to_vec(), usage("m"), 1000);
    let hit = cache.get(&"k".to_string(), 1000 + CACHE_TTL_MS - 1);
    let (body, u) = hit.expect("entry is live");
    assert_eq!(body, b"resp".to_vec());
    assert_eq!(u.total_tokens, 7);
    assert!(cache.get(&"k".to_string(), 1000 + CACHE_TTL_MS).is_none());
    assert!(cache.get(&"other".to_string(), 1000).is_none());
    let m = cache.metrics();
    assert_eq!(m.hits, 1);
    assert_eq!(m.misses, 2);
    assert_eq!(m.size, 1);
    assert_eq!(m.max_size, CACHE_MAX_SIZE);
}

#[test]
fn insert_replaces_same_key() {
    let mut cache = ProxyCache::new();
    cache.insert("k".to_string(), b"one".to_vec(), usage("a"), 0);
    cache.insert("k".to_string(), b"two".to_vec(), usage("b"), 5);
    assert_eq!(cache.metrics().size, 1);
    let (body, u) = cache.get(&"k".to_string(), 10).unwrap();
    assert_eq!(body, b"two".to_vec());
    assert_eq!(u.model, "b");
}

#[test]
fn remove_expired_counts_before_and_after() {
    let mut cache = ProxyCache::new();
    cache.insert("old".to_string(), vec![1], usage("a"), 0);
    cache.insert("new".to_string(), vec![2], usage("b"), CACHE_TTL_MS - 1);
    let (before, after) = cache.remove_expired(CACHE_TTL_MS + 1);
    assert_eq!((before, after), (2, 1));
    assert!(cache.get(&"new".to_string(), CACHE_TTL_MS + 1).is_some());
}

#[test]
fn full_cache_evicts_earliest_insert() {
    let mut cache = ProxyCache::new();
    for i in 0..CACHE_MAX_SIZE {
        cache.insert(format!("k{i}"), vec![], usage("m"), i as u64);
    }
    assert_eq!(cache.metrics().size, CACHE_MAX_SIZE);
    cache.insert("extra".to_string(), vec![], usage("m"), CACHE_MAX_SIZE as u64);
    assert_eq!(cache.metrics().size, CACHE_MAX_SIZE);
    assert!(cache.get(&"k0".to_string(), CACHE_MAX_SIZE as u64).is_none());
    assert!(cache.get(&"k1".to_string(), CACHE_MAX_SIZE as u64).is_some());
    assert!(cache.get(&"extra".to_string(), CACHE_MAX_SIZE as u64).is_some());
}
