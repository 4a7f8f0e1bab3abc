use aegisr::{AegCore, AegFileSystem, AegMemoryEngine, MemoryCache};

fn sorted(mut v: Vec<(String, String)>) -> Vec<(String, String)> {
    v.sort();
    v
}

#[test]
fn put_then_get_in_memory() {
    let core = AegCore::new();
    let mut cache = MemoryCache::new();
    core.put_value(&mut cache, "k", "v");
    assert_eq!(core.get_value(&cache, "k"), Some("v".to_string()));
    core.put_value(&mut cache, "k", "w");
    assert_eq!(core.get_value(&cache, "k"), Some("w".to_string()));
    assert_eq!(core.get_value(&cache, "other"), None);
}

#[test]
fn values_are_per_collection() {
    let mut core = AegCore::new();
    let mut cache = MemoryCache::new();
    core.put_value(&mut cache, "k", "1");
    core.create_collection("work").unwrap();
    core.set_active_collection("work").unwrap();
    assert_eq!(core.get_value(&cache, "k"), None);
    core.put_value(&mut cache, "k", "2");
    assert_eq!(core.get_value(&cache, "k"), Some("2".to_string()));
    core.set_active_collection("default").unwrap();
    assert_eq!(core.get_value(&cache, "k"), Some("1".to_string()));
}

#[test]
fn delete_value_reports_presence() {
    let core = AegCore::new();
    let mut cache = MemoryCache::new();
    core.put_value(&mut cache, "a", "1");
    assert!(core.delete_value(&mut cache, "a"));
    assert_eq!(core.get_value(&cache, "a"), None);
    assert!(!core.delete_value(&mut cache, "a"));
}

#[test]
fn clear_values_empties_active_collection() {
    let core = AegCore::new();
    let mut cache = MemoryCache::new();
    core.put_value(&mut cache, "a", "1");
    core.put_value(&mut cache, "b", "2");
    core.clear_values(&mut cache);
    assert_eq!(core.get_value(&cache, "a"), None);
    assert_eq!(core.get_value(&cache, "b"), None);
    assert!(cache.contains("default"));
}

#[test]
fn engine_insert_publishes_to_cache() {
    let mut cache = MemoryCache::new();
    let mut engine = AegMemoryEngine::new("c");
    engine.insert("x", "1", &mut cache);
    engine.insert("y", "2", &mut cache);
    engine.insert("x", "3", &mut cache);
    let cached = cache.lookup("c").unwrap();
    assert_eq!(cached.get("x"), Some("3".to_string()));
    assert_eq!(
        sorted(cached.list()),
        vec![("x".to_string(), "3".to_string()), ("y".to_string(), "2".to_string())]
    );
    engine.delete("x", &mut cache);
    assert_eq!(cache.lookup("c").unwrap().get("x"), None);
    engine.clear(&mut cache);
    assert!(cache.lookup("c").unwrap().list().is_empty());
}

#[test]
fn load_prefers_cache_then_disk_then_empty() {
    let mut cache = MemoryCache::new();
    let stored = AegMemoryEngine::from_pairs("c", vec![("a".to_string(), "1".to_string())]);
    let first = AegMemoryEngine::load(&mut cache, "c", Some(stored));
    assert_eq!(first.get("a"), Some("1".to_string()));
    let other = AegMemoryEngine::from_pairs("c", vec![("a".to_string(), "9".to_string())]);
    let second = AegMemoryEngine::load(&mut cache, "c", Some(other));
    assert_eq!(second.get("a"), Some("1".to_string()));
    let fresh = AegMemoryEngine::load(&mut cache, "d", None);
    assert!(fresh.list().is_empty());
    assert_eq!(fresh.collection_name, "d");
    assert!(cache.contains("d"));
}

#[test]
fn from_pairs_later_pair_wins() {
    let e = AegMemoryEngine::from_pairs(
        "c",
        vec![
            ("a".to_string(), "1".to_string()),
            ("b".to_string(), "2".to_string()),
            ("a".to_string(), "3".to_string()),
        ],
    );
    assert_eq!(e.get("a"), Some("3".to_string()));
    assert_eq!(e.list().len(), 2);
}

#[test]
fn discard_drops_collection() {
    let core = AegCore::new();
    let mut cache = MemoryCache::new();
    core.put_value(&mut cache, "a", "1");
    cache.discard("default");
    assert!(!cache.contains("default"));
    assert_eq!(core.get_value(&cache, "a"), None);
}

#[test]
fn flush_then_reload_gives_same_pairs() {
    let key = aegisr::AegCrypto::derive_authorization_key(&[7u8; 32]);
    let core = AegCore::new();
    let mut cache = MemoryCache::new();
    core.put_value(&mut cache, "a", "1");
    core.put_value(&mut cache, "b", "two words");
    let snapshot = AegCore::flush_now(&cache);
    assert_eq!(snapshot.len(), 1);
    let engine = &snapshot[0];
    let mut obj = serde_json::Map::new();
    for (k, v) in engine.list() {
        obj.insert(k, serde_json::Value::String(v));
    }
    let json = serde_json::Value::Object(obj).to_string();
    let sealed = AegFileSystem::seal_document(&json, &key).unwrap();

    let opened = AegFileSystem::open_document(&sealed, &key).unwrap();
    assert_eq!(opened, json);
    let parsed: serde_json::Map<String, serde_json::Value> = serde_json::from_str(&opened).unwrap();
    let pairs: Vec<(String, String)> = parsed
        .into_iter()
        .map(|(k, v)| (k, v.as_str().unwrap().to_string()))
        .collect();
    let mut fresh = MemoryCache::new();
    let restored = AegMemoryEngine::from_pairs("default", pairs);
    let loaded = AegMemoryEngine::load(&mut fresh, "default", Some(restored));
    assert_eq!(sorted(loaded.list()), sorted(engine.list()));
    assert_eq!(core.get_value(&fresh, "b"), Some("two words".to_string()));
}

#[test]
fn flush_now_copies_every_collection() {
    let mut core = AegCore::new();
    let mut cache = MemoryCache::new();
    core.put_value(&mut cache, "a", "1");
    core.create_collection("w").unwrap();
    core.set_active_collection("w").unwrap();
    core.put_value(&mut cache, "b", "2");
    let snap = AegCore::flush_now(&cache);
    let mut names: Vec<String> = snap.iter().map(|e| e.collection_name.clone()).collect();
    names.sort();
    assert_eq!(names, vec!["default".to_string(), "w".to_string()]);
}
