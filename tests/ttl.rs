use aegisr::{CacheEntry, CacheSlot, TtlCache};

#[test]
fn zero_ttl_is_gone_at_once() {
    let mut c = TtlCache::new();
    c.set("k", "v", Some(0), 100);
    assert_eq!(c.get("k", 100), None);
    assert_eq!(c.get("k", 200), None);
    assert!(c.slots.is_empty());
}

#[test]
fn no_ttl_never_expires() {
    let mut c = TtlCache::new();
    c.set("k", "v", None, 100);
    assert_eq!(c.get("k", 100), Some("v".to_string()));
    assert_eq!(c.get("k", u64::MAX), Some("v".to_string()));
}

#[test]
fn ttl_expires_at_deadline() {
    let mut c = TtlCache::new();
    c.set("k", "v", Some(10), 100);
    assert_eq!(c.get("k", 109), Some("v".to_string()));
    assert_eq!(c.get("k", 110), None);
    assert_eq!(c.get("k", 50), None);
}

#[test]
fn ttl_saturates() {
    let mut c = TtlCache::new();
    c.set("k", "v", Some(u64::MAX), 5);
    assert_eq!(c.slots[0].entry.expires_at, Some(u64::MAX));
    assert_eq!(c.get("k", u64::MAX - 1), Some("v".to_string()));
}

#[test]
fn untouched_expired_entries_stay() {
    let mut c = TtlCache::new();
    c.set("a", "1", Some(1), 0);
    c.set("b", "2", None, 0);
    assert_eq!(c.get("b", 1000), Some("2".to_string()));
    assert_eq!(c.slots.len(), 2);
    assert_eq!(c.get("missing", 1000), None);
}

#[test]
fn set_overwrites() {
    let mut c = TtlCache::new();
    c.set("k", "1", Some(0), 0);
    c.set("k", "2", None, 0);
    assert_eq!(c.get("k", 10), Some("2".to_string()));
    assert_eq!(c.slots.len(), 1);
}

#[test]
fn from_slots_later_wins_and_keeps_expired() {
    let slots = vec![
        CacheSlot {
            key: "a".to_string(),
            entry: CacheEntry { value: "1".to_string(), expires_at: Some(0) },
        },
        CacheSlot {
            key: "b".to_string(),
            entry: CacheEntry { value: "2".to_string(), expires_at: None },
        },
        CacheSlot {
            key: "b".to_string(),
            entry: CacheEntry { value: "3".to_string(), expires_at: None },
        },
    ];
    let mut c = TtlCache::from_slots(slots);
    assert_eq!(c.slots.len(), 2);
    assert_eq!(c.get("b", 0), Some("3".to_string()));
    assert_eq!(c.get("a", 0), None);
}
