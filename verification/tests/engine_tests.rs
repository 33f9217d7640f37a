use scramjet::engine::{acquire_step, AcquireAction, SessionCache};
use scramjet::keys::IngressAddress;

fn addr(n: u32, port: u16) -> IngressAddress {
    IngressAddress::v4(n, port)
}

#[test]
fn test_cache_insert_lookup_remove() {
    let mut cache: SessionCache<u32> = SessionCache::new();
    let a = addr(1, 8000);
    let b = addr(2, 8001);

    assert!(cache.lookup(a).is_none());
    cache.insert(a, 7);
    cache.insert(b, 8);
    assert_eq!(cache.lookup(a), Some(&7));
    assert_eq!(cache.lookup(b), Some(&8));
    assert_eq!(cache.len(), 2);

    // Replacing keeps one session per address.
    cache.insert(a, 9);
    assert_eq!(cache.lookup(a), Some(&9));
    assert_eq!(cache.len(), 2);

    cache.remove(a);
    assert!(cache.lookup(a).is_none());
    assert_eq!(cache.lookup(b), Some(&8));
    assert_eq!(cache.len(), 1);

    // Removing an absent entry changes nothing.
    cache.remove(a);
    assert_eq!(cache.len(), 1);
}

#[test]
fn test_acquire_reuses_live_session() {
    let mut cache: SessionCache<u32> = SessionCache::new();
    let a = addr(1, 8000);
    cache.insert(a, 42);

    // The probe saw the cached session open: reuse it, keep the cache.
    let action = acquire_step(&mut cache, a, Some(false));
    assert!(matches!(action, AcquireAction::UseCached));
    assert_eq!(cache.lookup(a), Some(&42));
}

#[test]
fn test_acquire_evicts_closed_session() {
    let mut cache: SessionCache<u32> = SessionCache::new();
    let a = addr(1, 8000);
    cache.insert(a, 42);

    // The probe saw the session terminally closed: evict and redial.
    let action = acquire_step(&mut cache, a, Some(true));
    assert!(matches!(action, AcquireAction::Handshake));
    assert!(cache.lookup(a).is_none());
}

#[test]
fn test_acquire_misses_empty_cache() {
    let mut cache: SessionCache<u32> = SessionCache::new();
    let a = addr(1, 8000);
    let action = acquire_step(&mut cache, a, None);
    assert!(matches!(action, AcquireAction::Handshake));

    // The fresh session is then stored and found by the next probe.
    cache.insert(a, 5);
    assert_eq!(cache.lookup(a), Some(&5));
}
