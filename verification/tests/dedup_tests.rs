use gossip_core::dedup::identify;
use gossip_core::dedup::SeenCache;

#[test]
fn identify_known_values() {
    assert_eq!(identify(&b"hello".to_vec()).hash, 0xa430_d846_80aa_bd0b_u64);
    assert_eq!(identify(&b"dup".to_vec()).hash, 0xca64_2818_f434_6d26_u64);
    assert_eq!(identify(&Vec::new()).hash, 0xcbf2_9ce4_8422_2325_u64);
}

#[test]
fn identify_is_deterministic() {
    let p = b"some payload".to_vec();
    assert_eq!(identify(&p), identify(&p));
    assert_eq!(identify(&b"x".to_vec()), identify(&b"x".to_vec()));
}

#[test]
fn identify_distinguishes_payloads() {
    assert_ne!(identify(&b"a".to_vec()), identify(&b"b".to_vec()));
    assert_ne!(identify(&b"hello".to_vec()), identify(&b"hello world".to_vec()));
    assert_ne!(identify(&b"".to_vec()), identify(&b"\0".to_vec()));
}

#[test]
fn check_and_record_suppresses_duplicates() {
    let mut cache = SeenCache::new(100);
    let id = identify(&b"msg".to_vec());
    assert!(cache.check_and_record(id, 10));
    assert!(!cache.check_and_record(id, 10));
    assert!(!cache.check_and_record(id, 50));
    assert!(cache.is_seen(id, 10));
}

#[test]
fn entries_expire_after_ttl() {
    let mut cache = SeenCache::new(5);
    let id = identify(&b"short lived".to_vec());
    assert!(cache.check_and_record(id, 0));
    assert!(cache.is_seen(id, 4));
    assert!(!cache.is_seen(id, 5));
    // after expiry the identifier counts as fresh again
    assert!(cache.check_and_record(id, 5));
    assert!(cache.is_seen(id, 9));
}

#[test]
fn distinct_ids_are_independent() {
    let mut cache = SeenCache::new(100);
    let id1 = identify(&b"one".to_vec());
    let id2 = identify(&b"two".to_vec());
    assert!(cache.check_and_record(id1, 0));
    assert!(!cache.is_seen(id2, 0));
    assert!(cache.check_and_record(id2, 0));
    assert!(!cache.check_and_record(id1, 1));
}

#[test]
fn sweep_keeps_unexpired_entries() {
    let mut cache = SeenCache::new(10);
    let id_old = identify(&b"old".to_vec());
    let id_new = identify(&b"new".to_vec());
    assert!(cache.check_and_record(id_old, 0));
    assert!(cache.check_and_record(id_new, 8));
    cache.sweep(12);
    assert!(!cache.is_seen(id_old, 12));
    assert!(cache.is_seen(id_new, 12));
}
