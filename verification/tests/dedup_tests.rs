use stream_recorder::dedup::{calculate_frame_hash, DedupCache, DEDUP_TTL_MS};

#[test]
fn frame_hash_known_values() {
    assert_eq!(calculate_frame_hash(&[]), 0xcbf29ce484222325);
    assert_eq!(calculate_frame_hash(b"a"), 0xaf63dc4c8601ec8c);
    assert_eq!(calculate_frame_hash(b"hello"), 0xa430d84680aabd0b);
    assert_eq!(calculate_frame_hash(&[1, 2, 3]), 0xd0aa6218672cf5ab);
}

#[test]
fn frame_hash_distinguishes_content() {
    assert_ne!(calculate_frame_hash(b"frame-1"), calculate_frame_hash(b"frame-2"));
}

#[test]
fn duplicate_within_ttl_reported() {
    let mut cache = DedupCache::with_default_ttl();
    let room = "r1".to_string();
    let payload = vec![9u8, 8, 7];
    assert!(!cache.is_duplicate(&room, &payload, 1_000));
    // The same bytes well inside the window count as a duplicate.
    assert!(cache.is_duplicate(&room, &payload, 2_000));
}

#[test]
fn duplicate_expires_after_ttl() {
    let mut cache = DedupCache::new(1_000);
    let room = "r1".to_string();
    let payload = vec![5u8; 16];
    assert!(!cache.is_duplicate(&room, &payload, 0));
    // One millisecond short of the TTL: still a duplicate.
    assert!(cache.is_duplicate(&room, &payload, 999));
    // The lookup above refreshed the entry to 999; at 999 + 1000 the
    // entry has expired and the payload counts as fresh again.
    assert!(!cache.is_duplicate(&room, &payload, 1_999));
}

#[test]
fn rooms_do_not_share_dedup_state() {
    let mut cache = DedupCache::with_default_ttl();
    let r1 = "r1".to_string();
    let r2 = "r2".to_string();
    let payload = vec![1u8, 1, 2, 3, 5, 8];
    assert!(!cache.is_duplicate(&r1, &payload, 10));
    // The same bytes in a different room are not a duplicate.
    assert!(!cache.is_duplicate(&r2, &payload, 20));
    assert!(cache.is_duplicate(&r1, &payload, 30));
}

#[test]
fn default_ttl_is_one_hour() {
    assert_eq!(DEDUP_TTL_MS, 3_600_000);
}
