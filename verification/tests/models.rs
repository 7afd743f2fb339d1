use image_viewer::bootstrap::CacheDirectory;
use image_viewer::in_flight::InFlight;
use image_viewer::models::{AppState, PathTable};

#[test]
fn test_app_state() {
    let app_state = AppState::new();
    let mut image_paths = app_state.image_paths.lock().unwrap();
    image_paths.insert("key".to_string(), "value".to_string());
    assert_eq!(image_paths.get("key"), Some(&"value".to_string()));
}

#[test]
fn new_table_is_empty() {
    let table = PathTable::new();
    assert_eq!(table.get("key"), None);
    assert!(!table.contains_key("key"));
    assert!(!table.contains_key(""));
}

#[test]
fn insert_returns_what_was_bound_before() {
    let mut table = PathTable::new();
    assert_eq!(table.insert("a".to_string(), "first".to_string()), None);
    assert_eq!(table.insert("b".to_string(), "other".to_string()), None);
    assert_eq!(table.insert("a".to_string(), "second".to_string()), Some("first".to_string()));
    assert_eq!(table.get("a"), Some(&"second".to_string()));
    assert_eq!(table.get("b"), Some(&"other".to_string()));
    assert_eq!(table.get("c"), None);
}

#[test]
fn remove_unbinds_one_key_only() {
    let mut table = PathTable::new();
    table.insert("a".to_string(), "1".to_string());
    table.insert("b".to_string(), "2".to_string());
    table.insert("c".to_string(), "3".to_string());
    assert_eq!(table.remove("b"), Some("2".to_string()));
    assert_eq!(table.remove("b"), None);
    assert!(table.contains_key("a"));
    assert!(!table.contains_key("b"));
    assert_eq!(table.get("c"), Some(&"3".to_string()));
}

#[test]
fn keys_are_compared_by_their_characters() {
    let mut table = PathTable::new();
    table.insert("caf\u{e9}".to_string(), "composed".to_string());
    table.insert("cafe\u{301}".to_string(), "decomposed".to_string());
    assert_eq!(table.get("caf\u{e9}"), Some(&"composed".to_string()));
    assert_eq!(table.get("cafe\u{301}"), Some(&"decomposed".to_string()));
    assert_eq!(table.get("cafe"), None);
}

#[test]
fn a_key_is_granted_to_one_holder_at_a_time() {
    let mut guard = InFlight::new();
    assert!(!guard.is_claimed("k1"));
    assert!(guard.claim("k1"));
    assert!(guard.is_claimed("k1"));
    assert!(!guard.claim("k1"));
    assert!(guard.claim("k2"));
    guard.release("k1");
    assert!(!guard.is_claimed("k1"));
    assert!(guard.is_claimed("k2"));
    assert!(guard.claim("k1"));
}

#[test]
fn releasing_a_free_key_changes_nothing() {
    let mut guard = InFlight::new();
    guard.claim("held");
    guard.release("free");
    assert!(guard.is_claimed("held"));
    assert!(!guard.is_claimed("free"));
}

#[test]
fn the_cache_directory_is_made_once() {
    let mut directory = CacheDirectory::new("/cache/image-viewer-cache".to_string());
    assert_eq!(directory.path(), "/cache/image-viewer-cache");
    assert_eq!(directory.plan(), None);
    directory.record(Ok(()));
    assert_eq!(directory.plan(), Some(Ok(())));
    directory.record(Err("too late to matter".to_string()));
    assert_eq!(directory.plan(), Some(Ok(())));
    assert_eq!(directory.path(), "/cache/image-viewer-cache");
}

#[test]
fn a_cache_directory_that_failed_stays_failed() {
    let mut directory = CacheDirectory::new("/read-only/cache".to_string());
    directory.record(Err("Read-only file system".to_string()));
    assert_eq!(directory.plan(), Some(Err("Read-only file system".to_string())));
    directory.record(Ok(()));
    assert_eq!(directory.plan(), Some(Err("Read-only file system".to_string())));
}

#[test]
fn a_large_table_finds_every_key() {
    let mut table = PathTable::new();
    for i in 0..20_000u32 {
        assert_eq!(table.insert(format!("id-{}", i), format!("/photos/{}.jpg", i)), None);
    }
    for i in (0..20_000u32).step_by(7) {
        assert_eq!(table.get(&format!("id-{}", i)), Some(&format!("/photos/{}.jpg", i)));
    }
    assert_eq!(table.get("id-20000"), None);
    for i in (0..20_000u32).step_by(2) {
        assert_eq!(table.remove(&format!("id-{}", i)), Some(format!("/photos/{}.jpg", i)));
    }
    for i in 0..200u32 {
        assert_eq!(table.contains_key(&format!("id-{}", i)), i % 2 == 1);
    }
    assert_eq!(
        table.insert("id-1".to_string(), "/elsewhere".to_string()),
        Some("/photos/1.jpg".to_string())
    );
    assert_eq!(table.get("id-1"), Some(&"/elsewhere".to_string()));
    assert_eq!(table.get("id-3"), Some(&"/photos/3.jpg".to_string()));
}

#[test]
fn keys_that_share_a_bucket_are_kept_apart() {
    let mut table = PathTable::new();
    let keys: Vec<String> = (0..10_000u32).map(|i| format!("{:x}", i.wrapping_mul(2654435761))).collect();
    for (i, key) in keys.iter().enumerate() {
        table.insert(key.clone(), i.to_string());
    }
    for (i, key) in keys.iter().enumerate() {
        assert_eq!(table.get(key), Some(&i.to_string()));
    }
}
