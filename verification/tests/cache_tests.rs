use paperfold::cache::{sanitize_name, CacheAction, CacheManager};
use paperfold::records::{FileMetadata, SYNTHETIC_MESSAGE_ID};

fn record(id: &str, name: &str, size: i64, message_id: i32) -> FileMetadata {
    FileMetadata {
        id: id.to_string(),
        folder_id: None,
        name: name.to_string(),
        size,
        mime_type: "application/octet-stream".to_string(),
        message_id,
        created_at: 0,
        trashed: false,
        trashed_at: None,
        is_starred: false,
        thumbnail: None,
    }
}

#[test]
fn matching_cached_copy_is_served_without_fetch() {
    let s: u64 = 4096;
    assert_eq!(CacheManager::plan_fetch(true, s, s as i64, 9), CacheAction::UseLocal);
}

#[test]
fn mismatched_cached_copy_is_replaced() {
    let s: i64 = 4096;
    assert_eq!(
        CacheManager::plan_fetch(true, 4095, s, 9),
        CacheAction::Fetch { remove_stale: true }
    );
    assert_eq!(
        CacheManager::plan_fetch(true, 4097, s, 9),
        CacheAction::Fetch { remove_stale: true }
    );
}

#[test]
fn missing_copy_is_fetched_fresh() {
    assert_eq!(
        CacheManager::plan_fetch(false, 0, 4096, 9),
        CacheAction::Fetch { remove_stale: false }
    );
}

#[test]
fn sentinel_materializes_an_empty_file() {
    assert_eq!(
        CacheManager::plan_fetch(false, 0, 0, SYNTHETIC_MESSAGE_ID),
        CacheAction::CreateEmpty { remove_stale: false }
    );
    assert_eq!(
        CacheManager::plan_fetch(true, 7, 0, SYNTHETIC_MESSAGE_ID),
        CacheAction::CreateEmpty { remove_stale: true }
    );
    // A sentinel record whose empty copy already exists is a plain hit.
    assert_eq!(
        CacheManager::plan_fetch(true, 0, 0, SYNTHETIC_MESSAGE_ID),
        CacheAction::UseLocal
    );
}

#[test]
fn cache_file_name_joins_id_and_sanitized_name() {
    let f = record("abc", "a/b c.txt", 10, 3);
    assert_eq!(CacheManager::cache_file_name(&f), "abc_a_b c.txt");
}

#[test]
fn sanitize_replaces_every_slash() {
    assert_eq!(sanitize_name("a/b/c"), "a_b_c");
    assert_eq!(sanitize_name("//"), "__");
    assert_eq!(sanitize_name("plain.txt"), "plain.txt");
    assert_eq!(sanitize_name(""), "");
}

#[test]
fn manager_keeps_its_directory() {
    let m = CacheManager::new("/tmp/cache".to_string());
    assert_eq!(m.cache_dir(), "/tmp/cache");
}
