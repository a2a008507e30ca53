use kibo::file_hash::{
    epoch_offset, hash_file, hash_symlink, secs_nanos, system_time_to_secs_nanos, EpochOffset,
    HashCache,
};
use std::time::{Duration, UNIX_EPOCH};
use tempfile::TempDir;

#[test]
fn test_hash_cache_new() {
    let cache = HashCache::new();
    assert_eq!(cache.entries.len(), 0);
}

#[test]
fn test_hash_cache_insert_and_get() {
    let mut cache = HashCache::new();
    let temp_dir = TempDir::new().unwrap();
    let file_path = temp_dir.path().join("test.txt");
    let file_path = file_path.to_string_lossy();

    let size = 100;
    let mtime = UNIX_EPOCH + Duration::from_secs(1234567890);
    let (secs, nanos) = system_time_to_secs_nanos(mtime);
    let hash = "abc123".to_string();

    cache.insert(&file_path, size, secs, nanos, hash.clone());

    let retrieved = cache.get(&file_path, size, secs, nanos);
    assert_eq!(retrieved, Some(hash));
}

#[test]
fn test_hash_cache_get_miss_different_size() {
    let mut cache = HashCache::new();
    let temp_dir = TempDir::new().unwrap();
    let file_path = temp_dir.path().join("test.txt");
    let file_path = file_path.to_string_lossy();

    let size = 100;
    let mtime = UNIX_EPOCH + Duration::from_secs(1234567890);
    let (secs, nanos) = system_time_to_secs_nanos(mtime);
    let hash = "abc123".to_string();

    cache.insert(&file_path, size, secs, nanos, hash);

    let retrieved = cache.get(&file_path, size + 1, secs, nanos);
    assert_eq!(retrieved, None);
}

#[test]
fn test_hash_cache_get_miss_different_mtime() {
    let mut cache = HashCache::new();
    let temp_dir = TempDir::new().unwrap();
    let file_path = temp_dir.path().join("test.txt");
    let file_path = file_path.to_string_lossy();

    let size = 100;
    let mtime1 = UNIX_EPOCH + Duration::from_secs(1234567890);
    let mtime2 = UNIX_EPOCH + Duration::from_secs(1234567891);
    let (secs1, nanos1) = system_time_to_secs_nanos(mtime1);
    let (secs2, nanos2) = system_time_to_secs_nanos(mtime2);
    let hash = "abc123".to_string();

    cache.insert(&file_path, size, secs1, nanos1, hash);

    let retrieved = cache.get(&file_path, size, secs2, nanos2);
    assert_eq!(retrieved, None);
}

#[test]
fn test_hash_cache_get_miss_no_entry() {
    let cache = HashCache::new();
    let temp_dir = TempDir::new().unwrap();
    let file_path = temp_dir.path().join("nonexistent.txt");
    let (secs, nanos) = system_time_to_secs_nanos(UNIX_EPOCH);

    let retrieved = cache.get(&file_path.to_string_lossy(), 100, secs, nanos);
    assert_eq!(retrieved, None);
}

#[test]
fn test_hash_cache_multiple_entries() {
    let mut cache = HashCache::new();
    let temp_dir = TempDir::new().unwrap();

    for i in 0..10 {
        let file_path = temp_dir.path().join(format!("file{}.txt", i));
        let size = 100 + i as u64;
        let mtime = UNIX_EPOCH + Duration::from_secs(1234567890 + i);
        let (secs, nanos) = system_time_to_secs_nanos(mtime);
        let hash = format!("hash{}", i);

        cache.insert(&file_path.to_string_lossy(), size, secs, nanos, hash);
    }

    assert_eq!(cache.entries.len(), 10);
}

#[test]
fn test_system_time_to_secs_nanos_positive() {
    let time = UNIX_EPOCH + Duration::from_secs(1234567890) + Duration::from_nanos(123456789);
    let (secs, nanos) = system_time_to_secs_nanos(time);

    assert_eq!(secs, 1234567890);
    assert_eq!(nanos, 123456789);
}

#[test]
fn test_system_time_to_secs_nanos_epoch() {
    let time = UNIX_EPOCH;
    let (secs, nanos) = system_time_to_secs_nanos(time);

    assert_eq!(secs, 0);
    assert_eq!(nanos, 0);
}

#[test]
fn test_hash_file_empty() {
    let hash = hash_file(b"");

    assert!(!hash.is_empty());
    assert_eq!(hash.len(), 64);
}

#[test]
fn test_hash_file_with_content() {
    let hash1 = hash_file(b"Hello, World!");
    let hash2 = hash_file(b"Hello, World!");

    assert_eq!(hash1, hash2);
    assert_eq!(hash1.len(), 64);
}

#[test]
fn test_hash_file_different_content_different_hash() {
    let hash1 = hash_file(b"Content 1");
    let hash2 = hash_file(b"Content 2");

    assert_ne!(hash1, hash2);
}

#[test]
fn test_hash_file_large_file() {
    let large_data = vec![b'x'; 64 * 1024 * 3];
    let hash = hash_file(&large_data);
    assert_eq!(hash.len(), 64);
}

#[test]
fn test_hash_symlink() {
    let hash = hash_symlink("/tmp/somewhere/target.txt");

    assert_eq!(hash.len(), 64);

    let hash2 = hash_symlink("/tmp/somewhere/target.txt");
    assert_eq!(hash, hash2);
}

#[test]
fn test_hash_symlink_different_targets() {
    let hash1 = hash_symlink("/tmp/somewhere/target1.txt");
    let hash2 = hash_symlink("/tmp/somewhere/target2.txt");

    assert_ne!(hash1, hash2);
}

#[test]
fn test_hash_cache_update_entry() {
    let mut cache = HashCache::new();
    let temp_dir = TempDir::new().unwrap();
    let file_path = temp_dir.path().join("test.txt");
    let file_path = file_path.to_string_lossy();

    let size = 100;
    let mtime = UNIX_EPOCH + Duration::from_secs(1234567890);
    let (secs, nanos) = system_time_to_secs_nanos(mtime);
    let hash1 = "hash1".to_string();
    let hash2 = "hash2".to_string();

    cache.insert(&file_path, size, secs, nanos, hash1);
    cache.insert(&file_path, size, secs, nanos, hash2.clone());

    let retrieved = cache.get(&file_path, size, secs, nanos);
    assert_eq!(retrieved, Some(hash2));
    assert_eq!(cache.len(), 1);
}

#[test]
fn hashes_are_the_known_digests() {
    assert_eq!(
        hash_file(b""),
        "af1349b9f5f9a1a6a0404dea36dcc9499bcb25c9adc112b7cc9a93cae41f3262"
    );
    assert_eq!(hash_file(b"hello"), blake3::hash(b"hello").to_hex().to_string());
    assert_eq!(hash_symlink("data"), blake3::hash(b"data").to_hex().to_string());
    assert_eq!(hash_symlink("data"), hash_file(b"data"));
    assert_ne!(hash_file(b"hello"), "hello");
    let hash = hash_file(b"hello");
    assert!(hash.chars().all(|c| c.is_ascii_digit() || ('a'..='f').contains(&c)));
}

#[test]
fn times_before_the_epoch_are_negative() {
    let time = UNIX_EPOCH - Duration::from_secs(10) - Duration::from_nanos(5);
    assert_eq!(system_time_to_secs_nanos(time), (-11, 999_999_995));
    assert_eq!(system_time_to_secs_nanos(UNIX_EPOCH - Duration::from_secs(10)), (-10, 0));
    assert_eq!(system_time_to_secs_nanos(UNIX_EPOCH - Duration::from_millis(500)), (-1, 500_000_000));
    assert_eq!(system_time_to_secs_nanos(UNIX_EPOCH + Duration::from_millis(500)), (0, 500_000_000));
    assert_eq!(epoch_offset(time), EpochOffset::Before { secs: 10, nanos: 5 });
    assert_eq!(
        epoch_offset(UNIX_EPOCH + Duration::from_secs(3)),
        EpochOffset::After { secs: 3, nanos: 0 }
    );
    assert_eq!(secs_nanos(EpochOffset::Before { secs: 10, nanos: 5 }), (-11, 999_999_995));
    assert_eq!(secs_nanos(EpochOffset::Before { secs: 10, nanos: 0 }), (-10, 0));
    assert_eq!(secs_nanos(EpochOffset::After { secs: 10, nanos: 5 }), (10, 5));
    assert_eq!(secs_nanos(EpochOffset::After { secs: 0, nanos: 0 }), (0, 0));
    assert_eq!(secs_nanos(EpochOffset::After { secs: i64::MAX as u64, nanos: 1 }), (i64::MAX, 1));
    assert_eq!(secs_nanos(EpochOffset::After { secs: u64::MAX, nanos: 1 }), (i64::MAX, 1));
    assert_eq!(secs_nanos(EpochOffset::After { secs: 1u64 << 63, nanos: 0 }), (i64::MAX, 0));
    assert_eq!(secs_nanos(EpochOffset::Before { secs: 1u64 << 63, nanos: 0 }), (i64::MIN, 0));
    assert_eq!(secs_nanos(EpochOffset::Before { secs: i64::MAX as u64, nanos: 0 }), (-i64::MAX, 0));
    assert_eq!(
        secs_nanos(EpochOffset::Before { secs: i64::MAX as u64, nanos: 1 }),
        (i64::MIN, 999_999_999)
    );
    assert_eq!(secs_nanos(EpochOffset::Before { secs: u64::MAX, nanos: 0 }), (i64::MIN, 0));
    assert_eq!(secs_nanos(EpochOffset::Before { secs: 0, nanos: 7 }), (-1, 999_999_993));
    assert_eq!(secs_nanos(EpochOffset::Before { secs: 0, nanos: 999_999_999 }), (-1, 1));
}

#[test]
fn a_changed_size_or_time_misses_the_cache() {
    let mut cache = HashCache::new();
    cache.insert("/w/a", 5, 100, 7, "h".to_string());
    assert_eq!(cache.get("/w/a", 5, 100, 7), Some("h".to_string()));
    assert_eq!(cache.get("/w/a", 6, 100, 7), None);
    assert_eq!(cache.get("/w/a", 5, 101, 7), None);
    assert_eq!(cache.get("/w/a", 5, 100, 8), None);
    assert_eq!(cache.get("/w/b", 5, 100, 7), None);
    cache.insert("/w/b", 1, 2, 3, "k".to_string());
    assert_eq!(cache.get("/w/a", 5, 100, 7), Some("h".to_string()));
    assert_eq!(cache.get("/w/b", 1, 2, 3), Some("k".to_string()));
}

#[test]
fn a_time_before_the_epoch_is_not_taken_for_one_after_it() {
    let mut cache = HashCache::new();
    let after = system_time_to_secs_nanos(UNIX_EPOCH + Duration::from_millis(500));
    let before = system_time_to_secs_nanos(UNIX_EPOCH - Duration::from_millis(500));
    assert_ne!(after, before);
    cache.insert("/w/p", 100, after.0, after.1, "h".to_string());
    assert_eq!(cache.get("/w/p", 100, after.0, after.1), Some("h".to_string()));
    assert_eq!(cache.get("/w/p", 100, before.0, before.1), None);

    let mut seen = std::collections::HashSet::new();
    for millis in 0..4000u64 {
        let time = if millis < 2000 {
            UNIX_EPOCH - Duration::from_millis(2000 - millis)
        } else {
            UNIX_EPOCH + Duration::from_millis(millis - 2000)
        };
        let key = system_time_to_secs_nanos(time);
        assert!(seen.insert(key), "{:?} stands for two times", key);
        let nanos_since = key.0 as i128 * 1_000_000_000 + key.1 as i128;
        assert_eq!(nanos_since, (millis as i128 - 2000) * 1_000_000);
    }
}
