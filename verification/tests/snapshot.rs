use kibo::clock::{now, stamp_text, timestamp_at, timestamp_text, Timestamp};
use kibo::config::Config;
use kibo::file_hash::{hash_file, hash_symlink, EpochOffset, HashCache};
use kibo::manifest::DirectoryEntry;
use kibo::snapshot::{
    assemble, cached_entry, directory_entry, entry_mtime, hashed_entry, regular_entry, scan_step,
    symlink_entry, tally, BlobTally, BuildError, DirResult, FileMeta, ScanResult, ScanStep,
};

fn meta(size: u64) -> FileMeta {
    FileMeta {
        is_symlink: false,
        size,
        mode: 0o100644,
        modified: EpochOffset::After { secs: 1700000000, nanos: 42 },
    }
}

/// What processing a file amounts to: a cached entry, or a hashed one.
fn process_file(cache: &mut HashCache, path: &str, meta: &FileMeta, content: &[u8]) -> ScanResult {
    let entry = match cached_entry(cache, path, meta) {
        Some(entry) => entry,
        None => hashed_entry(cache, path, meta, content),
    };
    ScanResult { relative_path: path.rsplit('/').next().unwrap().to_string(), entry }
}

#[test]
fn test_process_file_regular_file() {
    let mut cache = HashCache::new();
    let result = process_file(&mut cache, "/w/test.txt", &meta(5), b"Hello");

    assert_eq!(result.relative_path, "test.txt");
    assert_eq!(result.entry.size, 5);
    assert!(!result.entry.is_symlink);
    assert_eq!(result.entry.symlink_target, None);
    assert!(!result.entry.hash.is_empty());
}

#[test]
fn test_process_file_empty_file() {
    let mut cache = HashCache::new();
    let result = process_file(&mut cache, "/w/empty.txt", &meta(0), b"");

    assert_eq!(result.entry.size, 0);
    assert!(!result.entry.is_symlink);
}

#[test]
fn test_process_file_symlink() {
    let link = FileMeta { is_symlink: true, ..meta(17) };
    let entry = symlink_entry(&link, "/w/target.txt");

    assert!(entry.is_symlink);
    assert_eq!(entry.size, 0);
    assert!(entry.symlink_target.is_some());
}

#[test]
fn test_process_file_uses_cache() {
    let mut cache = HashCache::new();

    let result1 = process_file(&mut cache, "/w/cached.txt", &meta(6), b"Cached");
    let result2 = process_file(&mut cache, "/w/cached.txt", &meta(6), b"not read again");

    assert_eq!(result1.entry.hash, result2.entry.hash);

    let cached = cache.get("/w/cached.txt", 6, 1700000000, 42);
    assert!(cached.is_some());
    assert_eq!(cached.unwrap(), hash_file(b"Cached"));
}

#[test]
fn test_process_file_preserves_permissions() {
    let mut cache = HashCache::new();
    let executable = FileMeta { mode: 0o100755, ..meta(0) };
    let result = process_file(&mut cache, "/w/perms.txt", &executable, b"");

    assert_eq!(result.entry.mode & 0o777, 0o755);
}

#[test]
fn test_process_file_distinguishes_symlinks_from_target() {
    let mut cache = HashCache::new();

    let target_result = process_file(&mut cache, "/w/target.txt", &meta(7), b"content");
    let link_entry = symlink_entry(&FileMeta { is_symlink: true, ..meta(10) }, "target.txt");

    assert!(!target_result.entry.is_symlink);
    assert_eq!(target_result.entry.symlink_target, None);
    assert_eq!(target_result.entry.size, 7);

    assert!(link_entry.is_symlink);
    assert_eq!(link_entry.symlink_target, Some("target.txt".to_string()));
    assert_eq!(link_entry.size, 0);

    assert_ne!(target_result.entry.hash, link_entry.hash);
    assert_eq!(link_entry.hash, hash_symlink("target.txt"));
}

#[test]
fn a_changed_file_is_hashed_again() {
    let mut cache = HashCache::new();
    let first = process_file(&mut cache, "/w/f", &meta(3), b"one");
    let touched =
        FileMeta { modified: EpochOffset::After { secs: 1700000001, nanos: 42 }, ..meta(3) };
    let second = process_file(&mut cache, "/w/f", &touched, b"two");
    assert_eq!(first.entry.hash, hash_file(b"one"));
    assert_eq!(second.entry.hash, hash_file(b"two"));
    assert_eq!(second.entry.mtime_secs, 1700000001);
    let grown = process_file(&mut cache, "/w/f", &FileMeta { size: 4, ..touched }, b"four");
    assert_eq!(grown.entry.hash, hash_file(b"four"));
    assert_eq!(cache.len(), 1);
    assert!(cached_entry(&cache, "/w/f", &touched).is_none());
    assert!(cached_entry(&cache, "/w/g", &FileMeta { size: 4, ..touched }).is_none());
    assert_eq!(
        cached_entry(&cache, "/w/f", &FileMeta { size: 4, ..touched }).unwrap().hash,
        hash_file(b"four")
    );
}

#[test]
fn the_time_that_an_entry_records() {
    assert_eq!(entry_mtime(EpochOffset::After { secs: 5, nanos: 6 }), (5, 6));
    assert_eq!(entry_mtime(EpochOffset::After { secs: 0, nanos: 0 }), (0, 0));
    assert_eq!(entry_mtime(EpochOffset::Before { secs: 5, nanos: 6 }), (0, 0));
    assert_eq!(entry_mtime(EpochOffset::After { secs: u64::MAX, nanos: 1 }), (i64::MAX, 1));
    assert_eq!(
        directory_entry(0o40755, EpochOffset::After { secs: 9, nanos: 8 }),
        DirectoryEntry { mode: 0o40755, mtime_secs: 9, mtime_nanos: 8 }
    );
    let before = FileMeta { modified: EpochOffset::Before { secs: 3, nanos: 4 }, ..meta(1) };
    let mut cache = HashCache::new();
    let entry = hashed_entry(&mut cache, "/w/old", &before, b"x");
    assert_eq!((entry.mtime_secs, entry.mtime_nanos), (0, 0));
    assert_eq!(cache.get("/w/old", 1, -4, 999_999_996), Some(hash_file(b"x")));
    assert_eq!(cache.get("/w/old", 1, -3, 4), None);
    assert_eq!(cache.get("/w/old", 1, 3, 4), None);
    let entry = regular_entry(&before, "h".to_string());
    assert_eq!(entry.hash, "h");
    assert_eq!(entry.size, 1);
}

#[test]
fn blobs_are_tallied() {
    assert_eq!(tally(&vec![]), BlobTally { new_blobs: 0, reused_blobs: 0 });
    assert_eq!(tally(&vec![true, false, true, true]), BlobTally { new_blobs: 3, reused_blobs: 1 });
    let mut counted = BlobTally::new();
    counted.count(false);
    counted.count(true);
    counted.count(false);
    assert_eq!(counted, BlobTally { new_blobs: 1, reused_blobs: 2 });
}

fn result(path: &str, hash: &str, size: u64) -> ScanResult {
    ScanResult { relative_path: path.to_string(), entry: regular_entry(&meta(size), hash.to_string()) }
}

#[test]
fn a_manifest_is_put_together() {
    let config = Config {
        directories: vec!["out".to_string()],
        files: vec!["*.a".to_string()],
        ignore: vec!["*.log".to_string()],
        compression_level: 4,
        ..Default::default()
    };
    let directories = vec![
        DirResult { relative_path: "out".to_string(), entry: directory_entry(0o755, EpochOffset::After { secs: 1, nanos: 0 }) },
        DirResult { relative_path: "out/sub".to_string(), entry: directory_entry(0o700, EpochOffset::After { secs: 2, nanos: 0 }) },
    ];
    let results = vec![result("out/a", "h1", 10), result("out/b", "h2", 20), result("out/a", "h3", 5)];
    let at = Timestamp { secs: 77, nanos: 88 };
    let manifest = assemble("v1", at, &config, &directories, &results).unwrap();
    assert_eq!(manifest.name, "v1");
    assert_eq!(manifest.created_at, at);
    assert_eq!(manifest.tracked_directories, vec!["out"]);
    assert_eq!(manifest.tracked_files, vec!["*.a"]);
    assert_eq!(manifest.ignored_patterns, vec!["*.log"]);
    assert_eq!(manifest.files.keys, vec!["out/a", "out/b"]);
    assert_eq!(manifest.files.get("out/a").unwrap().hash, "h3");
    assert_eq!(manifest.file_count, 2);
    assert_eq!(manifest.total_size, 25);
    assert_eq!(manifest.directories.keys, vec!["out", "out/sub"]);
    assert_eq!(manifest.directories.get("out/sub").unwrap().mode, 0o700);
    assert_eq!(manifest.db_dump_filename, None);
    assert_eq!(manifest.toolchain_info, None);
    assert_eq!(manifest.kibo_version, kibo::manifest::KIBO_VERSION);

    let too_large = vec![result("a", "h", u64::MAX), result("b", "h", 1)];
    let err = assemble("v1", at, &config, &vec![], &too_large).unwrap_err();
    assert_eq!(err, BuildError::TooLarge);
    assert!(err.message().contains("too large"));
    assert_eq!(err.message(), kibo::snapshot::TOO_LARGE);
    let replaced = vec![result("a", "h", u64::MAX), result("a", "h", 1), result("b", "h", 2)];
    assert_eq!(assemble("v1", at, &config, &vec![], &replaced).unwrap().total_size, 3);
}

#[test]
fn the_clock_is_read() {
    let at = now();
    assert!(at.secs > 1_600_000_000);
    assert!(at.nanos < 2_000_000_000);
    let later = now();
    assert!(!at.after(&later));
    let a = Timestamp { secs: 5, nanos: 1 };
    let b = Timestamp { secs: 5, nanos: 2 };
    let c = Timestamp { secs: -6, nanos: 9 };
    assert!(b.after(&a));
    assert!(!a.after(&b));
    assert!(!a.after(&a));
    assert!(a.after(&c));
    assert!(!c.after(&a));
}

#[test]
fn a_distance_from_the_epoch_is_a_point_in_time() {
    let at = |secs: i64, nanos: u32| Timestamp { secs, nanos };
    assert_eq!(timestamp_at(EpochOffset::After { secs: 0, nanos: 0 }), at(0, 0));
    assert_eq!(timestamp_at(EpochOffset::After { secs: 5, nanos: 7 }), at(5, 7));
    assert_eq!(timestamp_at(EpochOffset::Before { secs: 5, nanos: 0 }), at(-5, 0));
    assert_eq!(timestamp_at(EpochOffset::Before { secs: 1, nanos: 500_000_000 }), at(-2, 500_000_000));
    assert_eq!(timestamp_at(EpochOffset::Before { secs: 0, nanos: 1 }), at(-1, 999_999_999));
    assert_eq!(timestamp_at(EpochOffset::After { secs: u64::MAX, nanos: 1 }), at(i64::MAX, 1));
    assert_eq!(timestamp_at(EpochOffset::Before { secs: u64::MAX, nanos: 1 }), at(i64::MIN, 999_999_999));
    assert_eq!(timestamp_at(EpochOffset::Before { secs: u64::MAX, nanos: 0 }), at(i64::MIN, 0));
    assert_eq!(timestamp_at(EpochOffset::Before { secs: i64::MAX as u64, nanos: 0 }), at(-i64::MAX, 0));
    let earlier = timestamp_at(EpochOffset::Before { secs: 1, nanos: 500_000_000 });
    let later = timestamp_at(EpochOffset::Before { secs: 1, nanos: 200_000_000 });
    assert!(later.after(&earlier));
}

#[test]
fn a_point_in_time_as_text() {
    let at = |secs: i64, nanos: u32| Timestamp { secs, nanos };
    assert_eq!(timestamp_text(at(0, 0)), "1970-01-01T00:00:00+00:00");
    assert_eq!(timestamp_text(at(1767268800, 0)), "2026-01-01T12:00:00+00:00");
    assert_eq!(timestamp_text(at(1767268800, 123_000_000)), "2026-01-01T12:00:00.123+00:00");
    assert_eq!(timestamp_text(at(-1, 999_999_999)), "1969-12-31T23:59:59.999999999+00:00");
    for (secs, nanos) in [(0i64, 0u32), (1700000000, 5), (-86400, 0), (253402300799, 0)] {
        let expected = chrono::DateTime::from_timestamp(secs, nanos).unwrap().to_rfc3339();
        assert_eq!(timestamp_text(at(secs, nanos)), expected);
    }
    assert_eq!(timestamp_text(at(i64::MAX, 0)), i64::MAX.to_string());
    assert_eq!(timestamp_text(at(i64::MIN, 0)), i64::MIN.to_string());
    assert_eq!(timestamp_text(at(5, 2_000_000_000)), "5");
    assert_eq!(stamp_text(at(-7, 3), None), "-7");
    assert_eq!(stamp_text(at(0, 3), None), "0");
    assert_eq!(stamp_text(at(-7, 3), Some("given".to_string())), "given");
}

#[test]
fn the_step_for_a_scanned_path() {
    let mut cache = HashCache::new();
    let file = meta(3);
    assert!(matches!(scan_step(&cache, "/w/f", &file), ScanStep::ReadAndHash));
    let link = FileMeta { is_symlink: true, ..meta(3) };
    assert!(matches!(scan_step(&cache, "/w/f", &link), ScanStep::ReadLink));

    let hashed = hashed_entry(&mut cache, "/w/f", &file, b"one");
    match scan_step(&cache, "/w/f", &file) {
        ScanStep::UseCached(entry) => {
            assert_eq!(entry, hashed);
            assert_eq!(entry.hash, hash_file(b"one"));
            assert_eq!(entry.size, 3);
            assert!(!entry.is_symlink);
        }
        other => panic!("unexpected {:?}", other),
    }
    assert!(matches!(scan_step(&cache, "/w/f", &link), ScanStep::ReadLink));
    assert!(matches!(scan_step(&cache, "/w/g", &file), ScanStep::ReadAndHash));
    assert!(matches!(scan_step(&cache, "/w/f", &meta(4)), ScanStep::ReadAndHash));
    let before = FileMeta { modified: EpochOffset::Before { secs: 0, nanos: 500_000_000 }, ..meta(3) };
    let after = FileMeta { modified: EpochOffset::After { secs: 0, nanos: 500_000_000 }, ..meta(3) };
    hashed_entry(&mut cache, "/w/h", &after, b"two");
    assert!(matches!(scan_step(&cache, "/w/h", &after), ScanStep::UseCached(_)));
    assert!(matches!(scan_step(&cache, "/w/h", &before), ScanStep::ReadAndHash));
}
