use kibo::config::Config;
use kibo::select::{
    enters_scan, full_pattern, is_in_state_dir, select_directories, select_files, tracked_roots,
    PatternHit, WalkedDir,
};
use std::io::Write;
use std::path::{Path, PathBuf};
use tempfile::{Builder, NamedTempFile, TempDir};
use walkdir::WalkDir;

fn mkdir(parent: &Path, name: &str) -> PathBuf {
    let mut at = parent.to_path_buf();
    for part in name.split('/') {
        let next = at.join(part);
        if !next.exists() {
            Builder::new().prefix(part).rand_bytes(0).tempdir_in(&at).unwrap().keep();
        }
        at = next;
    }
    at
}

fn mkfile(root: &Path, name: &str, content: &[u8]) -> PathBuf {
    let path = root.join(name);
    let mut file = NamedTempFile::new_in(path.parent().unwrap()).unwrap();
    file.write_all(content).unwrap();
    file.persist(&path).unwrap();
    path
}

fn relative(root: &Path, path: &Path) -> Option<String> {
    path.strip_prefix(root).ok().map(|p| p.to_string_lossy().to_string())
}

fn walk_directories(root: &Path, ignore: &Vec<String>) -> Vec<WalkedDir> {
    WalkDir::new(root)
        .follow_links(false)
        .sort_by_file_name()
        .into_iter()
        .filter_entry(|e| match relative(root, e.path()) {
            Some(rel) => enters_scan(&e.file_name().to_string_lossy(), &rel, ignore),
            None => true,
        })
        .filter_map(|e| e.ok())
        .filter(|e| e.file_type().is_dir())
        .filter_map(|e| {
            let name = e.path().file_name()?.to_string_lossy().to_string();
            Some(WalkedDir { name, path: relative(root, e.path())? })
        })
        .collect()
}

fn pattern_hits(root: &Path, pattern: &str) -> Vec<PatternHit> {
    let full = full_pattern(&root.display().to_string(), pattern);
    match glob::glob(&full) {
        Ok(paths) => paths
            .filter_map(Result::ok)
            .filter_map(|entry| {
                Some(PatternHit {
                    path: relative(root, &entry)?,
                    is_dir: entry.is_dir(),
                    is_file: entry.is_file(),
                })
            })
            .collect(),
        Err(_) => Vec::new(),
    }
}

fn collect_files(root: &Path, config: &Config) -> Vec<(String, PathBuf)> {
    let dirs = walk_directories(root, &config.ignore);
    let found = tracked_roots(&config.directories, &dirs);
    let mut walked = Vec::new();
    for dir in &found {
        for entry in WalkDir::new(root.join(dir))
            .follow_links(false)
            .sort_by_file_name()
            .into_iter()
            .filter_entry(|e| match relative(root, e.path()) {
                Some(rel) => !config.should_ignore(&rel),
                None => true,
            })
            .filter_map(|e| e.ok())
        {
            if !entry.file_type().is_dir() {
                walked.push(relative(root, entry.path()).unwrap());
            }
        }
    }
    let mut hits = Vec::new();
    for pattern in &config.files {
        hits.extend(pattern_hits(root, pattern));
    }
    select_files(&walked, &hits, &config.ignore)
        .into_iter()
        .map(|rel| {
            let absolute = root.join(&rel);
            (rel, absolute)
        })
        .collect()
}

fn collect_directories(root: &Path, config: &Config) -> Vec<String> {
    let dirs = walk_directories(root, &config.ignore);
    let found = tracked_roots(&config.directories, &dirs);
    let mut walked = Vec::new();
    for dir in &found {
        for entry in WalkDir::new(root.join(dir))
            .follow_links(false)
            .sort_by_file_name()
            .into_iter()
            .filter_map(|e| e.ok())
        {
            if entry.file_type().is_dir() {
                walked.push(relative(root, entry.path()).unwrap());
            }
        }
    }
    select_directories(&walked, &config.ignore)
}

#[test]
fn test_collect_files_empty_config() {
    let temp_dir = TempDir::new().unwrap();
    let config = Config { directories: vec![], files: vec![], ..Default::default() };

    let files = collect_files(temp_dir.path(), &config);
    assert!(files.is_empty());
}

#[test]
fn test_collect_files_root_only_pattern() {
    let temp_dir = TempDir::new().unwrap();
    let root = temp_dir.path();

    mkfile(root, "config.txt", b"root config");

    mkdir(root, "subdir");
    mkfile(root, "subdir/config.txt", b"subdir config");

    let config = Config {
        directories: vec![],
        files: vec!["./config.txt".to_string()],
        ..Default::default()
    };

    let files = collect_files(root, &config);

    assert_eq!(files.len(), 1, "Expected 1 file (root-level only), got {}", files.len());
    assert_eq!(files[0].0, "config.txt");
}

#[test]
fn test_collect_files_root_only_wildcard() {
    let temp_dir = TempDir::new().unwrap();
    let root = temp_dir.path();

    mkfile(root, "data1.bin", b"data1");
    mkfile(root, "data2.bin", b"data2");

    mkdir(root, "nested");
    mkfile(root, "nested/data3.bin", b"data3");

    let config =
        Config { directories: vec![], files: vec!["./*.bin".to_string()], ..Default::default() };

    let files = collect_files(root, &config);

    assert_eq!(files.len(), 2, "Expected 2 files (root-level only), got {}", files.len());

    let file_names: Vec<String> = files.iter().map(|(name, _)| name.clone()).collect();
    assert!(file_names.contains(&"data1.bin".to_string()));
    assert!(file_names.contains(&"data2.bin".to_string()));
    assert!(!file_names.contains(&"nested/data3.bin".to_string()));
}

#[test]
fn test_collect_files_root_only_subdirectory() {
    let temp_dir = TempDir::new().unwrap();
    let root = temp_dir.path();

    mkdir(root, "data");
    mkfile(root, "data/file1.txt", b"file1");
    mkfile(root, "data/file2.txt", b"file2");

    mkdir(root, "project/data");
    mkfile(root, "project/data/file3.txt", b"file3");

    let config = Config {
        directories: vec![],
        files: vec!["./data/*.txt".to_string()],
        ..Default::default()
    };

    let files = collect_files(root, &config);

    assert_eq!(files.len(), 2, "Expected 2 files (root-level data/ only), got {}", files.len());

    let file_names: Vec<String> = files.iter().map(|(name, _)| name.clone()).collect();
    assert!(file_names.contains(&"data/file1.txt".to_string()));
    assert!(file_names.contains(&"data/file2.txt".to_string()));
    assert!(!file_names.contains(&"project/data/file3.txt".to_string()));
}

#[test]
fn test_collect_files_recursive_vs_root_only() {
    let temp_dir = TempDir::new().unwrap();
    let root = temp_dir.path();

    mkfile(root, "Makefile", b"root makefile");

    mkdir(root, "sub1");
    mkfile(root, "sub1/Makefile", b"sub1 makefile");
    mkdir(root, "sub2");
    mkfile(root, "sub2/Makefile", b"sub2 makefile");

    let config_recursive =
        Config { directories: vec![], files: vec!["Makefile".to_string()], ..Default::default() };

    let files_recursive = collect_files(root, &config_recursive);
    assert_eq!(files_recursive.len(), 3, "Recursive should find all 3 Makefiles");

    let config_root_only =
        Config { directories: vec![], files: vec!["./Makefile".to_string()], ..Default::default() };

    let files_root_only = collect_files(root, &config_root_only);
    assert_eq!(files_root_only.len(), 1, "Root-only should find only 1 Makefile");
    assert_eq!(files_root_only[0].0, "Makefile");
}

#[test]
fn test_collect_directories_empty_config() {
    let temp_dir = TempDir::new().unwrap();
    let config = Config { directories: vec![], ..Default::default() };

    let dirs = collect_directories(temp_dir.path(), &config);
    assert!(dirs.is_empty());
}

#[test]
fn test_collect_files_dot_directory() {
    let temp_dir = TempDir::new().unwrap();
    let root = temp_dir.path();

    mkdir(root, ".moc");
    mkfile(root, ".moc/file1.o", b"moc1");
    mkfile(root, ".moc/file2.o", b"moc2");

    mkdir(root, ".ui");
    mkfile(root, ".ui/main.ui", b"ui");

    let config =
        Config { directories: vec![".moc".to_string(), ".ui".to_string()], ..Default::default() };

    let files = collect_files(root, &config);

    assert_eq!(files.len(), 3, "Expected 3 files from dot directories");

    let file_names: Vec<String> = files.iter().map(|(rel_path, _)| rel_path.clone()).collect();

    assert!(file_names.contains(&".moc/file1.o".to_string()), "Missing .moc/file1.o");
    assert!(file_names.contains(&".moc/file2.o".to_string()), "Missing .moc/file2.o");
    assert!(file_names.contains(&".ui/main.ui".to_string()), "Missing .ui/main.ui");
}

#[test]
fn test_collect_directories_dot_directory() {
    let temp_dir = TempDir::new().unwrap();
    let root = temp_dir.path();

    mkdir(root, ".cache");
    mkdir(root, ".config");
    mkdir(root, "project/.build");

    let config = Config {
        directories: vec![".cache".to_string(), ".config".to_string(), ".build".to_string()],
        ..Default::default()
    };

    let dirs = collect_directories(root, &config);

    assert_eq!(dirs.len(), 3, "Expected 3 dot directories");

    assert!(dirs.contains(&".cache".to_string()), "Missing .cache");
    assert!(dirs.contains(&".config".to_string()), "Missing .config");
    assert!(dirs.contains(&"project/.build".to_string()), "Missing project/.build");
}

#[test]
fn test_collect_files_nested_in_dot_directory() {
    let temp_dir = TempDir::new().unwrap();
    let root = temp_dir.path();

    mkdir(root, ".hidden/src");
    mkfile(root, ".hidden/src/code.rs", b"code");

    let config = Config { directories: vec!["src".to_string()], ..Default::default() };

    let files = collect_files(root, &config);

    assert_eq!(files.len(), 1, "Expected 1 file from src inside .hidden");
    assert_eq!(files[0].0, ".hidden/src/code.rs");
}

#[test]
fn a_tracked_name_selects_every_directory_that_bears_it() {
    let temp_dir = TempDir::new().unwrap();
    let root = temp_dir.path();
    mkdir(root, "src");
    mkfile(root, "src/a.txt", b"a");
    mkdir(root, "sub/src/deep");
    mkfile(root, "sub/src/deep/b.txt", b"b");
    mkfile(root, "sub/other.txt", b"o");
    mkdir(root, "src/empty");
    mkdir(root, ".kibo/src");
    mkfile(root, ".kibo/src/state.txt", b"s");
    mkdir(root, "vendor/src");
    mkfile(root, "vendor/src/v.txt", b"v");
    mkfile(root, "src/debug.log", b"l");

    let config = Config {
        directories: vec!["src".to_string(), "nowhere".to_string()],
        ignore: vec!["vendor".to_string(), "*.log".to_string()],
        ..Default::default()
    };
    let names: Vec<String> = collect_files(root, &config).into_iter().map(|(rel, _)| rel).collect();
    assert_eq!(names, vec!["src/a.txt", "sub/src/deep/b.txt"]);
    assert_eq!(
        collect_directories(root, &config),
        vec!["src", "src/empty", "sub/src", "sub/src/deep"]
    );

    let config = Config { directories: vec!["nowhere".to_string()], ..Default::default() };
    assert!(collect_files(root, &config).is_empty());
    assert!(collect_directories(root, &config).is_empty());
}

#[test]
fn patterns_never_select_from_the_state_directory() {
    let temp_dir = TempDir::new().unwrap();
    let root = temp_dir.path();
    mkdir(root, ".kibo/store/ab");
    mkfile(root, ".kibo/store/ab/blob.bin", b"blob");
    mkdir(root, "out/.kibo");
    mkfile(root, "out/.kibo/x.bin", b"x");
    mkfile(root, "out/y.bin", b"y");
    let config = Config { files: vec!["*.bin".to_string()], ..Default::default() };
    let names: Vec<String> = collect_files(root, &config).into_iter().map(|(rel, _)| rel).collect();
    assert_eq!(names, vec!["out/.kibo/x.bin", "out/y.bin"]);
    assert!(is_in_state_dir(".kibo"));
    assert!(is_in_state_dir(".kibo/store/ab/blob.bin"));
    assert!(!is_in_state_dir("out/.kibo/x.bin"));
    assert!(!is_in_state_dir(".kibox/x"));
    assert!(!is_in_state_dir(""));
}

#[test]
fn a_pattern_with_two_stars_is_taken_as_it_is() {
    let temp_dir = TempDir::new().unwrap();
    let root = temp_dir.path();
    mkdir(root, "a/out/lib");
    mkfile(root, "a/out/lib/x.a", b"x");
    mkfile(root, "a/out/y.a", b"y");
    mkfile(root, "z.a", b"z");
    let config = Config { files: vec!["**/out/**/*.a".to_string()], ..Default::default() };
    let names: Vec<String> = collect_files(root, &config).into_iter().map(|(rel, _)| rel).collect();
    assert_eq!(names, vec!["a/out/lib/x.a", "a/out/y.a"]);
}

#[test]
fn the_pattern_that_is_searched() {
    assert_eq!(full_pattern("/r", "./config.txt"), "/r/config.txt");
    assert_eq!(full_pattern("/r", "./a/*.txt"), "/r/a/*.txt");
    assert_eq!(full_pattern("/r", "./"), "/r/");
    assert_eq!(full_pattern("/r", "config.txt"), "/r/**/config.txt");
    assert_eq!(full_pattern("/r", "/config.txt"), "/r/**/config.txt");
    assert_eq!(full_pattern("/r", "**/out/*.a"), "/r/**/out/*.a");
    assert_eq!(full_pattern("/r", "/**/out/*.a"), "/r/**/out/*.a");
    assert_eq!(full_pattern("/r", "a**"), "/r/a**");
    assert_eq!(full_pattern("/r", ""), "/r/**/");
    assert_eq!(full_pattern("", "x"), "/**/x");
    assert_eq!(full_pattern("/r", ".hidden"), "/r/**/.hidden");
    assert_eq!(full_pattern("/r", "./**/x"), "/r/**/x");
}

#[test]
fn the_walk_for_tracked_directories() {
    let none: Vec<String> = vec![];
    let ignore = vec!["target".to_string(), "*.tmp".to_string()];
    assert!(enters_scan("src", "src", &none));
    assert!(!enters_scan(".kibo", ".kibo", &none));
    assert!(!enters_scan(".kibo", "deep/down/.kibo", &none));
    assert!(enters_scan(".git", ".git", &none));
    assert!(enters_scan("", "", &none));
    assert!(!enters_scan("target", "a/target", &ignore));
    assert!(!enters_scan("x", "a/target/x", &ignore));
    assert!(!enters_scan("x.tmp", "x.tmp", &ignore));
    assert!(enters_scan("x", "a/x", &ignore));
    assert!(!enters_scan("x", "a/x", &vec!["".to_string()]));
}

fn dir(name: &str, path: &str) -> WalkedDir {
    WalkedDir { name: name.to_string(), path: path.to_string() }
}

#[test]
fn tracked_roots_come_name_by_name() {
    let dirs = vec![
        dir("r", ""),
        dir("out", "out"),
        dir("src", "src"),
        dir("out", "src/out"),
        dir("src", "src/out/src"),
    ];
    let names = |list: &[&str]| list.iter().map(|s| s.to_string()).collect::<Vec<String>>();
    assert_eq!(tracked_roots(&names(&["src", "out"]), &dirs), vec!["src", "src/out/src", "out", "src/out"]);
    assert_eq!(tracked_roots(&names(&["out", "none", "out"]), &dirs), vec!["out", "src/out", "out", "src/out"]);
    assert!(tracked_roots(&names(&[]), &dirs).is_empty());
    assert!(tracked_roots(&names(&["Src"]), &dirs).is_empty());
    assert_eq!(tracked_roots(&names(&["r"]), &dirs), vec![""]);
}

fn hit(path: &str, is_dir: bool) -> PatternHit {
    PatternHit { path: path.to_string(), is_dir, is_file: !is_dir }
}

#[test]
fn test_collect_files_preserves_multiple_symlinks_to_same_target() {
    let walked: Vec<String> = vec![];
    let hits = vec![
        hit("data.bin", false),
        PatternHit { path: "data-latest.bin".to_string(), is_dir: false, is_file: true },
        PatternHit { path: "data-v1.bin".to_string(), is_dir: false, is_file: true },
        PatternHit { path: "data-stable.bin".to_string(), is_dir: false, is_file: true },
    ];
    let files = select_files(&walked, &hits, &vec![]);

    assert_eq!(files.len(), 4, "Expected 4 files (3 symlinks + 1 target), got {}", files.len());
    assert!(files.contains(&"data.bin".to_string()), "Missing data.bin");
    assert!(files.contains(&"data-latest.bin".to_string()), "Missing data-latest.bin");
    assert!(files.contains(&"data-v1.bin".to_string()), "Missing data-v1.bin");
    assert!(files.contains(&"data-stable.bin".to_string()), "Missing data-stable.bin");
}

#[test]
fn each_path_is_selected_once_where_it_came_first() {
    let walked: Vec<String> =
        ["src/a", "src/b", "src/a", "x/src/c"].iter().map(|s| s.to_string()).collect();
    let hits = vec![
        hit("src/b", false),
        hit("top", false),
        hit("dir", true),
        hit(".kibo/hash_cache.json", false),
        hit("old.tmp", false),
        hit("top", false),
        hit("dangling-link", false),
    ];
    let files = select_files(&walked, &hits, &vec!["*.tmp".to_string()]);
    assert_eq!(files, vec!["src/a", "src/b", "x/src/c", "top", "dangling-link"]);
    assert!(select_files(&vec![], &vec![], &vec![]).is_empty());

    let dirs: Vec<String> =
        ["src", "src/gen", "src", "src/tmp", "src/tmp/x"].iter().map(|s| s.to_string()).collect();
    assert_eq!(select_directories(&dirs, &vec!["tmp".to_string()]), vec!["src", "src/gen"]);
}

#[test]
fn many_paths_are_selected_quickly() {
    let walked: Vec<String> = (0..60000).map(|i| format!("build/obj/{}/unit{}.o", i % 50, i)).collect();
    let twice: Vec<String> = walked.iter().chain(walked.iter()).cloned().collect();
    let files = select_files(&twice, &vec![], &vec![]);
    assert_eq!(files, walked);
}

#[test]
fn test_collect_files_does_not_deduplicate_by_canonical_path() {
    let hits = vec![hit("link1.txt", false), hit("link2.txt", false), hit("target.txt", false)];
    let files = select_files(&vec![], &hits, &vec![]);

    assert_eq!(files.len(), 3);

    assert!(files.contains(&"target.txt".to_string()));
    assert!(files.contains(&"link1.txt".to_string()));
    assert!(files.contains(&"link2.txt".to_string()));
}

#[test]
fn walked_paths_are_held_to_the_same_rule_as_hits() {
    let walked: Vec<String> = [
        "out/a.o",
        ".kibo/store/ab/cdef",
        "out/debug.log",
        ".kibo",
        "out/.kibo/inner",
        "target/x",
        "out/a.o",
    ]
    .iter()
    .map(|s| s.to_string())
    .collect();
    let ignore = vec!["*.log".to_string(), "target".to_string()];
    assert_eq!(select_files(&walked, &vec![], &ignore), vec!["out/a.o", "out/.kibo/inner"]);
    let dirs: Vec<String> =
        ["out", ".kibo", ".kibo/store", "out/target", "out/sub"].iter().map(|s| s.to_string()).collect();
    assert_eq!(select_directories(&dirs, &ignore), vec!["out", "out/sub"]);
}
