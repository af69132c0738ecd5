use hammersync::aggregate::{build_buffer, fingerprint, sort_by_path};
use hammersync::cache::Cache;
use hammersync::errors::{ErrorKind, SyncError};
use hammersync::file_list::FileListElement;
use hammersync::text::{path_ends_with, str_eq, str_le};
use hammersync::walk::{collect_records, dir_is_name, select_files, should_skip, Config, WalkEntry};

fn entry(path: &str, name: &str, depth: usize, is_dir: bool, is_file: bool) -> WalkEntry {
    WalkEntry {
        path: path.to_string(),
        file_name: name.to_string(),
        depth,
        is_dir,
        is_file,
        size: 0,
        modified: 0,
        mode: 0o644,
    }
}

fn file_entry(path: &str, name: &str, depth: usize, size: u64, modified: u64) -> WalkEntry {
    WalkEntry {
        path: path.to_string(),
        file_name: name.to_string(),
        depth,
        is_dir: false,
        is_file: true,
        size,
        modified,
        mode: 0o644,
    }
}

fn record(path: &str, key: &str, checksum: &str, size: u64, modified: u64, mode: u32) -> FileListElement {
    let mut r = FileListElement::new(path.to_string(), size, modified, mode);
    r.cache_key = key.to_string();
    r.checksum = checksum.to_string();
    r
}

#[test]
fn error_kind_round_trip() {
    let e = SyncError::new(ErrorKind::Cache);
    assert!(matches!(e.kind(), ErrorKind::Cache));
    assert!(matches!(e.into_kind(), ErrorKind::Cache));
    let e = SyncError::new(ErrorKind::Prefix);
    assert_eq!(e.message(), "failed to strip path prefix");
    let e = SyncError::new(ErrorKind::IO);
    assert_eq!(e.message(), "io error");
}

#[test]
fn string_helpers() {
    assert!(str_eq("abc", "abc"));
    assert!(!str_eq("abc", "abd"));
    assert!(!str_eq("abc", "abcd"));
    assert!(str_le("a.txt", "b.txt"));
    assert!(str_le("a", "a"));
    assert!(!str_le("b", "a"));
    assert!(str_le("a", "ab"));
    assert!(!str_le("ab", "a"));
}

#[test]
fn path_suffix_semantics() {
    assert!(path_ends_with("c.txt", "a/b/c.txt"));
    assert!(path_ends_with("b/c.txt", "a/b/c.txt"));
    assert!(path_ends_with("a/b/c.txt", "a/b/c.txt"));
    assert!(!path_ends_with(".txt", "a/b/c.txt"));
    assert!(!path_ends_with("", "a/b/c.txt"));
    assert!(!path_ends_with("x.txt", "a/b/c.txt"));
}

#[test]
fn dir_name_matching() {
    assert!(dir_is_name(".git", Some(".git")));
    assert!(!dir_is_name(".git", Some(".gitx")));
    assert!(!dir_is_name(".git", None));
}

#[test]
fn skip_rules() {
    let config = Config::new(vec![".git".to_string()], vec!["notes.tmp".to_string()]);
    let git = entry("/r/.git", ".git", 1, true, false);
    assert!(should_skip(&git, &config));
    let deep_git = entry("/r/x/.git", ".git", 2, true, false);
    assert!(!should_skip(&deep_git, &config));
    let tmp = entry("/r/sub/notes.tmp", "notes.tmp", 2, false, true);
    assert!(should_skip(&tmp, &config));
    let plain = entry("/r/a.txt", "a.txt", 1, false, true);
    assert!(!should_skip(&plain, &config));
}

#[test]
fn selection_prunes_ignored_subtrees() {
    let config = Config::new(vec![".git".to_string()], vec!["skip.me".to_string()]);
    let entries = vec![
        entry("/r", "r", 0, true, false),
        entry("/r/.git", ".git", 1, true, false),
        file_entry("/r/.git/HEAD", "HEAD", 2, 10, 5),
        file_entry("/r/a.txt", "a.txt", 1, 1, 2),
        file_entry("/r/b.txt", "b.txt", 1, 1, 3),
        file_entry("/r/sub/skip.me", "skip.me", 2, 9, 9),
        entry("/r/link", "link", 1, false, false),
    ];
    let kept = select_files(entries, &config);
    let paths: Vec<&str> = kept.iter().map(|e| e.path.as_str()).collect();
    assert_eq!(paths, vec!["/r/a.txt", "/r/b.txt"]);
}

#[test]
fn records_carry_keys_and_metadata() {
    let files = vec![file_entry("/r/a.txt", "a.txt", 1, 7, 11), file_entry("/r/s/b.txt", "b.txt", 2, 8, 12)];
    let recs = collect_records(files, "/r").unwrap();
    assert_eq!(recs.len(), 2);
    assert_eq!(recs[0].cache_key, "a.txt");
    assert_eq!(recs[1].cache_key, "s/b.txt");
    assert_eq!(recs[0].size, 7);
    assert_eq!(recs[1].modified, 12);
    assert_eq!(recs[0].checksum, "");
}

#[test]
fn records_outside_root_fail() {
    let files = vec![file_entry("/elsewhere/a.txt", "a.txt", 1, 7, 11)];
    let err = collect_records(files, "/r").unwrap_err();
    assert!(matches!(err.kind(), ErrorKind::Prefix));
}

#[test]
fn prefix_stripping() {
    let r = record("/root/dir/a.txt", "", "", 0, 0, 0);
    assert_eq!(r.path_without_prefix("/root/dir").unwrap(), "a.txt");
    assert_eq!(r.path_without_prefix("/root/dir/").unwrap(), "a.txt");
    assert_eq!(r.path_without_prefix("").unwrap(), "/root/dir/a.txt");
    let e = r.path_without_prefix("/other").unwrap_err();
    assert!(matches!(e.kind(), ErrorKind::Prefix));
}

#[test]
fn prefix_equal_to_path_leaves_empty_remainder() {
    let r = record("/r", "", "", 0, 0, 0);
    assert_eq!(r.path_without_prefix("/r").unwrap(), "");
    assert_eq!(r.path_without_prefix("/r/").unwrap(), "");
    let e = r.path_without_prefix("/rx").unwrap_err();
    assert!(matches!(e.kind(), ErrorKind::Prefix));
    let e = r.path_without_prefix("/r/a").unwrap_err();
    assert!(matches!(e.kind(), ErrorKind::Prefix));
}

#[test]
fn checksum_is_deterministic_and_discriminating() {
    let mut a = record("/r/a", "a", "", 1, 1, 0);
    let mut b = record("/r/b", "b", "", 1, 1, 0);
    a.calculate_checksum(b"hello world");
    b.calculate_checksum(b"hello world");
    assert!(!a.checksum.is_empty());
    assert!(a.checksum.chars().all(|c| c.is_ascii_digit()));
    assert_eq!(a.checksum, b.checksum);
    let mut c = record("/r/c", "c", "", 1, 1, 0);
    c.calculate_checksum(b"hello worlc");
    assert_ne!(a.checksum, c.checksum);
}

#[test]
fn cache_reuse_on_matching_metadata() {
    let cached = record("/r/a.txt", "a.txt", "12345", 7, 11, 0o644);
    let mut cache = Cache::build(vec![cached]);
    let mut fresh = record("/r/a.txt", "a.txt", "", 7, 11, 0o644);
    cache.refresh_record(&mut fresh);
    assert_eq!(fresh.checksum, "12345");
    assert_eq!(cache.len(), 1);
}

#[test]
fn cache_invalidation_on_changed_metadata() {
    let cached = record("/r/a.txt", "a.txt", "12345", 7, 11, 0o644);
    let mut cache = Cache::build(vec![cached]);
    let mut fresh = record("/r/a.txt", "a.txt", "", 8, 11, 0o644);
    cache.refresh_record(&mut fresh);
    assert_eq!(fresh.checksum, "");
    assert!(cache.lookup("a.txt").is_none());

    let cached = record("/r/a.txt", "a.txt", "12345", 7, 11, 0o644);
    let mut cache = Cache::build(vec![cached]);
    let mut fresh = record("/r/a.txt", "a.txt", "", 7, 12, 0o644);
    cache.refresh_record(&mut fresh);
    assert_eq!(fresh.checksum, "");

    let cached = record("/r/a.txt", "a.txt", "12345", 7, 11, 0o644);
    let mut cache = Cache::build(vec![cached]);
    let mut fresh = record("/r/a.txt", "a.txt", "", 7, 11, 0o600);
    cache.refresh_record(&mut fresh);
    assert_eq!(fresh.checksum, "");
}

#[test]
fn cache_absent_key_leaves_record_alone() {
    let mut cache = Cache::new();
    let mut fresh = record("/r/a.txt", "a.txt", "", 7, 11, 0o644);
    cache.refresh_record(&mut fresh);
    assert_eq!(fresh.checksum, "");
    assert_eq!(cache.len(), 0);
}

#[test]
fn refresh_all_drops_only_stale_entries() {
    let a = record("/r/a.txt", "a.txt", "1", 1, 1, 0);
    let b = record("/r/b.txt", "b.txt", "2", 2, 2, 0);
    let c = record("/r/c.txt", "c.txt", "3", 3, 3, 0);
    let mut cache = Cache::build(vec![a, b, c]);
    let records = vec![
        record("/r/a.txt", "a.txt", "", 1, 1, 0),
        record("/r/b.txt", "b.txt", "", 2, 99, 0),
        record("/r/d.txt", "d.txt", "", 4, 4, 0),
    ];
    let out = cache.refresh_all(records);
    assert_eq!(out[0].checksum, "1");
    assert_eq!(out[1].checksum, "");
    assert_eq!(out[2].checksum, "");
    assert!(cache.lookup("a.txt").is_some());
    assert!(cache.lookup("b.txt").is_none());
    assert!(cache.lookup("c.txt").is_some());
    assert_eq!(cache.len(), 2);
}

#[test]
fn cache_pruning_drops_deleted_files() {
    let a = record("/r/a.txt", "a.txt", "1", 1, 1, 0);
    let b = record("/r/b.txt", "b.txt", "2", 2, 2, 0);
    let cache = Cache::build(vec![a, b]);
    assert!(cache.lookup("b.txt").is_some());
    let a2 = record("/r/a.txt", "a.txt", "1", 1, 1, 0);
    let rebuilt = Cache::build(vec![a2]);
    assert!(rebuilt.lookup("a.txt").is_some());
    assert!(rebuilt.lookup("b.txt").is_none());
    assert_eq!(rebuilt.len(), 1);
}

#[test]
fn sorting_orders_by_path() {
    let mut recs = vec![
        record("/r/c.txt", "c.txt", "3", 0, 0, 0),
        record("/r/a.txt", "a.txt", "1", 0, 0, 0),
        record("/r/b.txt", "b.txt", "2", 0, 0, 0),
    ];
    sort_by_path(&mut recs);
    let keys: Vec<&str> = recs.iter().map(|r| r.cache_key.as_str()).collect();
    assert_eq!(keys, vec!["a.txt", "b.txt", "c.txt"]);
}

#[test]
fn buffer_lines_and_final_digest() {
    let recs = vec![
        record("/r/a.txt", "a.txt", "111", 0, 0, 0),
        record("/r/b.txt", "b.txt", "222", 0, 0, 0),
    ];
    let buf = build_buffer(&recs);
    assert_eq!(buf, "111 a.txt\n222 b.txt\n");
    let fp = fingerprint(&recs);
    assert_eq!(fp, "2c136e977f14e54a57f3c01f328318c9");
    assert_eq!(fp.len(), 32);
    assert!(fp.chars().all(|c| c.is_ascii_digit() || ('a'..='f').contains(&c)));
    assert_ne!(fp, buf);
}

#[test]
fn empty_tree_digest() {
    let recs: Vec<FileListElement> = Vec::new();
    assert_eq!(build_buffer(&recs), "");
    assert_eq!(fingerprint(&recs), "d41d8cd98f00b204e9800998ecf8427e");
}

fn run_once(cache: &mut Cache, contents: &[(&str, &[u8], u64, u64)]) -> (String, Vec<FileListElement>) {
    let files: Vec<WalkEntry> = contents
        .iter()
        .map(|(name, bytes, _modified, _mode)| {
            file_entry(&format!("/r/{}", name), name, 1, bytes.len() as u64, *_modified)
        })
        .collect();
    let mut records = collect_records(files, "/r").unwrap();
    sort_by_path(&mut records);
    let mut records = cache.refresh_all(records);
    for r in records.iter_mut() {
        if r.checksum.is_empty() {
            let bytes = contents
                .iter()
                .find(|(name, _, _, _)| r.cache_key == *name)
                .map(|(_, bytes, _, _)| *bytes)
                .unwrap();
            r.calculate_checksum(bytes);
        }
    }
    (fingerprint(&records), records)
}

#[test]
fn idempotent_runs_share_fingerprint_and_cache() {
    let tree: Vec<(&str, &[u8], u64, u64)> =
        vec![("a.txt", b"x", 11, 0), ("b.txt", b"y", 12, 0)];
    let mut cold = Cache::new();
    let (fp1, records1) = run_once(&mut cold, &tree);
    let mut warm = Cache::build(records1);
    let (fp2, records2) = run_once(&mut warm, &tree);
    assert_eq!(fp1, fp2);
    let rebuilt = Cache::build(records2);
    assert_eq!(rebuilt.len(), 2);
    assert_eq!(rebuilt.lookup("a.txt").unwrap().checksum, warm.lookup("a.txt").unwrap().checksum);
}

#[test]
fn fingerprint_independent_of_enumeration_order() {
    let tree1: Vec<(&str, &[u8], u64, u64)> =
        vec![("a.txt", b"x", 11, 0), ("b.txt", b"y", 12, 0)];
    let tree2: Vec<(&str, &[u8], u64, u64)> =
        vec![("b.txt", b"y", 12, 0), ("a.txt", b"x", 11, 0)];
    let mut c1 = Cache::new();
    let mut c2 = Cache::new();
    let (fp1, _) = run_once(&mut c1, &tree1);
    let (fp2, _) = run_once(&mut c2, &tree2);
    assert_eq!(fp1, fp2);
}

#[test]
fn changed_bytes_change_the_fingerprint() {
    let tree1: Vec<(&str, &[u8], u64, u64)> = vec![("a.txt", b"x", 11, 0)];
    let tree2: Vec<(&str, &[u8], u64, u64)> = vec![("a.txt", b"z", 13, 0)];
    let mut c1 = Cache::new();
    let mut c2 = Cache::new();
    let (fp1, _) = run_once(&mut c1, &tree1);
    let (fp2, _) = run_once(&mut c2, &tree2);
    assert_ne!(fp1, fp2);
}

#[test]
fn ignored_directory_never_affects_the_fingerprint() {
    let config = Config::new(vec![".git".to_string()], Vec::new());
    let walk1 = vec![
        entry("/r/.git", ".git", 1, true, false),
        file_entry("/r/.git/HEAD", "HEAD", 2, 3, 1),
        file_entry("/r/a.txt", "a.txt", 1, 1, 2),
    ];
    let walk2 = vec![
        entry("/r/.git", ".git", 1, true, false),
        file_entry("/r/.git/HEAD", "HEAD", 2, 99, 77),
        file_entry("/r/a.txt", "a.txt", 1, 1, 2),
    ];
    let fp = |walk: Vec<WalkEntry>| {
        let kept = select_files(walk, &config);
        let mut records = collect_records(kept, "/r").unwrap();
        sort_by_path(&mut records);
        for r in records.iter_mut() {
            r.calculate_checksum(b"x");
        }
        fingerprint(&records)
    };
    assert_eq!(fp(walk1), fp(walk2));
}
