use dupfinder::entry::{FileEntry, FileRecord};
use dupfinder::keys::ComparisonKey;
use sha2::Digest;
use dupfinder::pipeline::{file_hashes, file_names, file_names_sizes};
use dupfinder::policy::SizePolicy;
use dupfinder::table::Group;

fn record(name: &str, path: &str, content: &[u8]) -> FileRecord {
    FileRecord {
        entry: FileEntry {
            name: String::from(name),
            path: String::from(path),
            size: content.len() as u64,
        },
        content: content.to_vec(),
    }
}

fn paths_of(g: &Group) -> Vec<String> {
    g.entries.iter().map(|e| e.path.clone()).collect()
}

#[test]
fn hash_mode_groups_identical_content() {
    let records = vec![record("x.txt", "a/x.txt", b"foo"), record("x.txt", "b/x.txt", b"foo")];
    let groups = file_hashes(&records, SizePolicy::new(false, false));
    assert_eq!(groups.len(), 1);
    assert_eq!(paths_of(&groups[0]), vec!["a/x.txt".to_string(), "b/x.txt".to_string()]);
}

#[test]
fn hash_mode_separates_different_content_of_equal_length() {
    let records = vec![record("x.txt", "a/x.txt", b"foo"), record("x.txt", "b/x.txt", b"bar")];
    let groups = file_hashes(&records, SizePolicy::new(false, false));
    assert_eq!(groups.len(), 0);
    let entries: Vec<FileEntry> =
        records.iter().map(|r| r.entry.duplicate()).collect();
    let size_groups = file_names_sizes(&entries);
    assert_eq!(size_groups.len(), 1);
    assert_eq!(paths_of(&size_groups[0]), vec!["a/x.txt".to_string(), "b/x.txt".to_string()]);
}

#[test]
fn hash_mode_groups_empty_files() {
    let records = vec![record("e.txt", "a/e.txt", b""), record("e.txt", "b/e.txt", b"")];
    let groups = file_hashes(&records, SizePolicy::new(false, false));
    assert_eq!(groups.len(), 1);
    assert_eq!(groups[0].entries.len(), 2);
}

#[test]
fn hash_mode_skip_small_excludes_small_files() {
    let records = vec![record("x.txt", "a/x.txt", b"foo"), record("x.txt", "b/x.txt", b"foo")];
    let groups = file_hashes(&records, SizePolicy::new(false, true));
    assert_eq!(groups.len(), 0);
}

#[test]
fn hash_mode_key_carries_name_size_digest() {
    let records = vec![record("x.txt", "a/x.txt", b"foo"), record("x.txt", "b/x.txt", b"foo")];
    let groups = file_hashes(&records, SizePolicy::new(false, false));
    match &groups[0].key {
        ComparisonKey::NameSizeHash { name, size, digest } => {
            assert_eq!(name, "x.txt");
            assert_eq!(*size, 3);
            assert_eq!(digest.as_slice(), sha2::Sha256::digest(b"foo").as_slice());
        },
        _ => panic!("hash strategy must produce a name+size+digest key"),
    }
}

#[test]
fn hash_mode_is_idempotent() {
    let records = vec![
        record("x.txt", "a/x.txt", b"foo"),
        record("x.txt", "b/x.txt", b"foo"),
        record("y.txt", "c/y.txt", b"other"),
    ];
    let first = file_hashes(&records, SizePolicy::new(false, false));
    let second = file_hashes(&records, SizePolicy::new(false, false));
    assert_eq!(first.len(), second.len());
    for (g1, g2) in first.iter().zip(second.iter()) {
        assert!(g1.key.key_equals(&g2.key));
        assert_eq!(paths_of(g1), paths_of(g2));
    }
}

#[test]
fn name_mode_ignores_content_and_size() {
    let records = vec![record("x.txt", "a/x.txt", b"foo"), record("x.txt", "b/x.txt", b"quux")];
    let entries: Vec<FileEntry> =
        records.iter().map(|r| r.entry.duplicate()).collect();
    let groups = file_names(&entries);
    assert_eq!(groups.len(), 1);
    assert_eq!(groups[0].entries.len(), 2);
}

#[test]
fn key_equality_is_exact() {
    let a = ComparisonKey::Name { name: String::from("x") };
    let b = ComparisonKey::Name { name: String::from("x") };
    let c = ComparisonKey::Name { name: String::from("y") };
    assert!(a.key_equals(&b));
    assert!(!a.key_equals(&c));
    let d = ComparisonKey::NameSize { name: String::from("x"), size: 1 };
    let e = ComparisonKey::NameSize { name: String::from("x"), size: 2 };
    assert!(!a.key_equals(&d));
    assert!(!d.key_equals(&e));
    let f = ComparisonKey::NameSizeHash { name: String::from("x"), size: 1, digest: vec![1, 2] };
    let g = ComparisonKey::NameSizeHash { name: String::from("x"), size: 1, digest: vec![1, 3] };
    let h = ComparisonKey::NameSizeHash { name: String::from("x"), size: 1, digest: vec![1, 2] };
    assert!(!f.key_equals(&g));
    assert!(f.key_equals(&h));
    assert!(!f.key_equals(&d));
}
