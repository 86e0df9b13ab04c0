use dupfinder::entry::FileEntry;
use dupfinder::pipeline::{file_names, file_names_sizes};
use dupfinder::table::Group;

fn entry(name: &str, path: &str, size: u64) -> FileEntry {
    FileEntry { name: String::from(name), path: String::from(path), size }
}

fn paths_of(g: &Group) -> Vec<String> {
    g.entries.iter().map(|e| e.path.clone()).collect()
}

#[test]
fn name_mode_groups_same_name() {
    let entries = vec![entry("x.txt", "a/x.txt", 3), entry("x.txt", "b/x.txt", 3)];
    let groups = file_names(&entries);
    assert_eq!(groups.len(), 1);
    assert_eq!(groups[0].entries.len(), 2);
    assert_eq!(paths_of(&groups[0]), vec!["a/x.txt".to_string(), "b/x.txt".to_string()]);
}

#[test]
fn name_mode_singletons_not_reported() {
    let entries = vec![
        entry("x.txt", "a/x.txt", 3),
        entry("y.txt", "a/y.txt", 3),
        entry("x.txt", "b/x.txt", 5),
        entry("z.txt", "c/z.txt", 9),
    ];
    let groups = file_names(&entries);
    assert_eq!(groups.len(), 1);
    assert_eq!(paths_of(&groups[0]), vec!["a/x.txt".to_string(), "b/x.txt".to_string()]);
}

#[test]
fn name_mode_preserves_arrival_order() {
    let entries = vec![
        entry("x.txt", "1", 0),
        entry("y.txt", "2", 0),
        entry("x.txt", "3", 0),
        entry("y.txt", "4", 0),
        entry("x.txt", "5", 0),
    ];
    let groups = file_names(&entries);
    assert_eq!(groups.len(), 2);
    assert_eq!(paths_of(&groups[0]), vec!["1".to_string(), "3".to_string(), "5".to_string()]);
    assert_eq!(paths_of(&groups[1]), vec!["2".to_string(), "4".to_string()]);
}

#[test]
fn name_size_mode_equal_sizes_group() {
    let entries = vec![entry("x.txt", "a/x.txt", 3), entry("x.txt", "b/x.txt", 3)];
    let groups = file_names_sizes(&entries);
    assert_eq!(groups.len(), 1);
    assert_eq!(paths_of(&groups[0]), vec!["a/x.txt".to_string(), "b/x.txt".to_string()]);
}

#[test]
fn name_size_mode_different_sizes_separate() {
    let entries = vec![entry("x.txt", "a/x.txt", 3), entry("x.txt", "b/x.txt", 4)];
    let groups = file_names_sizes(&entries);
    assert_eq!(groups.len(), 0);
}

#[test]
fn classification_is_idempotent() {
    let entries = vec![
        entry("x.txt", "a/x.txt", 3),
        entry("x.txt", "b/x.txt", 3),
        entry("y.txt", "a/y.txt", 7),
    ];
    let first = file_names(&entries);
    let second = file_names(&entries);
    assert_eq!(first.len(), second.len());
    for (g1, g2) in first.iter().zip(second.iter()) {
        assert!(g1.key.key_equals(&g2.key));
        assert_eq!(paths_of(g1), paths_of(g2));
    }
    let first_s = file_names_sizes(&entries);
    let second_s = file_names_sizes(&entries);
    assert_eq!(first_s.len(), second_s.len());
    for (g1, g2) in first_s.iter().zip(second_s.iter()) {
        assert!(g1.key.key_equals(&g2.key));
        assert_eq!(paths_of(g1), paths_of(g2));
    }
}
