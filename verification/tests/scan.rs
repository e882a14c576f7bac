use omavault::scan::{file_entry, is_trash_directory, summarize_recent, FileEntry};

fn found(dirs: &[&str], name: &str, modified_ts: i64, size_bytes: u64) -> FileEntry {
    let dirs: Vec<String> = dirs.iter().map(|dir| dir.to_string()).collect();
    let mut path = String::from("/vault");
    for dir in &dirs {
        path.push('/');
        path.push_str(dir);
    }
    path.push('/');
    path.push_str(name);
    file_entry(&dirs, name, &path, modified_ts, size_bytes)
}

#[test]
fn scans_nested_files_sorted_by_modification_time() {
    let entries = vec![
        found(&[], "z-old.txt", 100, 1),
        found(&["nested"], "a-new.md", 900, 4),
        found(&[], "b-newest.txt", 990, 2),
    ];
    let summary = summarize_recent(entries, 10);
    assert_eq!(summary.file_count, 3);
    assert_eq!(summary.total_bytes, 7);
    let names: Vec<&str> = summary.files.iter().map(|file| file.name.as_str()).collect();
    assert_eq!(names, vec!["b-newest.txt", "a-new.md", "z-old.txt"]);
    assert_eq!(summary.files[1].folder, "nested");
}

#[test]
fn respects_limit() {
    let entries = vec![
        found(&[], "one.txt", 970, 1),
        found(&[], "two.txt", 980, 1),
        found(&[], "three.txt", 990, 1),
    ];
    let summary = summarize_recent(entries, 2);
    assert_eq!(summary.files.len(), 2);
    assert_eq!(summary.file_count, 3);
}

#[test]
fn excludes_freedesktop_trash_directories() {
    assert!(is_trash_directory(".Trash-1000"));
    assert!(is_trash_directory(".Trash"));
    assert!(!is_trash_directory("files"));
    assert!(!is_trash_directory(".Trashcan"));
    let summary = summarize_recent(vec![found(&[], "kept.txt", 5, 1)], 10);
    assert_eq!(summary.file_count, 1);
    assert_eq!(summary.total_bytes, 1);
    assert_eq!(summary.files[0].name, "kept.txt");
}

#[test]
fn root_files_report_slash_folder() {
    let summary = summarize_recent(vec![found(&[], "top.txt", 5, 1)], 10);
    assert_eq!(summary.files[0].folder, "/");
}

#[test]
fn empty_root_returns_empty_summary() {
    let summary = summarize_recent(Vec::new(), 10);
    assert_eq!(summary.file_count, 0);
    assert_eq!(summary.total_bytes, 0);
    assert!(summary.files.is_empty());
}

#[test]
fn missing_root_returns_empty_summary() {
    let summary = summarize_recent(Vec::new(), 10);
    assert_eq!(summary.file_count, 0);
    assert!(summary.files.is_empty());
}

#[test]
fn equal_times_are_ordered_by_name_then_walk_order() {
    let entries = vec![
        found(&["b"], "same.txt", 50, 1),
        found(&[], "zeta.txt", 50, 1),
        found(&["a"], "same.txt", 50, 1),
        found(&[], "alpha.txt", 50, 1),
    ];
    let summary = summarize_recent(entries, 10);
    let listed: Vec<(&str, &str)> = summary
        .files
        .iter()
        .map(|file| (file.name.as_str(), file.folder.as_str()))
        .collect();
    assert_eq!(
        listed,
        vec![("alpha.txt", "/"), ("same.txt", "b"), ("same.txt", "a"), ("zeta.txt", "/")]
    );
}

#[test]
fn zero_limit_still_shows_one_file() {
    let entries = vec![found(&[], "a", 1, 3), found(&[], "b", 2, 4)];
    let summary = summarize_recent(entries, 0);
    assert_eq!(summary.files.len(), 1);
    assert_eq!(summary.files[0].name, "b");
    assert_eq!(summary.total_bytes, 7);
}

#[test]
fn nested_folders_are_joined_with_slashes() {
    let entry = found(&["x", "y"], "f.txt", 1, 1);
    assert_eq!(entry.folder, "x/y");
    assert_eq!(entry.path, "/vault/x/y/f.txt");
}
