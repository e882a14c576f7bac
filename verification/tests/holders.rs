use omavault::holders::{holders_from, is_process_entry, ProcessRecord, MAX_PATHS_PER_HOLDER};

const MOUNT: &str = "/tmp/test/Protected Files";

fn record(pid: &str, comm: &str, links: &[String]) -> ProcessRecord {
    ProcessRecord {
        entry_name: pid.to_string(),
        comm: Some(comm.to_string()),
        links: links.to_vec(),
    }
}

fn inside(relative: &str) -> String {
    format!("{}/{}", MOUNT, relative)
}

#[test]
fn groups_open_paths_by_process_name() {
    let records = vec![
        record("100", "nvim\n", &[inside("docs/a.md"), inside("docs/b.md")]),
        record("200", "nvim\n", &[inside("docs/c.md")]),
        record("300", "nautilus\n", &[MOUNT.to_string()]),
    ];
    let holders = holders_from(&records, "1", MOUNT);
    assert_eq!(holders.len(), 2);
    assert_eq!(holders[0].process, "nautilus");
    assert_eq!(holders[1].process, "nvim");
    assert_eq!(holders[1].open_paths.len(), 3);
}

#[test]
fn ignores_paths_outside_the_mount() {
    let records = vec![record("100", "sleep\n", &["/tmp".to_string()])];
    assert!(holders_from(&records, "1", MOUNT).is_empty());
}

#[test]
fn skips_vault_and_helper_processes() {
    let records = vec![
        record("100", "gocryptfs\n", &[MOUNT.to_string()]),
        record("200", "omavault-helper\n", &[MOUNT.to_string()]),
    ];
    assert!(holders_from(&records, "1", MOUNT).is_empty());
}

#[test]
fn caps_reported_paths_per_process() {
    let links: Vec<String> = (0..MAX_PATHS_PER_HOLDER + 5)
        .map(|index| inside(&format!("file-{}.txt", index)))
        .collect();
    let records = vec![record("100", "nvim\n", &links)];
    let holders = holders_from(&records, "1", MOUNT);
    assert_eq!(holders[0].open_paths.len(), MAX_PATHS_PER_HOLDER);
}

#[test]
fn missing_proc_root_returns_empty() {
    assert!(holders_from(&Vec::new(), "1", "/vault").is_empty());
}

#[test]
fn unreadable_fd_directory_is_tolerated() {
    let records = vec![record("100", "nvim\n", &[MOUNT.to_string()])];
    let holders = holders_from(&records, "1", MOUNT);
    assert_eq!(holders.len(), 1);
    assert_eq!(holders[0].process, "nvim");
}

#[test]
fn paths_are_sorted_deduplicated_and_smallest_kept() {
    let links: Vec<String> = (0..12).rev().map(|index| inside(&format!("f{:02}", index))).collect();
    let mut doubled = links.clone();
    doubled.extend(links.clone());
    let holders = holders_from(&vec![record("7", "vim", &doubled)], "1", MOUNT);
    let expected: Vec<String> = (0..10).map(|index| inside(&format!("f{:02}", index))).collect();
    assert_eq!(holders[0].open_paths, expected);
}

#[test]
fn own_process_non_pids_and_nameless_entries_are_skipped() {
    let records = vec![
        record("1", "nvim", &[MOUNT.to_string()]),
        record("self", "nvim", &[MOUNT.to_string()]),
        record("5", "  \n", &[MOUNT.to_string()]),
        ProcessRecord {
            entry_name: "6".to_string(),
            comm: None,
            links: vec![MOUNT.to_string()],
        },
    ];
    assert!(holders_from(&records, "1", MOUNT).is_empty());
    assert!(is_process_entry("42", "1"));
    assert!(!is_process_entry("1", "1"));
    assert!(!is_process_entry("self", "1"));
}

#[test]
fn sibling_directory_with_common_prefix_is_outside() {
    let records = vec![record("9", "cat", &["/tmp/test/Protected Files2/x".to_string()])];
    assert!(holders_from(&records, "1", MOUNT).is_empty());
}
