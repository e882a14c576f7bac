use omavault::paths::{join_path, resolve_root, starts_with_path, Layout};

#[test]
fn layout_derives_cipher_and_mount_dirs() {
    let layout = Layout::new("/data/protected");
    assert_eq!(layout.cipher_dir(), "/data/protected/vault");
    assert_eq!(layout.mount_dir(), "/data/protected/Protected Files");
    assert_eq!(layout.recovered_dir(), "/data/protected/recovered");
}

#[test]
fn resolve_root_prefers_env_var_over_home() {
    let root = resolve_root(Some("/custom/root"), Some("/home/user")).unwrap();
    assert_eq!(root, "/custom/root");
}

#[test]
fn resolve_root_ignores_blank_env_var() {
    let root = resolve_root(Some("   "), Some("/home/user")).unwrap();
    assert_eq!(root, "/home/user/.local/share/omavault");
}

#[test]
fn resolve_root_falls_back_to_xdg_share_under_home() {
    let root = resolve_root(None, Some("/home/user")).unwrap();
    assert_eq!(root, "/home/user/.local/share/omavault");
}

#[test]
fn resolve_root_fails_without_env_var_and_home() {
    assert!(resolve_root(None, None).is_err());
}

#[test]
fn resolve_root_fails_with_blank_home() {
    assert!(resolve_root(None, Some("  ")).is_err());
}

#[test]
fn resolve_root_trims_and_reports_missing_root() {
    assert_eq!(resolve_root(Some("  /r  "), None).unwrap(), "/r");
    assert_eq!(
        resolve_root(None, Some(" /home/u/ ")).unwrap(),
        "/home/u/.local/share/omavault"
    );
    assert_eq!(
        resolve_root(Some(""), Some("")).unwrap_err(),
        "neither OMAVAULT_ROOT nor HOME is set"
    );
}

#[test]
fn join_follows_pathbuf_push() {
    assert_eq!(join_path("/a", "b"), "/a/b");
    assert_eq!(join_path("/a/", "b"), "/a/b");
    assert_eq!(join_path("", "b"), "b");
    assert_eq!(join_path("/a", "/b"), "/b");
}

#[test]
fn config_file_sits_in_the_cipher_dir() {
    let layout = Layout::new("/data/protected/");
    assert_eq!(layout.config_file(), "/data/protected/vault/gocryptfs.conf");
}

#[test]
fn missing_vault_is_not_initialized() {
    let layout = Layout::new("/nonexistent/omavault-root");
    assert!(!layout.is_initialized());
}

#[test]
fn path_prefix_compares_whole_components() {
    assert!(starts_with_path("/a/b/c", "/a/b"));
    assert!(starts_with_path("/a/b", "/a/b"));
    assert!(starts_with_path("/a/b/", "/a/b"));
    assert!(starts_with_path("/a//b/./c", "/a/b"));
    assert!(!starts_with_path("/a/bc", "/a/b"));
    assert!(!starts_with_path("a/b", "/a"));
    assert!(!starts_with_path("/a", "/a/b"));
    assert!(starts_with_path("./x", "."));
}
