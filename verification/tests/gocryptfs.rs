use omavault::gocryptfs::{
    copy_instead_of_rename, describe_failure, destination_name, extract_master_key,
    init_invocation, init_outcome, mount_outcome, passphrase_change_outcome,
    recovery_unlock_invocation, redact_secret, retry_after_failure, set_passphrase_invocation,
    strip_ansi, unlock_invocation, unmount_candidates, unmount_failure,
};

const SAMPLE_INIT_OUTPUT: &str = "Choose a password for protecting your files.\nYour master key is:\n\n    6f2f38e6-93a3f5ac-1bd0cbb2-6ba0d9a4-ea82e9a7-77c37cd8-a5f0e13d-29f28e1d-59b21c53-8ec30a29-64bfa09e-4a29921e-d74e3ec7\n\nIf the gocryptfs.conf file is corrupted or lose the password, there will be no recovery.\n";

const MASTER_KEY: &str = "6f2f38e6-93a3f5ac-1bd0cbb2-6ba0d9a4-ea82e9a7-77c37cd8-a5f0e13d-29f28e1d-59b21c53-8ec30a29-64bfa09e-4a29921e-d74e3ec7";

#[test]
fn extracts_master_key_from_init_output() {
    assert_eq!(
        extract_master_key(SAMPLE_INIT_OUTPUT).as_deref(),
        Some("6f2f38e6-93a3f5ac-1bd0cbb2-6ba0d9a4-ea82e9a7-77c37cd8-a5f0e13d-29f28e1d-59b21c53-8ec30a29-64bfa09e-4a29921e-d74e3ec7")
    );
}

#[test]
fn returns_none_when_no_key_present() {
    assert_eq!(extract_master_key("Password:\nSome error occurred"), None);
}

#[test]
fn accepts_sixteen_group_master_key() {
    let output = "Your master key is:\n\n    6f2f38e6-93a3f5ac-1bd0cbb2-6ba0d9a4-ea82e9a7-77c37cd8-a5f0e13d-29f28e1d-59b21c53-8ec30a29-64bfa09e-4a29921e-d74e3ec7-1a2b3c4d-5e6f7081-9a0b1c2d\n";
    assert!(extract_master_key(output).is_some());
}

#[test]
fn rejects_token_with_wrong_length() {
    assert_eq!(extract_master_key("abcd-abcd-abcd"), None);
}

#[test]
fn rejects_hex_token_without_dashes() {
    assert_eq!(extract_master_key("6f2f38e693a3f5ac1bd0cbb26ba0d9a4"), None);
}

#[test]
fn rejects_token_with_trailing_dash() {
    assert_eq!(extract_master_key("6f2f38e6-93a3f5ac-1bd0cbb2-"), None);
}

#[test]
fn extracts_wrapped_ansi_master_key_from_real_gocryptfs_output() {
    let output = "Password: \r\nRepeat: \r\n\r\nYour master key is:\r\n\r\n    \u{1b}[2maa4b0d5a-c464051a-84c38ba2-96e4eb91-\r\n    0f1e2d3c-4b5a6978-8796a5b4-c3d2e1f0\u{1b}[0m\r\n\r\n\u{1b}[32mThe gocryptfs filesystem has been created successfully.\u{1b}[0m\r\n";
    assert_eq!(
        extract_master_key(output).as_deref(),
        Some("aa4b0d5a-c464051a-84c38ba2-96e4eb91-0f1e2d3c-4b5a6978-8796a5b4-c3d2e1f0")
    );
}

#[test]
fn extracts_key_when_password_echo_precedes_marker() {
    let output = "correct horse battery\r\ncorrect horse battery\r\nChoose a password for protecting your files.\r\nYour master key is:\r\n\r\n    6f2f38e6-93a3f5ac-1bd0cbb2-6ba0d9a4-ea82e9a7-77c37cd8-a5f0e13d-29f28e1d-59b21c53-8ec30a29-64bfa09e-4a29921e-d74e3ec7\r\n";
    assert!(extract_master_key(output).is_some());
}

#[test]
fn strip_ansi_removes_csi_sequences() {
    assert_eq!(strip_ansi("\u{1b}[32mok\u{1b}[0m"), "ok");
    assert_eq!(strip_ansi("\u{1b}[2ma-b\u{1b}[0m"), "a-b");
    assert_eq!(strip_ansi("no escapes"), "no escapes");
}

#[test]
fn strip_ansi_keeps_lone_escape_characters() {
    assert_eq!(strip_ansi("a\u{1b}b"), "ab");
}

#[test]
fn redact_secret_scrubs_passphrase_from_pty_echo() {
    let echoed = "correct horse battery\r\nPassword dissimilar.";
    assert_eq!(
        redact_secret(echoed, "correct horse battery"),
        "***\r\nPassword dissimilar."
    );
    assert_eq!(redact_secret("no secret here", ""), "no secret here");
}

#[test]
fn unmount_candidates_prefer_fusermount3() {
    let candidates = unmount_candidates("/data/mount", false);
    assert_eq!(candidates[0].0, "fusermount3");
    assert_eq!(candidates[0].1, vec!["-u", "/data/mount"]);

    let lazy_candidates = unmount_candidates("/data/mount", true);
    assert_eq!(lazy_candidates[0].1, vec!["-uz", "/data/mount"]);
    assert_eq!(lazy_candidates.last().unwrap().1, vec!["-l", "/data/mount"]);
}

#[test]
fn unmount_candidates_list_all_three_programs() {
    let eager = unmount_candidates("/m", false);
    let names: Vec<&str> = eager.iter().map(|candidate| candidate.0.as_str()).collect();
    assert_eq!(names, vec!["fusermount3", "fusermount", "umount"]);
    assert_eq!(eager[2].1, vec!["/m"]);
    let lazy = unmount_candidates("/m", true);
    assert_eq!(lazy[1].1, vec!["-uz", "/m"]);
}

#[test]
fn strip_ansi_drops_unterminated_sequence() {
    assert_eq!(strip_ansi("ok\u{1b}[12;3"), "ok");
    assert_eq!(strip_ansi("\u{1b}"), "");
}

#[test]
fn extract_uses_first_marker_and_rejects_mixed_widths() {
    assert_eq!(extract_master_key("no marker 6f2f38e6-93a3f5ac"), None);
    assert_eq!(
        extract_master_key("master key: abcd-abcdabcd-abcd-abcd-abcd-abcd-abcd-abcd-abcd-abcd-abcd-abcd-abcd"),
        None
    );
    assert_eq!(
        extract_master_key("master key: abcd-abcd-abcd-abcd-abcd-abcd-abcd-abcd-abcd-abcd-abcd-abcd-abcd").as_deref(),
        Some("abcd-abcd-abcd-abcd-abcd-abcd-abcd-abcd-abcd-abcd-abcd-abcd-abcd")
    );
    assert_eq!(
        extract_master_key("master key: abcd-abcd-abcd-abcd-abcd-abcd-abcd-abcd-abcd-abcd-abcd-abcd"),
        None
    );
}

#[test]
fn describe_failure_joins_output_or_reports_status() {
    assert_eq!(describe_failure("out  \n", "err\n", Some(1)), "outerr");
    assert_eq!(describe_failure("", "  \n", Some(14)), "gocryptfs exited with status 14");
    assert_eq!(describe_failure("", "", None), "gocryptfs exited with status -1");
    assert_eq!(describe_failure("", "", Some(-2147483648)), "gocryptfs exited with status -2147483648");
}

#[test]
fn init_returns_master_key_and_reports_stderr_failure() {
    let stdout = format!("Your master key is:\n\n    {}\n", MASTER_KEY);
    let key = init_outcome(true, &stdout, "", Some(0), "correct horse battery staple").unwrap();
    assert!(key.starts_with("6f2f38e6-"));

    let error = init_outcome(false, "", "Password dissimilar.\n", Some(1), "wrong passphrase").unwrap_err();
    assert!(error.contains("Password dissimilar"), "unexpected error: {}", error);
}

#[test]
fn init_fails_when_output_has_no_master_key() {
    let error = init_outcome(true, "", "", Some(0), "correct horse battery staple").unwrap_err();
    assert!(error.contains("master key could not be read"));
}

#[test]
fn init_failure_hides_echoed_passphrase() {
    let error = init_outcome(
        false,
        "correct horse battery\r\ncorrect horse battery\r\n",
        "Password dissimilar.",
        Some(1),
        "correct horse battery",
    )
    .unwrap_err();
    assert_eq!(error, "***\r\n***Password dissimilar.");
}

#[test]
fn unlock_succeeds_with_correct_passphrase_and_fails_otherwise() {
    assert!(mount_outcome(true, "", "", Some(0), "correct horse battery staple").is_ok());
    let error = mount_outcome(false, "", "Password incorrect.\n", Some(1), "wrong passphrase").unwrap_err();
    assert_eq!(error, "Password incorrect.");
}

#[test]
fn set_passphrase_rejects_invalid_master_key() {
    let error = passphrase_change_outcome(
        false,
        "",
        "Could not parse master key: encoding/hex: invalid byte\n",
        Some(14),
        "11111111-22222222-33333333",
        "new secret phrase",
    )
    .unwrap_err();
    assert!(error.contains("master key"), "unexpected error: {}", error);
}

#[test]
fn set_passphrase_failure_hides_key_and_new_passphrase() {
    let error = passphrase_change_outcome(
        false,
        "key 00000000 rejected",
        " for new secret phrase",
        Some(1),
        "00000000",
        "new secret phrase",
    )
    .unwrap_err();
    assert_eq!(error, "key *** rejected for ***");
}

#[test]
fn invocations_keep_secrets_on_stdin() {
    let init = init_invocation("/usr/bin/gocryptfs", "/v/it's", "pass phrase");
    assert_eq!(
        init.arguments,
        vec!["-qec", "/usr/bin/gocryptfs -init '/v/it'\\''s'", "/dev/null"]
    );
    assert_eq!(init.stdin, "pass phrase\npass phrase\n");

    let unlock = unlock_invocation("/c", "/m", "secret");
    assert_eq!(unlock.arguments, vec!["-q", "/c", "/m"]);
    assert_eq!(unlock.stdin, "secret\n");

    let recovery = recovery_unlock_invocation("/c", "/m", "ab-cd");
    assert_eq!(recovery.arguments, vec!["-q", "-masterkey=ab-cd", "/c", "/m"]);
    assert_eq!(recovery.stdin, "");

    let change = set_passphrase_invocation("/c", "ab-cd", "new one");
    assert_eq!(change.arguments, vec!["-passwd", "-masterkey=ab-cd", "/c"]);
    assert_eq!(change.stdin, "new one\nnew one\n");
}

#[test]
fn unmount_with_aggregates_candidate_failures() {
    let error = unmount_failure(&vec![
        "device is busy".to_string(),
        "definitely-not-an-unmounter-xyz: No such file or directory (os error 2)".to_string(),
    ]);
    assert!(error.contains("device is busy"));
    assert!(error.contains("definitely-not-an-unmounter-xyz"));
    assert_eq!(
        error,
        "failed to unmount: device is busy; definitely-not-an-unmounter-xyz: No such file or directory (os error 2)"
    );
}

#[test]
fn collision_names_get_numbered_suffixes() {
    assert_eq!(destination_name("stale.md", 0), "stale.md");
    assert_eq!(destination_name("stale.md", 1), "stale.md-1");
    assert_eq!(destination_name("note", 12), "note-12");
}

#[test]
fn busy_programs_are_retried_a_bounded_number_of_times() {
    assert!(retry_after_failure(Some(26), 1));
    assert!(retry_after_failure(Some(26), 9));
    assert!(!retry_after_failure(Some(26), 10));
    assert!(!retry_after_failure(Some(2), 1));
    assert!(!retry_after_failure(None, 1));
}

#[test]
fn cross_device_moves_fall_back_to_copy() {
    assert!(copy_instead_of_rename(Some(18)));
    assert!(!copy_instead_of_rename(Some(13)));
    assert!(!copy_instead_of_rename(None));
}

#[test]
fn redaction_hides_recovery_key() {
    let error = mount_outcome(
        false,
        "",
        "Could not parse master key 00000000-00000000-0000: invalid",
        Some(14),
        "00000000-00000000-0000",
    )
    .unwrap_err();
    assert!(error.contains("master key"));
    assert!(!error.contains("00000000"));
}
