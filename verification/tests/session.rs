use omavault::cli::Command;
use omavault::gocryptfs::mount_outcome;
use omavault::scan::ScanSummary;
use omavault::session::{
    next_step, secret_from_line, secret_labels, status_report, validate_passphrase, Action,
    Facts, Reply,
};

const ACCEPTED_PASSPHRASE: &str = "correct horse battery staple";
const MASTER_KEY: &str = "6f2f38e6-93a3f5ac-1bd0cbb2-6ba0d9a4-ea82e9a7-77c37cd8-a5f0e13d-29f28e1d-59b21c53-8ec30a29-64bfa09e-4a29921e-d74e3ec7";

/// What the outside work reports in a test scenario.
struct World {
    initialized: bool,
    mounted: Result<bool, String>,
    created: Result<String, String>,
    recovered: Result<usize, String>,
    mounting: Result<(), String>,
    changed: Result<(), String>,
    unmount_eager: Result<(), String>,
    unmount_lazy: Result<(), String>,
    restored: Result<usize, String>,
    discarded: Result<usize, String>,
}

fn world() -> World {
    World {
        initialized: true,
        mounted: Ok(false),
        created: Ok(MASTER_KEY.to_string()),
        recovered: Ok(0),
        mounting: Ok(()),
        changed: Ok(()),
        unmount_eager: Ok(()),
        unmount_lazy: Ok(()),
        restored: Ok(0),
        discarded: Ok(0),
    }
}

#[derive(Debug, PartialEq)]
enum Outcome {
    Finished(Result<Reply<String>, String>),
    Status { initialized: bool, unlocked: bool, limit: usize },
}

/// Runs a command against a scenario, counting the outside work asked for.
fn drive(command: Command, secrets: &[&str], world: &World) -> (Outcome, Vec<&'static str>) {
    let secrets: Vec<String> = secrets.iter().map(|secret| secret.to_string()).collect();
    let mut facts = Facts::new();
    let mut work = Vec::new();
    for _ in 0..20 {
        match next_step(command, &secrets, &facts) {
            Action::CheckInitialized => facts.initialized = Some(world.initialized),
            Action::CheckMounted => facts.mounted = Some(world.mounted.clone()),
            Action::CreateVault { passphrase } => {
                assert!(passphrase.chars().count() >= 8);
                work.push("create");
                facts.created = Some(world.created.clone());
            }
            Action::RecoverStale => {
                work.push("recover");
                facts.recovered = Some(world.recovered.clone());
            }
            Action::Mount { .. } => {
                work.push("mount");
                facts.mounting = Some(world.mounting.clone());
            }
            Action::ChangePassphrase { .. } => {
                work.push("change");
                facts.changed = Some(world.changed.clone());
            }
            Action::Unmount { lazy } => {
                work.push(if lazy { "unmount-lazy" } else { "unmount" });
                facts.unmounted =
                    Some(if lazy { world.unmount_lazy.clone() } else { world.unmount_eager.clone() });
            }
            Action::Detach => {
                work.push("detach");
                facts.detached = Some(world.unmount_lazy.clone());
            }
            Action::RestoreRecovered => {
                work.push("restore");
                facts.restored = Some(world.restored.clone());
            }
            Action::DiscardRecovered => {
                work.push("discard");
                facts.discarded = Some(world.discarded.clone());
            }
            Action::ReportStatus { initialized, unlocked, limit } => {
                return (Outcome::Status { initialized, unlocked, limit }, work)
            }
            Action::Finish(result) => return (Outcome::Finished(result), work),
        }
    }
    panic!("the command did not finish");
}

fn error_of(outcome: Outcome) -> String {
    match outcome {
        Outcome::Finished(Err(error)) => error,
        other => panic!("expected an error, got {:?}", other),
    }
}

fn reply_of(outcome: Outcome) -> Reply<String> {
    match outcome {
        Outcome::Finished(Ok(reply)) => reply,
        other => panic!("expected a reply, got {:?}", other),
    }
}

#[test]
fn rejects_short_passphrase() {
    assert!(validate_passphrase("short").is_err());
    assert!(validate_passphrase("").is_err());
}

#[test]
fn accepts_long_enough_passphrase() {
    assert!(validate_passphrase("correct horse battery").is_ok());
}

#[test]
fn passphrase_length_counts_characters() {
    assert!(validate_passphrase("ççççççç").is_err());
    assert!(validate_passphrase("çççççççç").is_ok());
    assert_eq!(
        validate_passphrase("1234567").unwrap_err(),
        "passphrase must be at least 8 characters"
    );
}

#[test]
fn run_reports_status_of_missing_vault() {
    let mut scenario = world();
    scenario.initialized = false;
    let (outcome, work) = drive(Command::Status { limit: 10 }, &[], &scenario);
    assert_eq!(outcome, Outcome::Status { initialized: false, unlocked: false, limit: 10 });
    assert!(work.is_empty());
}

#[test]
fn status_of_mounted_vault_is_unlocked() {
    let mut scenario = world();
    scenario.mounted = Ok(true);
    let (outcome, _) = drive(Command::Status { limit: 5 }, &[], &scenario);
    assert_eq!(outcome, Outcome::Status { initialized: true, unlocked: true, limit: 5 });
    scenario.mounted = Err("failed to read mount table: denied".to_string());
    let (outcome, _) = drive(Command::Status { limit: 5 }, &[], &scenario);
    assert_eq!(error_of(outcome), "failed to read mount table: denied");
}

#[test]
fn status_reports_pending_recovered_files() {
    let empty = ScanSummary { total_bytes: 0, file_count: 0, files: Vec::new() };
    let report = status_report(true, false, true, empty, Vec::new(), 1);
    assert_eq!(report.pending_recovered, 1);
    assert_eq!(report.file_count, 0);
}

#[test]
fn locked_vault_reports_no_files() {
    let summary = ScanSummary { total_bytes: 9, file_count: 3, files: Vec::new() };
    let report = status_report(true, false, true, summary, Vec::new(), 0);
    assert_eq!(report.used_bytes, 0);
    assert_eq!(report.file_count, 0);
    let summary = ScanSummary { total_bytes: 9, file_count: 3, files: Vec::new() };
    let report = status_report(true, true, true, summary, Vec::new(), 0);
    assert_eq!(report.used_bytes, 9);
    assert_eq!(report.file_count, 3);
}

#[test]
fn run_rejects_empty_passphrase_on_stdin() {
    assert_eq!(secret_from_line("\n", "passphrase").unwrap_err(), "passphrase is empty");
}

#[test]
fn run_names_the_missing_secret_after_the_unlock_mode() {
    let labels = secret_labels(Command::Unlock { recovery_key: true });
    assert_eq!(labels, vec!["recovery key"]);
    assert_eq!(secret_from_line("\n", &labels[0]).unwrap_err(), "recovery key is empty");
    let labels = secret_labels(Command::Unlock { recovery_key: false });
    assert_eq!(secret_from_line("\n", &labels[0]).unwrap_err(), "passphrase is empty");
}

#[test]
fn secrets_lose_only_their_line_break() {
    assert_eq!(secret_from_line("a b \r\n", "x").unwrap(), "a b ");
    assert_eq!(secret_from_line("key", "x").unwrap(), "key");
    assert_eq!(secret_from_line("", "passphrase").unwrap_err(), "passphrase is empty");
    assert_eq!(secret_labels(Command::SetPassphrase), vec!["recovery key", "passphrase"]);
    assert!(secret_labels(Command::Lock { lazy: false }).is_empty());
}

#[test]
fn dispatch_init_creates_vault_and_returns_recovery_key() {
    let mut scenario = world();
    scenario.initialized = false;
    let (outcome, work) = drive(Command::Init, &[ACCEPTED_PASSPHRASE], &scenario);
    assert_eq!(
        reply_of(outcome),
        Reply::Created { recovery_key: MASTER_KEY.to_string() }
    );
    assert_eq!(work, vec!["create"]);
}

#[test]
fn dispatch_init_rejects_existing_vault() {
    let (outcome, work) = drive(Command::Init, &[ACCEPTED_PASSPHRASE], &world());
    assert_eq!(error_of(outcome), "vault already initialized");
    assert!(work.is_empty());
}

#[test]
fn dispatch_init_requires_passphrase() {
    let mut scenario = world();
    scenario.initialized = false;
    let (outcome, _) = drive(Command::Init, &[], &scenario);
    assert_eq!(error_of(outcome), "passphrase is required");
}

#[test]
fn dispatch_init_rejects_weak_passphrase() {
    let mut scenario = world();
    scenario.initialized = false;
    let (outcome, work) = drive(Command::Init, &["short"], &scenario);
    assert_eq!(error_of(outcome), "passphrase must be at least 8 characters");
    assert!(work.is_empty());
}

#[test]
fn dispatch_init_surfaces_gocryptfs_failure() {
    let mut scenario = world();
    scenario.initialized = false;
    scenario.created = Err("Password dissimilar.".to_string());
    let (outcome, _) = drive(Command::Init, &["wrong passphrase value"], &scenario);
    let error = error_of(outcome);
    assert!(error.contains("Password dissimilar"), "unexpected error: {}", error);
}

#[test]
fn dispatch_unlock_rejects_uninitialized_vault() {
    let mut scenario = world();
    scenario.initialized = false;
    let (outcome, _) = drive(
        Command::Unlock { recovery_key: false },
        &[ACCEPTED_PASSPHRASE],
        &scenario,
    );
    assert_eq!(error_of(outcome), "vault is not initialized");
}

#[test]
fn dispatch_unlock_mounts_initialized_vault() {
    let mut scenario = world();
    scenario.recovered = Ok(2);
    let (outcome, work) = drive(
        Command::Unlock { recovery_key: false },
        &[ACCEPTED_PASSPHRASE],
        &scenario,
    );
    assert_eq!(reply_of(outcome), Reply::Unlocked { recovered: Some(2) });
    assert_eq!(work, vec!["recover", "mount"]);
}

#[test]
fn dispatch_unlock_with_recovery_key_mounts_vault() {
    let (outcome, _) = drive(Command::Unlock { recovery_key: true }, &[MASTER_KEY], &world());
    assert_eq!(reply_of(outcome), Reply::Unlocked { recovered: Some(0) });
}

#[test]
fn dispatch_unlock_rejects_wrong_recovery_key() {
    let mut scenario = world();
    scenario.mounting = mount_outcome(
        false,
        "",
        "Could not parse master key: encoding/hex: invalid byte\n",
        Some(14),
        "00000000-00000000-0000",
    );
    let (outcome, _) = drive(
        Command::Unlock { recovery_key: true },
        &["00000000-00000000-0000"],
        &scenario,
    );
    let error = error_of(outcome);
    assert!(error.contains("master key"), "unexpected error: {}", error);
    assert!(!error.contains("00000000"), "recovery key leaked in error");
}

#[test]
fn dispatch_unlock_requires_recovery_key_on_stdin() {
    let (outcome, _) = drive(Command::Unlock { recovery_key: true }, &[], &world());
    assert_eq!(error_of(outcome), "recovery key is required");
}

#[test]
fn unlock_of_mounted_vault_does_nothing() {
    let mut scenario = world();
    scenario.mounted = Ok(true);
    let (outcome, work) = drive(Command::Unlock { recovery_key: false }, &[], &scenario);
    assert_eq!(reply_of(outcome), Reply::Unlocked { recovered: None });
    assert!(work.is_empty());
}

#[test]
fn run_sets_passphrase_with_secrets_from_stdin() {
    let (outcome, work) = drive(
        Command::SetPassphrase,
        &[MASTER_KEY, ACCEPTED_PASSPHRASE],
        &world(),
    );
    assert_eq!(reply_of(outcome), Reply::PassphraseChanged);
    assert_eq!(work, vec!["change"]);
}

#[test]
fn run_set_passphrase_rejects_weak_new_passphrase() {
    let (outcome, work) = drive(Command::SetPassphrase, &[MASTER_KEY, "short"], &world());
    assert_eq!(error_of(outcome), "passphrase must be at least 8 characters");
    assert!(work.is_empty());
}

#[test]
fn dispatch_set_passphrase_requires_recovery_key() {
    let (outcome, _) = drive(Command::SetPassphrase, &[], &world());
    assert_eq!(error_of(outcome), "recovery key is required");
    let (outcome, _) = drive(Command::SetPassphrase, &[MASTER_KEY], &world());
    assert_eq!(error_of(outcome), "new passphrase is required");
}

#[test]
fn dispatch_set_passphrase_rejects_uninitialized_vault() {
    let mut scenario = world();
    scenario.initialized = false;
    let (outcome, _) = drive(Command::SetPassphrase, &[], &scenario);
    assert_eq!(error_of(outcome), "vault is not initialized");
}

#[test]
fn dispatch_set_passphrase_redacts_recovery_key_on_failure() {
    let mut scenario = world();
    scenario.changed = Err("Could not parse master key: encoding/hex: invalid byte".to_string());
    let (outcome, _) = drive(
        Command::SetPassphrase,
        &["00000000-00000000-000000", ACCEPTED_PASSPHRASE],
        &scenario,
    );
    let error = error_of(outcome);
    assert!(error.contains("master key"), "unexpected error: {}", error);
    assert!(!error.contains("00000000"), "recovery key leaked in error");
}

#[test]
fn dispatch_lock_rejects_uninitialized_vault() {
    let mut scenario = world();
    scenario.initialized = false;
    let (outcome, _) = drive(Command::Lock { lazy: false }, &[], &scenario);
    assert_eq!(error_of(outcome), "vault is not initialized");
}

#[test]
fn dispatch_lock_reports_already_locked_vault() {
    let (outcome, work) = drive(Command::Lock { lazy: false }, &[], &world());
    assert_eq!(reply_of(outcome), Reply::Locked { lazy: false });
    assert!(work.is_empty());
}

#[test]
fn run_locks_vault_when_not_mounted() {
    let (outcome, _) = drive(Command::Lock { lazy: false }, &[], &world());
    assert_eq!(reply_of(outcome), Reply::Locked { lazy: false });
}

#[test]
fn run_lock_with_lazy_flag_on_initialized_vault() {
    let (outcome, _) = drive(Command::Lock { lazy: true }, &[], &world());
    assert_eq!(reply_of(outcome), Reply::Locked { lazy: false });
}

#[test]
fn vault_lock_falls_back_to_lazy_when_mount_is_busy() {
    let mut scenario = world();
    scenario.mounted = Ok(true);
    scenario.unmount_eager = Err("failed to unmount: device is busy".to_string());
    let (outcome, work) = drive(Command::Lock { lazy: false }, &[], &scenario);
    assert_eq!(reply_of(outcome), Reply::Locked { lazy: true });
    assert_eq!(work, vec!["unmount", "detach"]);
}

#[test]
fn vault_lock_is_eager_when_nothing_holds_the_mount() {
    let mut scenario = world();
    scenario.mounted = Ok(true);
    let (outcome, work) = drive(Command::Lock { lazy: false }, &[], &scenario);
    assert_eq!(reply_of(outcome), Reply::Locked { lazy: false });
    assert_eq!(work, vec!["unmount"]);
}

#[test]
fn failed_lazy_lock_is_reported() {
    let mut scenario = world();
    scenario.mounted = Ok(true);
    scenario.unmount_lazy = Err("failed to unmount: x".to_string());
    let (outcome, work) = drive(Command::Lock { lazy: true }, &[], &scenario);
    assert_eq!(error_of(outcome), "failed to unmount: x");
    assert_eq!(work, vec!["unmount-lazy"]);
    scenario.unmount_eager = Err("busy".to_string());
    let (outcome, _) = drive(Command::Lock { lazy: false }, &[], &scenario);
    assert_eq!(error_of(outcome), "failed to unmount: x");
}

#[test]
fn dispatch_help_returns_empty_payload() {
    let (outcome, _) = drive(Command::Help, &[], &world());
    assert_eq!(reply_of(outcome), Reply::Empty);
    let (outcome, _) = drive(Command::Version, &[], &world());
    assert_eq!(reply_of(outcome), Reply::Version);
}

#[test]
fn dispatch_restore_requires_unlocked_vault() {
    let (outcome, work) = drive(Command::Restore, &[], &world());
    assert_eq!(error_of(outcome), "vault is locked");
    assert!(work.is_empty());
}

#[test]
fn dispatch_restore_rejects_uninitialized_vault() {
    let mut scenario = world();
    scenario.initialized = false;
    let (outcome, _) = drive(Command::Restore, &[], &scenario);
    assert_eq!(error_of(outcome), "vault is not initialized");
}

#[test]
fn restore_moves_files_into_mounted_vault() {
    let mut scenario = world();
    scenario.mounted = Ok(true);
    scenario.restored = Ok(2);
    let (outcome, _) = drive(Command::Restore, &[], &scenario);
    assert_eq!(reply_of(outcome), Reply::Restored { count: 2 });
}

#[test]
fn dispatch_discard_removes_recovered_files() {
    let mut scenario = world();
    scenario.discarded = Ok(2);
    let (outcome, work) = drive(Command::Discard, &[], &scenario);
    assert_eq!(reply_of(outcome), Reply::Discarded { count: 2 });
    assert_eq!(work, vec!["discard"]);
}

#[test]
fn dispatch_discard_reports_zero_when_nothing_to_remove() {
    let (outcome, _) = drive(Command::Discard, &[], &world());
    assert_eq!(reply_of(outcome), Reply::Discarded { count: 0 });
}

#[test]
fn outside_failures_end_the_command() {
    let mut scenario = world();
    scenario.recovered = Err("failed to read /m: denied".to_string());
    let (outcome, work) = drive(Command::Unlock { recovery_key: false }, &["secret pass"], &scenario);
    assert_eq!(error_of(outcome), "failed to read /m: denied");
    assert_eq!(work, vec!["recover"]);
}
