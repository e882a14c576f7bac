//! The decisions of each helper command.
//!
//! A command runs as a conversation: [`next_step`] looks at the command, the
//! secrets read from standard input and the [`Facts`] learned so far, and
//! answers with the next piece of outside work to do (check the vault, run
//! gocryptfs, move files, ...) or with the final reply. The caller performs
//! the work, records its result in the facts, and asks again.

use vstd::prelude::*;
use vstd::string::StringExecFns;
use crate::cli::Command;
use crate::holders::Holder;
use crate::scan::{FileEntry, ScanSummary};
use crate::text::{chars_of, slice_chars, string_of, views};

verus! {

/// The final answer of a command that succeeded.
#[derive(Debug, Clone, PartialEq, Eq)]
pub enum Reply<S> {
    /// The vault was created; the recovery key is its gocryptfs master key.
    Created { recovery_key: S },
    /// The vault is mounted; `recovered` counts the entries moved out of the
    /// mount point first (none when the vault was already mounted).
    Unlocked { recovered: Option<usize> },
    PassphraseChanged,
    /// The vault is not mounted; `lazy` tells whether it was detached lazily.
    Locked { lazy: bool },
    Restored { count: usize },
    Discarded { count: usize },
    /// Nothing to report (help).
    Empty,
    /// The helper's version was asked for.
    Version,
}

/// The next thing to do for a command.
#[derive(Debug, PartialEq, Eq)]
pub enum Action<S> {
    /// Find out whether the vault was created (`Facts::initialized`).
    CheckInitialized,
    /// Find out whether the vault is mounted (`Facts::mounted`).
    CheckMounted,
    /// Run `gocryptfs -init` with this passphrase (`Facts::created`).
    CreateVault { passphrase: S },
    /// Move entries left in the unmounted mount point aside (`Facts::recovered`).
    RecoverStale,
    /// Mount the vault with a passphrase or the recovery key (`Facts::mounting`).
    Mount { secret: S, recovery_key: bool },
    /// Re-wrap the master key with a new passphrase (`Facts::changed`).
    ChangePassphrase { master_key: S, passphrase: S },
    /// Unmount the vault, lazily if asked (`Facts::unmounted`).
    Unmount { lazy: bool },
    /// Detach a busy mount lazily after a plain unmount failed (`Facts::detached`).
    Detach,
    /// Move recovered entries back into the mounted vault (`Facts::restored`).
    RestoreRecovered,
    /// Delete the recovered entries (`Facts::discarded`).
    DiscardRecovered,
    /// Gather the status and report it with [`status_report`]; this ends the command.
    ReportStatus { initialized: bool, unlocked: bool, limit: usize },
    /// The command is over with this reply or error.
    Finish(Result<Reply<S>, S>),
}

/// What the outside work of a command has found so far; `None` for what was
/// not asked yet.
pub struct Facts {
    pub initialized: Option<bool>,
    pub mounted: Option<Result<bool, String>>,
    pub created: Option<Result<String, String>>,
    pub recovered: Option<Result<usize, String>>,
    pub mounting: Option<Result<(), String>>,
    pub changed: Option<Result<(), String>>,
    pub unmounted: Option<Result<(), String>>,
    pub detached: Option<Result<(), String>>,
    pub restored: Option<Result<usize, String>>,
    pub discarded: Option<Result<usize, String>>,
}

impl Facts {
    /// Nothing known yet.
    pub fn new() -> (r: Self)
        ensures
            r.initialized is None,
            r.mounted is None,
            r.created is None,
            r.recovered is None,
            r.mounting is None,
            r.changed is None,
            r.unmounted is None,
            r.detached is None,
            r.restored is None,
            r.discarded is None,
    {
        Facts {
            initialized: None,
            mounted: None,
            created: None,
            recovered: None,
            mounting: None,
            changed: None,
            unmounted: None,
            detached: None,
            restored: None,
            discarded: None,
        }
    }
}

pub open spec fn reply_view(r: Reply<String>) -> Reply<Seq<char>> {
    match r {
        Reply::Created { recovery_key } => Reply::Created { recovery_key: recovery_key@ },
        Reply::Unlocked { recovered } => Reply::Unlocked { recovered },
        Reply::PassphraseChanged => Reply::PassphraseChanged,
        Reply::Locked { lazy } => Reply::Locked { lazy },
        Reply::Restored { count } => Reply::Restored { count },
        Reply::Discarded { count } => Reply::Discarded { count },
        Reply::Empty => Reply::Empty,
        Reply::Version => Reply::Version,
    }
}

pub open spec fn action_view(a: Action<String>) -> Action<Seq<char>> {
    match a {
        Action::CheckInitialized => Action::CheckInitialized,
        Action::CheckMounted => Action::CheckMounted,
        Action::CreateVault { passphrase } => Action::CreateVault { passphrase: passphrase@ },
        Action::RecoverStale => Action::RecoverStale,
        Action::Mount { secret, recovery_key } => Action::Mount { secret: secret@, recovery_key },
        Action::ChangePassphrase { master_key, passphrase } => Action::ChangePassphrase {
            master_key: master_key@,
            passphrase: passphrase@,
        },
        Action::Unmount { lazy } => Action::Unmount { lazy },
        Action::Detach => Action::Detach,
        Action::RestoreRecovered => Action::RestoreRecovered,
        Action::DiscardRecovered => Action::DiscardRecovered,
        Action::ReportStatus { initialized, unlocked, limit } => Action::ReportStatus {
            initialized,
            unlocked,
            limit,
        },
        Action::Finish(Ok(r)) => Action::Finish(Ok(reply_view(r))),
        Action::Finish(Err(e)) => Action::Finish(Err(e@)),
    }
}

pub open spec fn fail(message: Seq<char>) -> Action<Seq<char>> {
    Action::Finish(Err(message))
}

pub open spec fn succeed(reply: Reply<Seq<char>>) -> Action<Seq<char>> {
    Action::Finish(Ok(reply))
}

pub open spec fn not_initialized_message() -> Seq<char> {
    "vault is not initialized"@
}

pub open spec fn already_initialized_message() -> Seq<char> {
    "vault already initialized"@
}

pub open spec fn weak_passphrase_message() -> Seq<char> {
    "passphrase must be at least 8 characters"@
}

/// A passphrase is accepted when it has at least 8 characters.
pub open spec fn strong_enough(passphrase: Seq<char>) -> bool {
    passphrase.len() >= 8
}

/// The next step of `command`, given the secrets read for it and the facts
/// learned so far. Every command on a vault other than status and creation
/// first makes sure the vault exists; every failure of outside work ends the
/// command with that failure's message.
pub open spec fn step_for(command: Command, secrets: Seq<Seq<char>>, facts: Facts) -> Action<Seq<char>> {
    match command {
        Command::Help => succeed(Reply::Empty),
        Command::Version => succeed(Reply::Version),
        Command::Status { limit } => match facts.initialized {
            None => Action::CheckInitialized,
            Some(false) => Action::ReportStatus { initialized: false, unlocked: false, limit },
            Some(true) => match facts.mounted {
                None => Action::CheckMounted,
                Some(Err(e)) => fail(e@),
                Some(Ok(m)) => Action::ReportStatus { initialized: true, unlocked: m, limit },
            },
        },
        Command::Init => match facts.initialized {
            None => Action::CheckInitialized,
            Some(true) => fail(already_initialized_message()),
            Some(false) => if secrets.len() < 1 {
                fail("passphrase is required"@)
            } else if !strong_enough(secrets[0]) {
                fail(weak_passphrase_message())
            } else {
                match facts.created {
                    None => Action::CreateVault { passphrase: secrets[0] },
                    Some(Err(e)) => fail(e@),
                    Some(Ok(k)) => succeed(Reply::Created { recovery_key: k@ }),
                }
            },
        },
        Command::Unlock { recovery_key } => match facts.initialized {
            None => Action::CheckInitialized,
            Some(false) => fail(not_initialized_message()),
            Some(true) => match facts.mounted {
                None => Action::CheckMounted,
                Some(Err(e)) => fail(e@),
                Some(Ok(true)) => succeed(Reply::Unlocked { recovered: None }),
                Some(Ok(false)) => if secrets.len() < 1 {
                    fail(
                        if recovery_key {
                            "recovery key is required"@
                        } else {
                            "passphrase is required"@
                        },
                    )
                } else {
                    match facts.recovered {
                        None => Action::RecoverStale,
                        Some(Err(e)) => fail(e@),
                        Some(Ok(n)) => match facts.mounting {
                            None => Action::Mount { secret: secrets[0], recovery_key },
                            Some(Err(e)) => fail(e@),
                            Some(Ok(())) => succeed(Reply::Unlocked { recovered: Some(n) }),
                        },
                    }
                },
            },
        },
        Command::SetPassphrase => match facts.initialized {
            None => Action::CheckInitialized,
            Some(false) => fail(not_initialized_message()),
            Some(true) => if secrets.len() < 1 {
                fail("recovery key is required"@)
            } else if secrets.len() < 2 {
                fail("new passphrase is required"@)
            } else if !strong_enough(secrets[1]) {
                fail(weak_passphrase_message())
            } else {
                match facts.changed {
                    None => Action::ChangePassphrase { master_key: secrets[0], passphrase: secrets[1] },
                    Some(Err(e)) => fail(e@),
                    Some(Ok(())) => succeed(Reply::PassphraseChanged),
                }
            },
        },
        Command::Lock { lazy } => match facts.initialized {
            None => Action::CheckInitialized,
            Some(false) => fail(not_initialized_message()),
            Some(true) => match facts.mounted {
                None => Action::CheckMounted,
                Some(Err(e)) => fail(e@),
                Some(Ok(false)) => succeed(Reply::Locked { lazy: false }),
                Some(Ok(true)) => match facts.unmounted {
                    None => Action::Unmount { lazy },
                    Some(Ok(())) => succeed(Reply::Locked { lazy }),
                    Some(Err(e)) => if lazy {
                        fail(e@)
                    } else {
                        match facts.detached {
                            None => Action::Detach,
                            Some(Err(e2)) => fail(e2@),
                            Some(Ok(())) => succeed(Reply::Locked { lazy: true }),
                        }
                    },
                },
            },
        },
        Command::Restore => match facts.initialized {
            None => Action::CheckInitialized,
            Some(false) => fail(not_initialized_message()),
            Some(true) => match facts.mounted {
                None => Action::CheckMounted,
                Some(Err(e)) => fail(e@),
                Some(Ok(false)) => fail("vault is locked"@),
                Some(Ok(true)) => match facts.restored {
                    None => Action::RestoreRecovered,
                    Some(Err(e)) => fail(e@),
                    Some(Ok(n)) => succeed(Reply::Restored { count: n }),
                },
            },
        },
        Command::Discard => match facts.initialized {
            None => Action::CheckInitialized,
            Some(false) => fail(not_initialized_message()),
            Some(true) => match facts.discarded {
                None => Action::DiscardRecovered,
                Some(Err(e)) => fail(e@),
                Some(Ok(n)) => succeed(Reply::Discarded { count: n }),
            },
        },
    }
}

fn message(s: &str) -> (r: String)
    ensures
        r@ == s@,
{
    String::from_str(s)
}

fn copy_of(s: &String) -> (r: String)
    ensures
        r@ == s@,
{
    s.clone()
}

fn finish_with(e: &String) -> (r: Action<String>)
    ensures
        action_view(r) == fail(e@),
{
    Action::Finish(Err(copy_of(e)))
}

/// Accepts a passphrase of at least 8 characters.
pub fn validate_passphrase(passphrase: &str) -> (r: Result<(), String>)
    ensures
        r is Ok <==> strong_enough(passphrase@),
        r matches Err(e) ==> e@ == weak_passphrase_message(),
{
    let chars = chars_of(passphrase);
    if chars.len() < 8 {
        return Err(message("passphrase must be at least 8 characters"));
    }
    Ok(())
}

/// The next step of a command (see [`step_for`]).
pub fn next_step(command: Command, secrets: &[String], facts: &Facts) -> (r: Action<String>)
    ensures
        action_view(r) == step_for(command, views(secrets@), *facts),
{
    let ghost s = views(secrets@);
    match command {
        Command::Help => Action::Finish(Ok(Reply::Empty)),
        Command::Version => Action::Finish(Ok(Reply::Version)),
        Command::Status { limit } => match facts.initialized {
            None => Action::CheckInitialized,
            Some(false) => Action::ReportStatus { initialized: false, unlocked: false, limit },
            Some(true) => match &facts.mounted {
                None => Action::CheckMounted,
                Some(Err(e)) => finish_with(e),
                Some(Ok(m)) => Action::ReportStatus { initialized: true, unlocked: *m, limit },
            },
        },
        Command::Init => match facts.initialized {
            None => Action::CheckInitialized,
            Some(true) => Action::Finish(Err(message("vault already initialized"))),
            Some(false) => {
                if secrets.len() < 1 {
                    return Action::Finish(Err(message("passphrase is required")));
                }
                assert(s[0] == secrets@[0]@);
                if validate_passphrase(secrets[0].as_str()).is_err() {
                    return Action::Finish(Err(message("passphrase must be at least 8 characters")));
                }
                match &facts.created {
                    None => Action::CreateVault { passphrase: copy_of(&secrets[0]) },
                    Some(Err(e)) => finish_with(e),
                    Some(Ok(k)) => Action::Finish(Ok(Reply::Created { recovery_key: copy_of(k) })),
                }
            },
        },
        Command::Unlock { recovery_key } => match facts.initialized {
            None => Action::CheckInitialized,
            Some(false) => Action::Finish(Err(message("vault is not initialized"))),
            Some(true) => match &facts.mounted {
                None => Action::CheckMounted,
                Some(Err(e)) => finish_with(e),
                Some(Ok(true)) => Action::Finish(Ok(Reply::Unlocked { recovered: None })),
                Some(Ok(false)) => {
                    if secrets.len() < 1 {
                        return Action::Finish(
                            Err(
                                if recovery_key {
                                    message("recovery key is required")
                                } else {
                                    message("passphrase is required")
                                },
                            ),
                        );
                    }
                    assert(s[0] == secrets@[0]@);
                    match &facts.recovered {
                        None => Action::RecoverStale,
                        Some(Err(e)) => finish_with(e),
                        Some(Ok(n)) => match &facts.mounting {
                            None => Action::Mount { secret: copy_of(&secrets[0]), recovery_key },
                            Some(Err(e)) => finish_with(e),
                            Some(Ok(())) => Action::Finish(Ok(Reply::Unlocked { recovered: Some(*n) })),
                        },
                    }
                },
            },
        },
        Command::SetPassphrase => match facts.initialized {
            None => Action::CheckInitialized,
            Some(false) => Action::Finish(Err(message("vault is not initialized"))),
            Some(true) => {
                if secrets.len() < 1 {
                    return Action::Finish(Err(message("recovery key is required")));
                }
                if secrets.len() < 2 {
                    return Action::Finish(Err(message("new passphrase is required")));
                }
                assert(s[0] == secrets@[0]@);
                assert(s[1] == secrets@[1]@);
                if validate_passphrase(secrets[1].as_str()).is_err() {
                    return Action::Finish(Err(message("passphrase must be at least 8 characters")));
                }
                match &facts.changed {
                    None => Action::ChangePassphrase {
                        master_key: copy_of(&secrets[0]),
                        passphrase: copy_of(&secrets[1]),
                    },
                    Some(Err(e)) => finish_with(e),
                    Some(Ok(())) => Action::Finish(Ok(Reply::PassphraseChanged)),
                }
            },
        },
        Command::Lock { lazy } => match facts.initialized {
            None => Action::CheckInitialized,
            Some(false) => Action::Finish(Err(message("vault is not initialized"))),
            Some(true) => match &facts.mounted {
                None => Action::CheckMounted,
                Some(Err(e)) => finish_with(e),
                Some(Ok(false)) => Action::Finish(Ok(Reply::Locked { lazy: false })),
                Some(Ok(true)) => match &facts.unmounted {
                    None => Action::Unmount { lazy },
                    Some(Ok(())) => Action::Finish(Ok(Reply::Locked { lazy })),
                    Some(Err(e)) => if lazy {
                        finish_with(e)
                    } else {
                        match &facts.detached {
                            None => Action::Detach,
                            Some(Err(e2)) => finish_with(e2),
                            Some(Ok(())) => Action::Finish(Ok(Reply::Locked { lazy: true })),
                        }
                    },
                },
            },
        },
        Command::Restore => match facts.initialized {
            None => Action::CheckInitialized,
            Some(false) => Action::Finish(Err(message("vault is not initialized"))),
            Some(true) => match &facts.mounted {
                None => Action::CheckMounted,
                Some(Err(e)) => finish_with(e),
                Some(Ok(false)) => Action::Finish(Err(message("vault is locked"))),
                Some(Ok(true)) => match &facts.restored {
                    None => Action::RestoreRecovered,
                    Some(Err(e)) => finish_with(e),
                    Some(Ok(n)) => Action::Finish(Ok(Reply::Restored { count: *n })),
                },
            },
        },
        Command::Discard => match facts.initialized {
            None => Action::CheckInitialized,
            Some(false) => Action::Finish(Err(message("vault is not initialized"))),
            Some(true) => match &facts.discarded {
                None => Action::DiscardRecovered,
                Some(Err(e)) => finish_with(e),
                Some(Ok(n)) => Action::Finish(Ok(Reply::Discarded { count: *n })),
            },
        },
    }
}

/// The labels of the secrets a command reads from standard input, one line
/// each, in order.
pub open spec fn labels_for(command: Command) -> Seq<Seq<char>> {
    match command {
        Command::Init => seq!["passphrase"@],
        Command::Unlock { recovery_key } => seq![
            if recovery_key {
                "recovery key"@
            } else {
                "passphrase"@
            },
        ],
        Command::SetPassphrase => seq!["recovery key"@, "passphrase"@],
        _ => Seq::empty(),
    }
}

pub fn secret_labels(command: Command) -> (r: Vec<String>)
    ensures
        views(r@) == labels_for(command),
{
    let mut r: Vec<String> = Vec::new();
    match command {
        Command::Init => {
            r.push(message("passphrase"));
        },
        Command::Unlock { recovery_key } => {
            if recovery_key {
                r.push(message("recovery key"));
            } else {
                r.push(message("passphrase"));
            }
        },
        Command::SetPassphrase => {
            r.push(message("recovery key"));
            r.push(message("passphrase"));
        },
        _ => {},
    }
    assert(views(r@) =~= labels_for(command));
    r
}

/// `s` without its trailing line-break characters (`\n` and `\r`, in any mix).
pub open spec fn without_line_end(s: Seq<char>) -> Seq<char>
    decreases s.len(),
{
    if s.len() > 0 && (s.last() == '\n' || s.last() == '\r') {
        without_line_end(s.drop_last())
    } else {
        s
    }
}

/// The secret on one line of standard input: the line without its line
/// break, refused when that leaves nothing.
pub fn secret_from_line(line: &str, label: &str) -> (r: Result<String, String>)
    ensures
        r is Ok <==> without_line_end(line@).len() > 0,
        match r {
            Ok(secret) => secret@ == without_line_end(line@),
            Err(e) => e@ == label@ + " is empty"@,
        },
{
    let v = chars_of(line);
    let mut j: usize = v.len();
    assert(v@.take(j as int) =~= v@);
    while j > 0 && (v[j - 1] == '\n' || v[j - 1] == '\r')
        invariant
            j <= v.len(),
            without_line_end(v@) == without_line_end(v@.take(j as int)),
        decreases j,
    {
        assert(v@.take(j as int).drop_last() =~= v@.take(j - 1));
        j -= 1;
    }
    if j == 0 {
        let mut e = message(label);
        e.append(" is empty");
        return Err(e);
    }
    let kept = slice_chars(&v, 0, j);
    Ok(string_of(&kept))
}

/// The status of the vault as reported.
#[derive(Debug, Clone, PartialEq, Eq)]
pub struct StatusReport {
    pub installed: bool,
    pub initialized: bool,
    pub unlocked: bool,
    pub used_bytes: u64,
    pub file_count: usize,
    pub files: Vec<FileEntry>,
    pub pending_recovered: usize,
    pub holders: Vec<Holder>,
}

/// Puts the status together: file totals, recent files and holders are only
/// reported for a mounted vault, and are zero or empty otherwise.
pub fn status_report(
    initialized: bool,
    unlocked: bool,
    installed: bool,
    summary: ScanSummary,
    holders: Vec<Holder>,
    pending_recovered: usize,
) -> (r: StatusReport)
    ensures
        r.installed == installed,
        r.initialized == initialized,
        r.unlocked == unlocked,
        r.pending_recovered == pending_recovered,
        unlocked ==> r.used_bytes == summary.total_bytes && r.file_count == summary.file_count
            && r.files@ == summary.files@ && r.holders@ == holders@,
        !unlocked ==> r.used_bytes == 0 && r.file_count == 0 && r.files@.len() == 0
            && r.holders@.len() == 0,
{
    if unlocked {
        StatusReport {
            installed,
            initialized,
            unlocked,
            used_bytes: summary.total_bytes,
            file_count: summary.file_count,
            files: summary.files,
            pending_recovered,
            holders,
        }
    } else {
        StatusReport {
            installed,
            initialized,
            unlocked,
            used_bytes: 0,
            file_count: 0,
            files: Vec::new(),
            pending_recovered,
            holders: Vec::new(),
        }
    }
}

/// Unlocking, changing the passphrase, locking, restoring and discarding all
/// refuse a vault that was never created, before any other work.
pub proof fn lemma_commands_need_a_vault(command: Command, secrets: Seq<Seq<char>>, facts: Facts)
    requires
        command is Unlock || command is SetPassphrase || command is Lock || command is Restore
            || command is Discard,
        facts.initialized == Some(false),
    ensures
        step_for(command, secrets, facts) == fail(not_initialized_message()),
{
}

/// Creating a vault over an existing one is refused.
pub proof fn lemma_no_second_vault(secrets: Seq<Seq<char>>, facts: Facts)
    requires
        facts.initialized == Some(true),
    ensures
        step_for(Command::Init, secrets, facts) == fail(already_initialized_message()),
{
}

/// gocryptfs is only ever handed passphrases of at least 8 characters, both
/// when creating the vault and when changing its passphrase.
pub proof fn lemma_only_strong_passphrases(command: Command, secrets: Seq<Seq<char>>, facts: Facts)
    ensures
        step_for(command, secrets, facts) is CreateVault ==> strong_enough(
            step_for(command, secrets, facts)->CreateVault_passphrase,
        ),
        step_for(command, secrets, facts) is ChangePassphrase ==> strong_enough(
            step_for(command, secrets, facts)->ChangePassphrase_passphrase,
        ),
{
}

/// Work that changes the vault or its files is only asked for once the vault
/// is known to exist (or, for creation, known not to), and mounting, unmounting
/// and restoring only once the vault is known to be in the matching state.
pub proof fn lemma_changes_follow_checks(command: Command, secrets: Seq<Seq<char>>, facts: Facts)
    ensures
        step_for(command, secrets, facts) is CreateVault ==> facts.initialized == Some(false),
        step_for(command, secrets, facts) is RecoverStale ==> facts.initialized == Some(true)
            && facts.mounted == Some(Ok::<bool, String>(false)),
        step_for(command, secrets, facts) is Mount ==> facts.initialized == Some(true)
            && facts.mounted == Some(Ok::<bool, String>(false)) && (facts.recovered is Some
            && facts.recovered->0 is Ok),
        step_for(command, secrets, facts) is ChangePassphrase ==> facts.initialized == Some(true),
        step_for(command, secrets, facts) is Unmount ==> facts.initialized == Some(true)
            && facts.mounted == Some(Ok::<bool, String>(true)),
        step_for(command, secrets, facts) is Detach ==> facts.initialized == Some(true)
            && facts.mounted == Some(Ok::<bool, String>(true)) && (facts.unmounted is Some
            && facts.unmounted->0 is Err) && command == (Command::Lock { lazy: false }),
        step_for(command, secrets, facts) is RestoreRecovered ==> facts.initialized == Some(true)
            && facts.mounted == Some(Ok::<bool, String>(true)),
        step_for(command, secrets, facts) is DiscardRecovered ==> facts.initialized == Some(true),
{
}

/// Each step asks only for something not known yet, so a command finishes
/// after at most one round of each kind of outside work.
pub proof fn lemma_asks_only_unknowns(command: Command, secrets: Seq<Seq<char>>, facts: Facts)
    ensures
        step_for(command, secrets, facts) is CheckInitialized ==> facts.initialized is None,
        step_for(command, secrets, facts) is CheckMounted ==> facts.mounted is None,
        step_for(command, secrets, facts) is CreateVault ==> facts.created is None,
        step_for(command, secrets, facts) is RecoverStale ==> facts.recovered is None,
        step_for(command, secrets, facts) is Mount ==> facts.mounting is None,
        step_for(command, secrets, facts) is ChangePassphrase ==> facts.changed is None,
        step_for(command, secrets, facts) is Unmount ==> facts.unmounted is None,
        step_for(command, secrets, facts) is Detach ==> facts.detached is None,
        step_for(command, secrets, facts) is RestoreRecovered ==> facts.restored is None,
        step_for(command, secrets, facts) is DiscardRecovered ==> facts.discarded is None,
{
}

/// Unlocking a vault that is already mounted succeeds without touching it.
pub proof fn lemma_unlock_of_mounted_vault(recovery_key: bool, secrets: Seq<Seq<char>>, facts: Facts)
    requires
        facts.initialized == Some(true),
        facts.mounted == Some(Ok::<bool, String>(true)),
    ensures
        step_for((Command::Unlock { recovery_key }), secrets, facts) == succeed((Reply::Unlocked { recovered: None })),
{
}

/// Locking a vault that is not mounted succeeds without unmounting.
pub proof fn lemma_lock_of_unmounted_vault(lazy: bool, secrets: Seq<Seq<char>>, facts: Facts)
    requires
        facts.initialized == Some(true),
        facts.mounted == Some(Ok::<bool, String>(false)),
    ensures
        step_for((Command::Lock { lazy }), secrets, facts) == succeed((Reply::Locked { lazy: false })),
{
}

/// When a plain unmount fails (an application holds the mount busy), the
/// lock detaches the mount lazily and reports a lazy lock; a lazy unmount that
/// fails is reported as it is.
pub proof fn lemma_lock_falls_back_to_detach(secrets: Seq<Seq<char>>, facts: Facts)
    requires
        facts.initialized == Some(true),
        facts.mounted == Some(Ok::<bool, String>(true)),
        facts.unmounted is Some,
        facts.unmounted->0 is Err,
    ensures
        facts.detached is None ==> step_for((Command::Lock { lazy: false }), secrets, facts)
            == Action::<Seq<char>>::Detach,
        facts.detached == Some(Ok::<(), String>(())) ==> step_for(
            (Command::Lock { lazy: false }),
            secrets,
            facts,
        ) == succeed((Reply::Locked { lazy: true })),
        step_for((Command::Lock { lazy: true }), secrets, facts) == fail(
            facts.unmounted->0->Err_0@,
        ),
{
}

/// Fail closed: when the mount table cannot be read, status, unlocking,
/// locking and restoring end with that error rather than taking the vault
/// for locked.
pub proof fn lemma_unreadable_mount_table_fails(command: Command, secrets: Seq<Seq<char>>, facts: Facts)
    requires
        command is Status || command is Unlock || command is Lock || command is Restore,
        facts.initialized == Some(true),
        facts.mounted is Some,
        facts.mounted->0 is Err,
    ensures
        step_for(command, secrets, facts) == fail(facts.mounted->0->Err_0@),
{
}

/// Restoring into a vault that is not mounted is refused.
pub proof fn lemma_restore_needs_mounted_vault(secrets: Seq<Seq<char>>, facts: Facts)
    requires
        facts.initialized == Some(true),
        facts.mounted == Some(Ok::<bool, String>(false)),
    ensures
        step_for(Command::Restore, secrets, facts) == fail("vault is locked"@),
{
}

/// Unlocking hands gocryptfs the first secret read, and mounts with the
/// recovery key exactly when the command asked for the recovery key: a
/// passphrase is never passed as a master key, nor a master key as a
/// passphrase.
pub proof fn lemma_unlock_mounts_with_the_secret_it_read(
    recovery_key: bool,
    secrets: Seq<Seq<char>>,
    facts: Facts,
)
    ensures
        step_for((Command::Unlock { recovery_key }), secrets, facts) is Mount ==> {
            let step = step_for((Command::Unlock { recovery_key }), secrets, facts);
            &&& secrets.len() >= 1
            &&& step->Mount_secret == secrets[0]
            &&& step->Mount_recovery_key == recovery_key
        },
{
}

/// Only an unlock asks for a mount, and the mount it asks for keeps the
/// command's choice between passphrase and recovery key.
pub proof fn lemma_mount_only_for_unlock(command: Command, secrets: Seq<Seq<char>>, facts: Facts)
    ensures
        step_for(command, secrets, facts) is Mount ==> command is Unlock
            && step_for(command, secrets, facts)->Mount_recovery_key == command->Unlock_recovery_key,
{
}

/// Changing the passphrase hands gocryptfs the first secret read as the
/// master key (the recovery key) and the second as the new passphrase, in
/// the order the labels of the command name them.
pub proof fn lemma_change_passphrase_uses_secrets_in_order(secrets: Seq<Seq<char>>, facts: Facts)
    ensures
        step_for(Command::SetPassphrase, secrets, facts) is ChangePassphrase ==> {
            let step = step_for(Command::SetPassphrase, secrets, facts);
            &&& secrets.len() >= 2
            &&& step->ChangePassphrase_master_key == secrets[0]
            &&& step->ChangePassphrase_passphrase == secrets[1]
            &&& labels_for(Command::SetPassphrase) == seq!["recovery key"@, "passphrase"@]
        },
{
}

/// Creating the vault hands gocryptfs the one secret read, the passphrase.
pub proof fn lemma_create_uses_the_passphrase_read(command: Command, secrets: Seq<Seq<char>>, facts: Facts)
    ensures
        step_for(command, secrets, facts) is CreateVault ==> command is Init && secrets.len() >= 1
            && step_for(command, secrets, facts)->CreateVault_passphrase == secrets[0],
{
}

/// The status reports the vault as unlocked exactly when it was created and
/// found mounted, and as initialized exactly when it was found created; the
/// limit on recent files is the one asked for.
pub proof fn lemma_status_reports_what_was_found(limit: usize, secrets: Seq<Seq<char>>, facts: Facts)
    ensures
        step_for((Command::Status { limit }), secrets, facts) is ReportStatus ==> {
            let step = step_for((Command::Status { limit }), secrets, facts);
            &&& step->ReportStatus_initialized == (facts.initialized == Some(true))
            &&& step->ReportStatus_unlocked == (facts.initialized == Some(true)
                && facts.mounted == Some(Ok::<bool, String>(true)))
            &&& step->ReportStatus_limit == limit
        },
        facts.initialized == Some(true) && facts.mounted is Some && facts.mounted->0 is Ok
            ==> step_for((Command::Status { limit }), secrets, facts) == (Action::<Seq<char>>::ReportStatus {
                initialized: true,
                unlocked: facts.mounted->0->Ok_0,
                limit,
            }),
{
}

/// Discarding recovered entries does not depend on whether the vault is
/// mounted: once the vault is known to exist it deletes them, in the locked
/// state and in the unlocked one alike, and reports how many went.
pub proof fn lemma_discard_ignores_mount_state(secrets: Seq<Seq<char>>, facts: Facts, other: Facts)
    requires
        other.initialized == facts.initialized,
        other.discarded == facts.discarded,
    ensures
        step_for(Command::Discard, secrets, facts) == step_for(Command::Discard, secrets, other),
        facts.initialized == Some(true) && facts.discarded is None ==> step_for(
            Command::Discard,
            secrets,
            facts,
        ) == Action::<Seq<char>>::DiscardRecovered,
        facts.initialized == Some(true) && facts.discarded is Some && facts.discarded->0 is Ok
            ==> step_for(Command::Discard, secrets, facts) == succeed(
            (Reply::Discarded { count: facts.discarded->0->Ok_0 }),
        ),
{
}

} // verus!
