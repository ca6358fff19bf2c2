//! Restoring an installation from a backup, without a configuration.

use vstd::prelude::*;
use crate::config::RestoreConfigTargets;
use crate::db::moments;
use crate::db::types::Moment;
use crate::paths;
use crate::text;

verus! {

/// A file that a backup holds.
#[derive(Debug, PartialEq, Eq)]
pub struct BackupManagedFile {
    pub filename: String,
    pub original_path: String,
}

/// A database that a backup holds.
#[derive(Debug, PartialEq, Eq)]
pub struct BackupDatabaseSnapshot {
    pub filename: String,
    pub size_bytes: u64,
}

/// The configuration and the secrets that a backup holds.
#[derive(Debug, PartialEq, Eq)]
pub struct BackupAppState {
    pub config_snapshot: Option<BackupManagedFile>,
    pub secret_snapshots: Vec<BackupManagedFile>,
}

/// Why a backup was made.
#[derive(Debug, PartialEq, Eq)]
pub enum BackupType {
    Scheduled,
    Safety { operation: String },
}

/// What a backup says of itself.
#[derive(Debug, PartialEq, Eq)]
pub struct BackupManifest {
    pub label: String,
    /// When it was made.
    pub timestamp: Moment,
    pub backup_type: BackupType,
    pub total_count: usize,
    pub database_snapshot: Option<BackupDatabaseSnapshot>,
    pub app_state: Option<BackupAppState>,
}

// ---------------------------------------------------------------------------
// Where things go

/// Where the database goes where the configuration does not say.
pub fn default_db_restore_target(config_dir: &str) -> (out: String)
    ensures
        out@ == paths::joined(config_dir@, "symlinkarr.db"@),
{
    paths::join(config_dir, "symlinkarr.db")
}

/// The directories below which secrets may be restored: that of the configuration,
/// and beside one named `config` the one named `secrets`.
pub open spec fn secret_roots(config_dir: Seq<char>) -> Seq<Seq<char>> {
    if paths::file_name(config_dir) == Some("config"@) && paths::parent(config_dir) is Some {
        seq![config_dir, paths::joined(paths::parent(config_dir)->0, "secrets"@)]
    } else {
        seq![config_dir]
    }
}

/// The directories below which secrets may be restored.
pub fn allowed_secret_restore_roots(config_dir: &str) -> (roots: Vec<String>)
    ensures
        text::views(roots@) == secret_roots(config_dir@),
{
    let mut roots: Vec<String> = Vec::new();
    text::push_text(&mut roots, config_dir.to_owned());
    match paths::file_name_of(config_dir) {
        Some(name) => {
            if text::text_eq(name.as_str(), "config") {
                match paths::parent_of(config_dir) {
                    Some(parent) => {
                        text::push_text(&mut roots, paths::join(parent.as_str(), "secrets"));
                    },
                    None => {},
                }
            }
        },
        None => {},
    }
    assert(text::views(roots@) =~= secret_roots(config_dir@));
    roots
}

/// Whether a secret may be restored to a path.
pub open spec fn may_hold_secret(config_dir: Seq<char>, target: Seq<char>) -> bool {
    paths::under_any(target, secret_roots(config_dir))
}

/// Whether a secret may be restored to a path: it lies below one of the roots, also
/// once `..` is taken into account.
pub fn secret_restore_target_allowed(config_dir: &str, target: &str) -> (b: bool)
    ensures
        b == may_hold_secret(config_dir@, target@),
{
    paths::path_under_roots(target, &allowed_secret_restore_roots(config_dir))
}

/// What is known of the places where a configuration may be.
#[derive(Debug, PartialEq, Eq)]
pub struct ConfigDirFacts {
    /// Whether `/app/config` has a `config.yaml`.
    pub app_has_config: bool,
    /// Whether the current directory has a `config.yaml`.
    pub here_has_config: bool,
    /// Whether `/app/config` is a directory.
    pub app_is_dir: bool,
    /// The current directory, where it is known.
    pub current_dir: Option<String>,
}

/// The directory that is restored to: the one that was asked for, else where a
/// configuration is, else `/app/config` where that is there, else the current one.
pub fn choose_config_dir(target: Option<&str>, facts: &ConfigDirFacts) -> (out: String)
    ensures
        out@ == (match target {
            Some(t) => t@,
            None => if facts.app_has_config {
                "/app/config"@
            } else if facts.here_has_config {
                "."@
            } else if facts.app_is_dir {
                "/app/config"@
            } else {
                match facts.current_dir {
                    Some(d) => d@,
                    None => "."@,
                }
            },
        }),
{
    match target {
        Some(t) => t.to_owned(),
        None => if facts.app_has_config {
            "/app/config".to_owned()
        } else if facts.here_has_config {
            ".".to_owned()
        } else if facts.app_is_dir {
            "/app/config".to_owned()
        } else {
            match &facts.current_dir {
                Some(d) => d.clone(),
                None => ".".to_owned(),
            }
        },
    }
}

// ---------------------------------------------------------------------------
// What is decided

/// What is done about the configuration.
#[derive(Debug, PartialEq, Eq)]
pub enum ConfigDecision {
    /// The backup has none.
    NoSnapshot,
    /// There is one already, which stays.
    AlreadyThere,
    /// The file of that name is copied.
    Copy(String),
}

/// What is done about the configuration: it is restored where there is none.
pub open spec fn config_decided(manifest: BackupManifest, config_exists: bool) -> ConfigDecision {
    match manifest.app_state {
        Some(state) => match state.config_snapshot {
            Some(snapshot) => if config_exists {
                ConfigDecision::AlreadyThere
            } else {
                ConfigDecision::Copy(snapshot.filename)
            },
            None => ConfigDecision::NoSnapshot,
        },
        None => ConfigDecision::NoSnapshot,
    }
}

/// What is done about the configuration.
pub fn decide_config(manifest: &BackupManifest, config_exists: bool) -> (out: ConfigDecision)
    ensures
        out == config_decided(*manifest, config_exists),
{
    match &manifest.app_state {
        Some(state) => match &state.config_snapshot {
            Some(snapshot) => if config_exists {
                ConfigDecision::AlreadyThere
            } else {
                ConfigDecision::Copy(snapshot.filename.clone())
            },
            None => ConfigDecision::NoSnapshot,
        },
        None => ConfigDecision::NoSnapshot,
    }
}

/// What is done about a secret.
#[derive(Debug, PartialEq, Eq)]
pub enum SecretDecision {
    /// The configuration names no file for it.
    NoTarget,
    /// The configuration names a file that is out of bounds.
    OutOfBounds(String),
    /// There is one already, which stays.
    AlreadyThere(String),
    /// It is copied there.
    Copy(String),
}

/// What is done about the secret at `index`: it goes to the file that the restored
/// configuration names at the same place, where that is in bounds and not there yet.
pub open spec fn secret_decided(
    config_dir: Seq<char>,
    targets: Seq<String>,
    index: int,
    exists: bool,
) -> SecretDecision {
    if index >= targets.len() {
        SecretDecision::NoTarget
    } else if !may_hold_secret(config_dir, targets[index]@) {
        SecretDecision::OutOfBounds(targets[index])
    } else if exists {
        SecretDecision::AlreadyThere(targets[index])
    } else {
        SecretDecision::Copy(targets[index])
    }
}

/// What is done about the secret at `index`. `exists` tells whether the file that the
/// configuration names for it is there.
pub fn decide_secret(config_dir: &str, targets: &Vec<String>, index: usize, exists: bool) -> (out:
    SecretDecision)
    ensures
        out == secret_decided(config_dir@, targets@, index as int, exists),
{
    if index >= targets.len() {
        return SecretDecision::NoTarget;
    }
    let target = targets[index].clone();
    if !secret_restore_target_allowed(config_dir, target.as_str()) {
        SecretDecision::OutOfBounds(target)
    } else if exists {
        SecretDecision::AlreadyThere(target)
    } else {
        SecretDecision::Copy(target)
    }
}

/// A secret is written only within bounds, and never over a file.
pub proof fn lemma_secrets_stay_in_bounds(
    config_dir: Seq<char>,
    targets: Seq<String>,
    index: int,
    exists: bool,
)
    ensures
        secret_decided(config_dir, targets, index, exists) matches SecretDecision::Copy(target)
            ==> may_hold_secret(config_dir, target@) && !exists,
{
}

/// Where the database goes: where the restored configuration says, else beside it.
pub fn db_restore_target(targets: &Option<RestoreConfigTargets>, config_dir: &str) -> (out: String)
    ensures
        out@ == (match *targets {
            Some(t) => t.db_path@,
            None => paths::joined(config_dir@, "symlinkarr.db"@),
        }),
{
    match targets {
        Some(t) => t.db_path.clone(),
        None => default_db_restore_target(config_dir),
    }
}

/// What is done about the database.
#[derive(Debug, PartialEq, Eq)]
pub enum DatabaseDecision {
    /// The backup has none.
    NoSnapshot,
    /// There is one already, which stays.
    AlreadyThere(String),
    /// The file `filename` is copied to `to`.
    Copy { filename: String, to: String },
}

/// What is done about the database: it is restored where there is none.
pub open spec fn database_decided(
    manifest: BackupManifest,
    target: String,
    exists: bool,
) -> DatabaseDecision {
    match manifest.database_snapshot {
        None => DatabaseDecision::NoSnapshot,
        Some(snapshot) => if exists {
            DatabaseDecision::AlreadyThere(target)
        } else {
            DatabaseDecision::Copy { filename: snapshot.filename, to: target }
        },
    }
}

/// What is done about the database.
pub fn decide_database(manifest: &BackupManifest, target: String, exists: bool) -> (out:
    DatabaseDecision)
    ensures
        out == database_decided(*manifest, target, exists),
{
    match &manifest.database_snapshot {
        None => DatabaseDecision::NoSnapshot,
        Some(snapshot) => if exists {
            DatabaseDecision::AlreadyThere(target)
        } else {
            DatabaseDecision::Copy { filename: snapshot.filename.clone(), to: target }
        },
    }
}

/// Whether a backup has anything to restore without a configuration.
pub fn has_app_state(manifest: &BackupManifest) -> (b: bool)
    ensures
        b == (manifest.app_state is Some || manifest.database_snapshot is Some),
{
    manifest.app_state.is_some() || manifest.database_snapshot.is_some()
}

/// What a restore did.
#[derive(Debug, PartialEq, Eq)]
pub struct StandaloneRestoreResult {
    pub config_snapshot_restored: Option<String>,
    pub config_already_existed: bool,
    pub db_snapshot_restored: Option<String>,
    pub db_already_existed: bool,
    pub secrets_restored: usize,
    pub secrets_skipped: usize,
}

/// The number of secrets that were copied.
pub open spec fn copied_secrets(decisions: Seq<SecretDecision>) -> nat
    decreases decisions.len(),
{
    if decisions.len() == 0 {
        0
    } else {
        copied_secrets(decisions.drop_last()) + if decisions.last() is Copy {
            1nat
        } else {
            0nat
        }
    }
}

/// What a restore did, from what was decided and done.
pub fn restore_app_state_standalone(
    config_dir: &str,
    config: &ConfigDecision,
    secrets: &Vec<SecretDecision>,
    database: &DatabaseDecision,
) -> (out: StandaloneRestoreResult)
    ensures
        text::opt(out.config_snapshot_restored) == (if config is Copy {
            Some(paths::joined(config_dir@, "config.yaml"@))
        } else {
            None
        }),
        out.config_already_existed == (config is AlreadyThere),
        text::opt(out.db_snapshot_restored) == (match *database {
            DatabaseDecision::Copy { filename, to } => Some(to@),
            _ => None,
        }),
        out.db_already_existed == (database is AlreadyThere),
        out.secrets_restored == copied_secrets(secrets@),
        out.secrets_skipped == secrets@.len() - copied_secrets(secrets@),
{
    let config_snapshot_restored = match config {
        ConfigDecision::Copy(_) => Some(paths::join(config_dir, "config.yaml")),
        _ => None,
    };
    let config_already_existed = matches!(config, ConfigDecision::AlreadyThere);
    let (db_snapshot_restored, db_already_existed) = match database {
        DatabaseDecision::Copy { filename: _, to } => (Some(to.clone()), false),
        DatabaseDecision::AlreadyThere(_) => (None, true),
        DatabaseDecision::NoSnapshot => (None, false),
    };
    let mut restored: usize = 0;
    let mut i: usize = 0;
    assert(secrets@.take(0) =~= Seq::<SecretDecision>::empty());
    while i < secrets.len()
        invariant
            i <= secrets@.len(),
            restored <= i,
            restored == copied_secrets(secrets@.take(i as int)),
        decreases secrets@.len() - i,
    {
        assert(secrets@.take(i + 1).drop_last() =~= secrets@.take(i as int));
        match &secrets[i] {
            SecretDecision::Copy(_) => {
                restored += 1;
            },
            _ => {},
        }
        i += 1;
    }
    assert(secrets@.take(i as int) =~= secrets@);
    StandaloneRestoreResult {
        config_snapshot_restored,
        config_already_existed,
        db_snapshot_restored,
        db_already_existed,
        secrets_restored: restored,
        secrets_skipped: secrets.len() - restored,
    }
}

/// What is known of the files that a restore may write, each looked at before it would be
/// written.
#[verifier::ext_equal]
pub struct RestoreFacts {
    pub config_exists: bool,
    /// The files that the configuration names for the secrets.
    pub targets: Seq<String>,
    pub secret_exists: Seq<bool>,
    pub database_target: String,
    pub database_exists: bool,
}

/// The number of secrets that a backup holds.
pub open spec fn secret_count(manifest: BackupManifest) -> nat {
    match manifest.app_state {
        Some(state) => state.secret_snapshots@.len(),
        None => 0,
    }
}

/// Whether these are all the decisions of a restore.
pub open spec fn all_decided(
    manifest: BackupManifest,
    config_dir: Seq<char>,
    facts: RestoreFacts,
    config: ConfigDecision,
    secrets: Seq<SecretDecision>,
    database: DatabaseDecision,
) -> bool {
    &&& config == config_decided(manifest, facts.config_exists)
    &&& secrets.len() == secret_count(manifest) == facts.secret_exists.len()
    &&& forall|i: int|
        0 <= i < secrets.len() ==> #[trigger] secrets[i] == secret_decided(
            config_dir,
            facts.targets,
            i,
            facts.secret_exists[i],
        )
    &&& database == database_decided(manifest, facts.database_target, facts.database_exists)
}

/// A restore as a whole is safe: nothing that exists is written over, each secret goes
/// only to the file that the configuration names at its place, which lies within bounds,
/// and the database only to its own.
pub proof fn lemma_restore_is_safe(
    manifest: BackupManifest,
    config_dir: Seq<char>,
    facts: RestoreFacts,
    config: ConfigDecision,
    secrets: Seq<SecretDecision>,
    database: DatabaseDecision,
)
    requires
        all_decided(manifest, config_dir, facts, config, secrets, database),
    ensures
        config is Copy ==> !facts.config_exists,
        forall|i: int|
            0 <= i < secrets.len() && (#[trigger] secrets[i]) is Copy ==> {
                &&& i < facts.targets.len()
                &&& secrets[i] == SecretDecision::Copy(facts.targets[i])
                &&& may_hold_secret(config_dir, facts.targets[i]@)
                &&& !facts.secret_exists[i]
            },
        database is Copy ==> !facts.database_exists && database->to == facts.database_target,
{
}

/// How an automatic restore begins.
#[derive(Debug, PartialEq, Eq)]
pub struct AutoRestore {
    pub config_dir: String,
    pub config: ConfigDecision,
}

/// How an automatic restore begins: in the directory of the configuration, with the
/// configuration where there is none. `None` where the backup has neither a
/// configuration nor secrets.
pub fn restore_app_state_auto(manifest: &BackupManifest, config_path: &str, config_exists: bool) -> (out:
    Option<AutoRestore>)
    ensures
        match out {
            None => manifest.app_state is None,
            Some(start) => manifest.app_state is Some && start.config_dir@ == (match paths::parent(
                config_path@,
            ) {
                Some(dir) => dir,
                None => "."@,
            }) && start.config == config_decided(*manifest, config_exists),
        },
{
    if manifest.app_state.is_none() {
        return None;
    }
    let config_dir = match paths::parent_of(config_path) {
        Some(dir) => dir,
        None => ".".to_owned(),
    };
    Some(AutoRestore { config_dir, config: decide_config(manifest, config_exists) })
}

// ---------------------------------------------------------------------------
// How a restore runs

/// What a restore is asked to do.
#[derive(Debug, Clone, Copy, PartialEq, Eq, Structural)]
pub enum RestoreMode {
    /// To list what the backup holds.
    List,
    /// To tell what it would do.
    DryRun,
    /// To restore.
    Restore,
}

/// Whether a restore may write anything: it is asked to, and the backup holds something
/// that can be restored without a configuration.
pub fn may_write(mode: RestoreMode, manifest: &BackupManifest) -> (b: bool)
    ensures
        b == (mode == RestoreMode::Restore && (manifest.app_state is Some
            || manifest.database_snapshot is Some)),
{
    match mode {
        RestoreMode::Restore => has_app_state(manifest),
        _ => false,
    }
}

/// What a restore from a backup file is asked to do, and the directory of the file; an
/// error where there is no such file, or it has no directory. A list goes before a dry
/// run, and neither restores.
pub fn run_standalone_restore(
    backup_path: &str,
    exists: bool,
    dry_run: bool,
    list_only: bool,
) -> (out: Result<(RestoreMode, String), String>)
    ensures
        match out {
            Ok((mode, dir)) => {
                &&& exists
                &&& paths::parent(backup_path@) == Some(dir@)
                &&& mode == (if list_only {
                    RestoreMode::List
                } else if dry_run {
                    RestoreMode::DryRun
                } else {
                    RestoreMode::Restore
                })
            },
            Err(message) => if !exists {
                message@ == "Backup file not found: "@ + backup_path@
            } else {
                paths::parent(backup_path@) is None && message@
                    == "Backup file has no parent directory"@
            },
        },
{
    if !exists {
        return Err(text::concat2("Backup file not found: ", backup_path));
    }
    let dir = match paths::parent_of(backup_path) {
        Some(dir) => dir,
        None => {
            return Err("Backup file has no parent directory".to_owned());
        },
    };
    let mode = if list_only {
        RestoreMode::List
    } else if dry_run {
        RestoreMode::DryRun
    } else {
        RestoreMode::Restore
    };
    Ok((mode, dir))
}

// ---------------------------------------------------------------------------
// What is shown

/// When a backup was made, as it is shown; `None` where that cannot be written.
pub fn created_text(manifest: &BackupManifest) -> (out: Option<String>)
    ensures
        match out {
            Some(t) => moments::formatting(manifest.timestamp, "%Y-%m-%d %H:%M:%S"@) == Some(t@),
            None => moments::formatting(manifest.timestamp, "%Y-%m-%d %H:%M:%S"@) is None,
        },
        moments::has_plain_year(manifest.timestamp) ==> out is Some,
{
    moments::write_formatted(manifest.timestamp, "%Y-%m-%d %H:%M:%S")
}

/// The kind of a backup, as it is shown.
pub open spec fn backup_kind(backup_type: BackupType) -> Seq<char> {
    match backup_type {
        BackupType::Scheduled => "Scheduled"@,
        BackupType::Safety { operation } => "Safety ("@ + operation@ + ")"@,
    }
}

fn backup_kind_text(backup_type: &BackupType) -> (out: String)
    ensures
        out@ == backup_kind(*backup_type),
{
    match backup_type {
        BackupType::Scheduled => "Scheduled".to_owned(),
        BackupType::Safety { operation } => text::concat3("Safety (", operation.as_str(), ")"),
    }
}

/// The line on the database in the list of what a backup holds.
pub open spec fn listed_database(manifest: BackupManifest) -> Seq<Seq<char>> {
    match manifest.database_snapshot {
        Some(s) => seq![
            "   🗄️  SQLite snapshot: "@ + s.filename@ + " ("@ + text::decimal(s.size_bytes as nat)
                + " bytes)"@,
        ],
        None => Seq::<Seq<char>>::empty(),
    }
}

/// The lines on the configuration and the secrets in the list of what a backup holds.
pub open spec fn listed_app_state(manifest: BackupManifest) -> Seq<Seq<char>> {
    match manifest.app_state {
        Some(state) => text::when(
            state.config_snapshot is Some,
            "   ⚙️  Config snapshot: yes"@,
        ) + text::when(
            state.secret_snapshots@.len() > 0,
            "   🔐 Secret snapshots: "@ + text::decimal(state.secret_snapshots@.len()),
        ),
        None => Seq::<Seq<char>>::empty(),
    }
}

/// The lines that list what a backup holds.
pub open spec fn list_text(manifest: BackupManifest, created: Seq<char>) -> Seq<Seq<char>> {
    seq![
        "📦 "@ + manifest.label@ + "\n"@,
        "   Created:  "@ + created,
        "   Symlinks: "@ + text::decimal(manifest.total_count as nat),
        "   Type:     "@ + backup_kind(manifest.backup_type),
    ] + listed_database(manifest) + listed_app_state(manifest)
}

/// The lines that list what a backup holds.
pub fn list_lines(manifest: &BackupManifest, created: &str) -> (lines: Vec<String>)
    ensures
        text::views(lines@) == list_text(*manifest, created@),
{
    let mut lines: Vec<String> = Vec::new();
    text::push_text(&mut lines, text::concat3("📦 ", manifest.label.as_str(), "\n"));
    text::push_text(&mut lines, text::concat2("   Created:  ", created));
    text::push_text(
        &mut lines,
        text::concat2(
            "   Symlinks: ",
            text::decimal_text(manifest.total_count as u64).as_str(),
        ),
    );
    text::push_text(
        &mut lines,
        text::concat2("   Type:     ", backup_kind_text(&manifest.backup_type).as_str()),
    );
    let ghost head = text::views(lines@);
    assert(head =~= seq![
        "📦 "@ + manifest.label@ + "\n"@,
        "   Created:  "@ + created@,
        "   Symlinks: "@ + text::decimal(manifest.total_count as nat),
        "   Type:     "@ + backup_kind(manifest.backup_type),
    ]);
    match &manifest.database_snapshot {
        Some(s) => {
            text::push_text(
                &mut lines,
                text::concat5(
                    "   🗄️  SQLite snapshot: ",
                    s.filename.as_str(),
                    " (",
                    text::decimal_text(s.size_bytes).as_str(),
                    " bytes)",
                ),
            );
        },
        None => {},
    }
    let ghost middle = head + listed_database(*manifest);
    assert(text::views(lines@) =~= middle);
    match &manifest.app_state {
        Some(state) => {
            text::note_when(
                &mut lines,
                state.config_snapshot.is_some(),
                "   ⚙️  Config snapshot: yes",
            );
            let count = text::concat2(
                "   🔐 Secret snapshots: ",
                text::decimal_text(state.secret_snapshots.len() as u64).as_str(),
            );
            text::note_when(&mut lines, state.secret_snapshots.len() > 0, count.as_str());
        },
        None => {},
    }
    assert(text::views(lines@) =~= middle + listed_app_state(*manifest));
    lines
}

/// The line on a secret in a dry run.
pub open spec fn planned_secret(secret: BackupManagedFile) -> Seq<char> {
    "   Would restore secret: "@ + secret.filename@ + " → "@ + secret.original_path@
}

/// The lines on the configuration and the secrets in a dry run.
pub open spec fn planned_app_state(manifest: BackupManifest) -> Seq<Seq<char>> {
    match manifest.app_state {
        Some(state) => text::when(
            state.config_snapshot is Some,
            "   Would restore config: config.yaml"@,
        ) + state.secret_snapshots@.map_values(|s: BackupManagedFile| planned_secret(s)),
        None => Seq::<Seq<char>>::empty(),
    }
}

/// The line on the database in a dry run.
pub open spec fn planned_database(manifest: BackupManifest) -> Seq<Seq<char>> {
    match manifest.database_snapshot {
        Some(s) => seq!["   Would restore database: "@ + s.filename@],
        None => Seq::<Seq<char>>::empty(),
    }
}

/// The lines of a dry run.
pub open spec fn dry_run_text(
    manifest: BackupManifest,
    created: Seq<char>,
    config_dir: Seq<char>,
) -> Seq<Seq<char>> {
    seq![
        "📋 Backup: "@ + manifest.label@,
        "   Created: "@ + created,
        "   Symlinks: "@ + text::decimal(manifest.total_count as nat),
        "\n🔍 Dry run — no files will be written."@,
        "   Would restore app state to: "@ + config_dir,
    ] + planned_database(manifest) + planned_app_state(manifest)
}

/// The lines of a dry run.
pub fn dry_run_lines(manifest: &BackupManifest, created: &str, config_dir: &str) -> (lines: Vec<
    String,
>)
    ensures
        text::views(lines@) == dry_run_text(*manifest, created@, config_dir@),
{
    let mut lines: Vec<String> = Vec::new();
    text::push_text(&mut lines, text::concat2("📋 Backup: ", manifest.label.as_str()));
    text::push_text(&mut lines, text::concat2("   Created: ", created));
    text::push_text(
        &mut lines,
        text::concat2(
            "   Symlinks: ",
            text::decimal_text(manifest.total_count as u64).as_str(),
        ),
    );
    text::push_text(&mut lines, "\n🔍 Dry run — no files will be written.".to_owned());
    text::push_text(&mut lines, text::concat2("   Would restore app state to: ", config_dir));
    let ghost head = text::views(lines@);
    assert(head =~= seq![
        "📋 Backup: "@ + manifest.label@,
        "   Created: "@ + created@,
        "   Symlinks: "@ + text::decimal(manifest.total_count as nat),
        "\n🔍 Dry run — no files will be written."@,
        "   Would restore app state to: "@ + config_dir@,
    ]);
    match &manifest.database_snapshot {
        Some(s) => {
            text::push_text(
                &mut lines,
                text::concat2("   Would restore database: ", s.filename.as_str()),
            );
        },
        None => {},
    }
    let ghost middle = head + planned_database(*manifest);
    assert(text::views(lines@) =~= middle);
    match &manifest.app_state {
        Some(state) => {
            text::note_when(
                &mut lines,
                state.config_snapshot.is_some(),
                "   Would restore config: config.yaml",
            );
            let ghost begun = text::views(lines@);
            let ghost wanted = state.secret_snapshots@.map_values(
                |s: BackupManagedFile| planned_secret(s),
            );
            let mut i: usize = 0;
            assert(begun + wanted.take(0) =~= begun);
            while i < state.secret_snapshots.len()
                invariant
                    i <= state.secret_snapshots@.len(),
                    wanted == state.secret_snapshots@.map_values(
                        |s: BackupManagedFile| planned_secret(s),
                    ),
                    text::views(lines@) == begun + wanted.take(i as int),
                decreases state.secret_snapshots@.len() - i,
            {
                let secret = &state.secret_snapshots[i];
                text::push_text(
                    &mut lines,
                    text::concat4(
                        "   Would restore secret: ",
                        secret.filename.as_str(),
                        " → ",
                        secret.original_path.as_str(),
                    ),
                );
                assert(text::views(lines@) =~= begun + wanted.take(i + 1));
                i += 1;
            }
            assert(wanted.take(i as int) =~= wanted);
            assert(text::views(lines@) =~= middle + planned_app_state(*manifest));
        },
        None => {
            assert(text::views(lines@) =~= middle + planned_app_state(*manifest));
        },
    }
    lines
}

/// The line on a secret.
pub open spec fn secret_text(
    decision: SecretDecision,
    filename: Seq<char>,
    config_path: Seq<char>,
) -> Seq<char> {
    match decision {
        SecretDecision::NoTarget => "   ⏭️  Secret "@ + filename
            + " skipped: no matching secretfile target in "@ + config_path,
        SecretDecision::OutOfBounds(target) => "   ⏭️  Secret "@ + filename + " skipped: target "@
            + target@ + " is outside allowed config roots"@,
        SecretDecision::AlreadyThere(target) => "   ⏭️  Secret already exists at "@ + target@
            + ", skipping"@,
        SecretDecision::Copy(target) => "   🔐 Secret restored to "@ + target@,
    }
}

/// The line on a secret.
pub fn secret_line(decision: &SecretDecision, filename: &str, config_path: &str) -> (out: String)
    ensures
        out@ == secret_text(*decision, filename@, config_path@),
{
    match decision {
        SecretDecision::NoTarget => text::concat4(
            "   ⏭️  Secret ",
            filename,
            " skipped: no matching secretfile target in ",
            config_path,
        ),
        SecretDecision::OutOfBounds(target) => text::concat5(
            "   ⏭️  Secret ",
            filename,
            " skipped: target ",
            target.as_str(),
            " is outside allowed config roots",
        ),
        SecretDecision::AlreadyThere(target) => text::concat3(
            "   ⏭️  Secret already exists at ",
            target.as_str(),
            ", skipping",
        ),
        SecretDecision::Copy(target) => text::concat2(
            "   🔐 Secret restored to ",
            target.as_str(),
        ),
    }
}

/// The line on the configuration in the summary of a restore.
pub open spec fn config_summary(result: StandaloneRestoreResult) -> Seq<char> {
    match result.config_snapshot_restored {
        Some(path) => "   ⚙️  Config restored: "@ + path@,
        None => if result.config_already_existed {
            "   ⏭️  Config already exists, skipped"@
        } else {
            "   ℹ️  No config snapshot in backup"@
        },
    }
}

/// The line on the database in the summary of a restore.
pub open spec fn database_summary(result: StandaloneRestoreResult) -> Seq<Seq<char>> {
    match result.db_snapshot_restored {
        Some(path) => seq!["   🗄️  Database restored: "@ + path@],
        None => text::when(
            result.db_already_existed,
            "   ⏭️  Database already exists, skipped"@,
        ),
    }
}

/// The lines on the secrets in the summary of a restore.
pub open spec fn secrets_summary(result: StandaloneRestoreResult) -> Seq<Seq<char>> {
    text::when(
        result.secrets_restored > 0,
        "   🔐 Secrets restored: "@ + text::decimal(result.secrets_restored as nat),
    ) + text::when(
        result.secrets_skipped > 0,
        "   ⏭️  Secrets skipped (already exist): "@ + text::decimal(
            result.secrets_skipped as nat,
        ),
    )
}

/// What to do next.
pub open spec fn next_steps() -> Seq<Seq<char>> {
    seq![
        "\n💡 Next steps:"@,
        "   1. Edit the restored config.yaml to match your environment"@,
        "   2. Add any env-based secrets (environment variables) manually"@,
        "   3. Run `symlinkarr scan` or `symlinkarr daemon` to start"@,
    ]
}

/// The summary of a restore.
pub fn summary_lines(result: &StandaloneRestoreResult) -> (lines: Vec<String>)
    ensures
        text::views(lines@) == seq!["\n📋 Restore Summary:"@, config_summary(*result)]
            + database_summary(*result) + secrets_summary(*result) + next_steps(),
{
    let mut lines: Vec<String> = Vec::new();
    text::push_text(&mut lines, "\n📋 Restore Summary:".to_owned());
    let config_line = match &result.config_snapshot_restored {
        Some(path) => text::concat2("   ⚙️  Config restored: ", path.as_str()),
        None => if result.config_already_existed {
            "   ⏭️  Config already exists, skipped".to_owned()
        } else {
            "   ℹ️  No config snapshot in backup".to_owned()
        },
    };
    text::push_text(&mut lines, config_line);
    let ghost head = text::views(lines@);
    assert(head =~= seq!["\n📋 Restore Summary:"@, config_summary(*result)]);
    match &result.db_snapshot_restored {
        Some(path) => {
            text::push_text(
                &mut lines,
                text::concat2("   🗄️  Database restored: ", path.as_str()),
            );
        },
        None => {
            text::note_when(
                &mut lines,
                result.db_already_existed,
                "   ⏭️  Database already exists, skipped",
            );
        },
    }
    let ghost middle = head + database_summary(*result);
    assert(text::views(lines@) =~= middle);
    let restored = text::concat2(
        "   🔐 Secrets restored: ",
        text::decimal_text(result.secrets_restored as u64).as_str(),
    );
    text::note_when(&mut lines, result.secrets_restored > 0, restored.as_str());
    let skipped = text::concat2(
        "   ⏭️  Secrets skipped (already exist): ",
        text::decimal_text(result.secrets_skipped as u64).as_str(),
    );
    text::note_when(&mut lines, result.secrets_skipped > 0, skipped.as_str());
    let ghost almost = middle + secrets_summary(*result);
    assert(text::views(lines@) =~= almost);
    text::push_text(&mut lines, "\n💡 Next steps:".to_owned());
    text::push_text(
        &mut lines,
        "   1. Edit the restored config.yaml to match your environment".to_owned(),
    );
    text::push_text(
        &mut lines,
        "   2. Add any env-based secrets (environment variables) manually".to_owned(),
    );
    text::push_text(
        &mut lines,
        "   3. Run `symlinkarr scan` or `symlinkarr daemon` to start".to_owned(),
    );
    assert(text::views(lines@) =~= almost + next_steps());
    lines
}

/// What to say of a backup that has nothing to restore without a configuration.
pub fn nothing_to_restore_lines(manifest: &BackupManifest) -> (lines: Vec<String>)
    ensures
        text::views(lines@) == seq![
            "ℹ️  Backup contains no app state or database snapshot."@,
            "   To restore symlinks from this backup, run:"@,
            "   symlinkarr backup restore "@ + manifest.label@,
            "   (requires a running Symlinkarr with config.yaml)"@,
        ],
{
    let mut lines: Vec<String> = Vec::new();
    text::push_text(
        &mut lines,
        "ℹ️  Backup contains no app state or database snapshot.".to_owned(),
    );
    text::push_text(&mut lines, "   To restore symlinks from this backup, run:".to_owned());
    text::push_text(
        &mut lines,
        text::concat2("   symlinkarr backup restore ", manifest.label.as_str()),
    );
    text::push_text(&mut lines, "   (requires a running Symlinkarr with config.yaml)".to_owned());
    assert(text::views(lines@) =~= seq![
        "ℹ️  Backup contains no app state or database snapshot."@,
        "   To restore symlinks from this backup, run:"@,
        "   symlinkarr backup restore "@ + manifest.label@,
        "   (requires a running Symlinkarr with config.yaml)"@,
    ]);
    lines
}

// ---------------------------------------------------------------------------
// What is restored

/// What a backup holds is restored exactly where it is not there yet: the configuration and
/// the database by the files that the backup names, each to its own place; what is there
/// stays, and what the backup does not hold is left alone.
pub proof fn lemma_missing_files_are_restored(
    manifest: BackupManifest,
    exists: bool,
    target: String,
)
    ensures
        ({
            let decision = config_decided(manifest, exists);
            let held = manifest.app_state matches Some(state) && state.config_snapshot is Some;
            &&& decision is Copy <==> held && !exists
            &&& decision is AlreadyThere <==> held && exists
            &&& decision is NoSnapshot <==> !held
            &&& decision matches ConfigDecision::Copy(name) ==> name
                == manifest.app_state->0.config_snapshot->0.filename
        }),
        ({
            let decision = database_decided(manifest, target, exists);
            &&& decision is Copy <==> manifest.database_snapshot is Some && !exists
            &&& decision is AlreadyThere <==> manifest.database_snapshot is Some && exists
            &&& decision is NoSnapshot <==> manifest.database_snapshot is None
            &&& decision matches DatabaseDecision::Copy { filename, to } ==> filename
                == manifest.database_snapshot->0.filename && to == target
            &&& decision matches DatabaseDecision::AlreadyThere(to) ==> to == target
        }),
{
}

/// A secret is restored exactly where the configuration names a file at its place that is
/// in bounds and not there yet, and otherwise the first of these that fails is told.
pub proof fn lemma_missing_secrets_are_restored(
    config_dir: Seq<char>,
    targets: Seq<String>,
    index: int,
    exists: bool,
)
    requires
        0 <= index,
    ensures
        ({
            let decision = secret_decided(config_dir, targets, index, exists);
            let named = index < targets.len();
            let allowed = named && may_hold_secret(config_dir, targets[index]@);
            &&& decision is NoTarget <==> !named
            &&& decision == SecretDecision::OutOfBounds(targets[index]) <==> named && !allowed
            &&& decision == SecretDecision::AlreadyThere(targets[index]) <==> allowed && exists
            &&& decision == SecretDecision::Copy(targets[index]) <==> allowed && !exists
        }),
{
}

/// Secrets are in bounds exactly below the directory of the configuration, and, beside one
/// named `config`, below the one named `secrets`.
pub proof fn lemma_secret_bounds(config_dir: Seq<char>, target: Seq<char>)
    ensures
        may_hold_secret(config_dir, target) <==> paths::under(target, config_dir) || (
        paths::file_name(config_dir) == Some("config"@) && paths::parent(config_dir) is Some
            && paths::under(target, paths::joined(paths::parent(config_dir)->0, "secrets"@))),
{
    let roots = secret_roots(config_dir);
    if paths::under(target, config_dir) {
        assert(paths::under(target, roots[0]));
    }
    if paths::file_name(config_dir) == Some("config"@) && paths::parent(config_dir) is Some
        && paths::under(target, paths::joined(paths::parent(config_dir)->0, "secrets"@)) {
        assert(paths::under(target, roots[1]));
    }
    if may_hold_secret(config_dir, target) {
        let i = choose|i: int| 0 <= i < roots.len() && paths::under(target, #[trigger] roots[i]);
        assert(i == 0 || i == 1);
    }
}

/// A file in the directory of the configuration is in bounds, and the directory above it is
/// not, where that is told by names alone.
pub proof fn lemma_secrets_beside_the_configuration(config_dir: Seq<char>, name: Seq<char>)
    requires
        paths::is_name(name),
        name != ".."@,
    ensures
        may_hold_secret(config_dir, paths::joined(config_dir, name)),
{
    paths::lemma_under(config_dir, config_dir, name);
    lemma_secret_bounds(config_dir, paths::joined(config_dir, name));
}

/// One secret more is counted as restored exactly where it was copied.
pub proof fn lemma_one_secret_more(decisions: Seq<SecretDecision>, decision: SecretDecision)
    ensures
        copied_secrets(decisions.push(decision)) == copied_secrets(decisions) + (
        if decision is Copy {
            1nat
        } else {
            0nat
        }),
        copied_secrets(decisions) <= decisions.len(),
        copied_secrets(Seq::<SecretDecision>::empty()) == 0,
    decreases decisions.len(),
{
    assert(decisions.push(decision).drop_last() =~= decisions);
    if decisions.len() > 0 {
        lemma_one_secret_more(decisions.drop_last(), decisions.last());
        assert(decisions.drop_last().push(decisions.last()) =~= decisions);
    }
}

/// The line on a secret names the file, and a different line says each outcome.
pub proof fn lemma_secret_lines_tell(
    target: String,
    filename: Seq<char>,
    config_path: Seq<char>,
)
    ensures
        text::ends(secret_text(SecretDecision::Copy(target), filename, config_path), target@),
        text::has_part(
            secret_text(SecretDecision::AlreadyThere(target), filename, config_path),
            target@,
        ),
        text::has_part(
            secret_text(SecretDecision::OutOfBounds(target), filename, config_path),
            target@,
        ),
        text::ends(secret_text(SecretDecision::NoTarget, filename, config_path), config_path),
{
    let a = secret_text(SecretDecision::Copy(target), filename, config_path);
    assert(a.subrange(a.len() - target@.len(), a.len() as int) =~= target@);
    let b = secret_text(SecretDecision::AlreadyThere(target), filename, config_path);
    let at = "   ⏭️  Secret already exists at "@.len() as int;
    assert(b.subrange(at, at + target@.len()) =~= target@);
    assert(text::occurs_at(b, target@, at));
    let c = secret_text(SecretDecision::OutOfBounds(target), filename, config_path);
    let from = ("   ⏭️  Secret "@ + filename + " skipped: target "@).len() as int;
    assert(c.subrange(from, from + target@.len()) =~= target@);
    assert(text::occurs_at(c, target@, from));
    let d = secret_text(SecretDecision::NoTarget, filename, config_path);
    assert(d.subrange(d.len() - config_path.len(), d.len() as int) =~= config_path);
}

/// A list and a dry run tell of what a backup holds: a line for the database where it holds
/// one, and for each secret in a dry run.
pub proof fn lemma_lists_tell_of_the_backup(
    manifest: BackupManifest,
    created: Seq<char>,
    config_dir: Seq<char>,
)
    ensures
        ({
            let database: int = if manifest.database_snapshot is Some {
                1
            } else {
                0
            };
            let config: int = if manifest.app_state matches Some(state) && state.config_snapshot
                is Some {
                1
            } else {
                0
            };
            let secrets = secret_count(manifest);
            &&& list_text(manifest, created).len() == 4 + database + config + (if secrets > 0 {
                1int
            } else {
                0
            })
            &&& dry_run_text(manifest, created, config_dir).len() == 5 + database + config + secrets
        }),
{
}

/// The summary of a restore tells of the configuration in one line, and of the database and
/// the secrets where there is something to tell.
pub proof fn lemma_summary_tells_of_the_restore(result: StandaloneRestoreResult)
    ensures
        result.config_snapshot_restored matches Some(path) ==> text::ends(
            config_summary(result),
            path@,
        ),
        database_summary(result).len() == (if result.db_snapshot_restored is Some
            || result.db_already_existed {
            1int
        } else {
            0
        }),
        result.db_snapshot_restored matches Some(path) ==> text::ends(
            database_summary(result)[0],
            path@,
        ),
        secrets_summary(result).len() == (if result.secrets_restored > 0 {
            1int
        } else {
            0
        }) + (if result.secrets_skipped > 0 {
            1int
        } else {
            0
        }),
{
    if let Some(path) = result.config_snapshot_restored {
        let a = config_summary(result);
        assert(a.subrange(a.len() - path@.len(), a.len() as int) =~= path@);
    }
    if let Some(path) = result.db_snapshot_restored {
        let b = database_summary(result)[0];
        assert(b.subrange(b.len() - path@.len(), b.len() as int) =~= path@);
    }
}

/// The list of a backup tells its label, when it was made, how many links it holds and of
/// what kind it is; a safety backup names its operation.
pub proof fn lemma_list_begins(manifest: BackupManifest, created: Seq<char>)
    ensures
        ({
            let lines = list_text(manifest, created);
            &&& lines[0] == "📦 "@ + manifest.label@ + "\n"@
            &&& lines[1] == "   Created:  "@ + created
            &&& lines[2] == "   Symlinks: "@ + text::decimal(manifest.total_count as nat)
            &&& lines[3] == "   Type:     "@ + (match manifest.backup_type {
                BackupType::Scheduled => "Scheduled"@,
                BackupType::Safety { operation } => "Safety ("@ + operation@ + ")"@,
            })
            &&& manifest.database_snapshot matches Some(s) ==> text::has_part(lines[4], s.filename@)
        }),
{
    let lines = list_text(manifest, created);
    if let Some(s) = manifest.database_snapshot {
        assert(lines[4] == listed_database(manifest)[0]);
        let at = "   🗄️  SQLite snapshot: "@.len() as int;
        assert(lines[4].subrange(at, at + s.filename@.len()) =~= s.filename@);
        assert(text::occurs_at(lines[4], s.filename@, at));
    }
}

/// A dry run says that nothing is written and where it would be, and names each file that
/// would be restored, in the order of the backup.
pub proof fn lemma_dry_run_tells(
    manifest: BackupManifest,
    created: Seq<char>,
    config_dir: Seq<char>,
    i: int,
)
    requires
        0 <= i < secret_count(manifest),
    ensures
        ({
            let lines = dry_run_text(manifest, created, config_dir);
            let secret = manifest.app_state->0.secret_snapshots@[i];
            &&& lines[0] == "📋 Backup: "@ + manifest.label@
            &&& lines[3] == "\n🔍 Dry run — no files will be written."@
            &&& lines[4] == "   Would restore app state to: "@ + config_dir
            &&& manifest.database_snapshot matches Some(s) ==> lines[5]
                == "   Would restore database: "@ + s.filename@
            &&& lines[lines.len() - secret_count(manifest) + i] == "   Would restore secret: "@
                + secret.filename@ + " → "@ + secret.original_path@
        }),
{
    let lines = dry_run_text(manifest, created, config_dir);
    let state = manifest.app_state->0;
    let tail = planned_app_state(manifest);
    let secrets = state.secret_snapshots@.map_values(|s: BackupManagedFile| planned_secret(s));
    assert(tail[tail.len() - secrets.len() + i] == secrets[i]);
    if let Some(s) = manifest.database_snapshot {
        assert(lines[5] == planned_database(manifest)[0]);
    }
}

} // verus!
