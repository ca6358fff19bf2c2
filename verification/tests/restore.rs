use symlinkarr::commands::restore::{
    allowed_secret_restore_roots, choose_config_dir, created_text, db_restore_target,
    decide_config, decide_database, decide_secret, default_db_restore_target, dry_run_lines,
    has_app_state, list_lines, may_write, nothing_to_restore_lines, restore_app_state_auto,
    restore_app_state_standalone, run_standalone_restore, secret_line,
    secret_restore_target_allowed, summary_lines, BackupAppState, BackupDatabaseSnapshot,
    BackupManagedFile, BackupManifest, BackupType, ConfigDecision, ConfigDirFacts,
    DatabaseDecision, RestoreMode, SecretDecision,
};
use symlinkarr::config::yaml::inspect_restore_targets;
use symlinkarr::config::RestoreConfigTargets;
use symlinkarr::db::types::Moment;
use symlinkarr::paths::{lexical_components, path_components, same_path};

const CONFIG_SNAPSHOT: &str =
    "db_path: ./data/symlinkarr.db\nrealdebrid:\n  api_token: \"secretfile:./secrets/rd-token\"\n";

fn manifest() -> BackupManifest {
    BackupManifest {
        label: "nightly".to_string(),
        timestamp: Moment { seconds: 1_700_000_000, nanos: 0 },
        backup_type: BackupType::Scheduled,
        total_count: 3,
        database_snapshot: Some(BackupDatabaseSnapshot {
            filename: "symlinkarr.sqlite3".to_string(),
            size_bytes: 11,
        }),
        app_state: Some(BackupAppState {
            config_snapshot: Some(BackupManagedFile {
                filename: "config.snapshot.yaml".to_string(),
                original_path: "/old-install/config.yaml".to_string(),
            }),
            secret_snapshots: vec![BackupManagedFile {
                filename: "rd-token.secret".to_string(),
                original_path: "/old-install/rd-token".to_string(),
            }],
        }),
    }
}

#[test]
fn secret_restore_target_allowed_accepts_config_tree() {
    assert!(secret_restore_target_allowed(
        "/srv/symlinkarr/config",
        "/srv/symlinkarr/config/secrets/rd-token"
    ));
}

#[test]
fn secret_restore_target_allowed_accepts_standard_docker_sibling_secrets() {
    assert!(secret_restore_target_allowed("/app/config", "/app/secrets/rd-token"));
}

#[test]
fn secret_restore_target_allowed_rejects_escaped_or_external_paths() {
    assert!(!secret_restore_target_allowed(
        "/app/config",
        "/app/config/../outside/rd-token"
    ));
    assert!(!secret_restore_target_allowed("/app/config", "/etc/symlinkarr/rd-token"));
}

#[test]
fn standalone_restore_uses_targets_from_restored_config() {
    let config_dir = "/srv/install";
    let manifest = manifest();
    let config = decide_config(&manifest, false);
    assert_eq!(config, ConfigDecision::Copy("config.snapshot.yaml".to_string()));
    let targets =
        inspect_restore_targets("/srv/install/config.yaml", CONFIG_SNAPSHOT).unwrap();
    let secret = decide_secret(config_dir, &targets.secret_files, 0, false);
    match &secret {
        SecretDecision::Copy(to) => {
            assert!(same_path(to, "/srv/install/secrets/rd-token"));
        }
        other => panic!("unexpected decision {other:?}"),
    }
    let target = db_restore_target(&Some(targets), config_dir);
    let database = decide_database(&manifest, target, false);

    let result = restore_app_state_standalone(config_dir, &config, &vec![secret], &database);
    assert_eq!(
        result.config_snapshot_restored,
        Some("/srv/install/config.yaml".to_string())
    );
    assert!(same_path(
        result.db_snapshot_restored.as_ref().unwrap(),
        "/srv/install/data/symlinkarr.db"
    ));
    assert_eq!(result.secrets_restored, 1);
    assert_eq!(result.secrets_skipped, 0);
}

#[test]
fn standalone_restore_allows_docker_style_sibling_secrets() {
    let targets = inspect_restore_targets(
        "/app/config/config.yaml",
        "realdebrid:\n  api_token: \"secretfile:../secrets/rd-token\"\n",
    )
    .unwrap();
    let secret = decide_secret("/app/config", &targets.secret_files, 0, false);
    match &secret {
        SecretDecision::Copy(to) => assert_eq!(
            lexical_components(&path_components(to)),
            path_components("/app/secrets/rd-token")
        ),
        other => panic!("unexpected decision {other:?}"),
    }
    let result = restore_app_state_standalone(
        "/app/config",
        &ConfigDecision::AlreadyThere,
        &vec![secret],
        &DatabaseDecision::NoSnapshot,
    );
    assert_eq!(result.secrets_restored, 1);
    assert_eq!(result.secrets_skipped, 0);
    assert!(result.config_already_existed);
}

#[test]
fn auto_restore_uses_restored_config_targets_not_manifest_original_paths() {
    let auto = restore_app_state_auto(&manifest(), "/srv/install/config.yaml", false).unwrap();
    assert_eq!(auto.config_dir, "/srv/install");
    assert_eq!(auto.config, ConfigDecision::Copy("config.snapshot.yaml".to_string()));
    let targets =
        inspect_restore_targets("/srv/install/config.yaml", CONFIG_SNAPSHOT).unwrap();
    match decide_secret(&auto.config_dir, &targets.secret_files, 0, false) {
        SecretDecision::Copy(to) => assert!(same_path(&to, "/srv/install/secrets/rd-token")),
        other => panic!("unexpected decision {other:?}"),
    }
}

#[test]
fn standalone_restore_dry_run_does_not_create_target_files() {
    let (mode, dir) =
        run_standalone_restore("backups/standalone-backup.json", true, true, false).unwrap();
    assert_eq!(mode, RestoreMode::DryRun);
    assert_eq!(dir, "backups");
    assert!(!may_write(mode, &manifest()));
}

#[test]
fn standalone_restore_list_only_does_not_create_target_files() {
    let (mode, _) =
        run_standalone_restore("backups/standalone-backup.json", true, false, true).unwrap();
    assert_eq!(mode, RestoreMode::List);
    assert!(!may_write(mode, &manifest()));
}

#[test]
fn a_backup_that_is_not_there_is_an_error() {
    assert!(run_standalone_restore("backups/none.json", false, false, false).is_err());
    let (mode, _) = run_standalone_restore("backups/one.json", true, false, false).unwrap();
    assert_eq!(mode, RestoreMode::Restore);
    assert!(may_write(mode, &manifest()));
}

#[test]
fn nothing_is_overwritten() {
    let manifest = manifest();
    assert_eq!(decide_config(&manifest, true), ConfigDecision::AlreadyThere);
    assert_eq!(
        decide_database(&manifest, "/a/symlinkarr.db".to_string(), true),
        DatabaseDecision::AlreadyThere("/a/symlinkarr.db".to_string())
    );
    let targets = vec!["/app/config/token".to_string()];
    assert_eq!(
        decide_secret("/app/config", &targets, 0, true),
        SecretDecision::AlreadyThere("/app/config/token".to_string())
    );
    assert_eq!(decide_secret("/app/config", &targets, 1, false), SecretDecision::NoTarget);
    assert_eq!(
        decide_secret("/app/config", &vec!["/etc/token".to_string()], 0, false),
        SecretDecision::OutOfBounds("/etc/token".to_string())
    );
}

#[test]
fn a_backup_without_snapshots_restores_nothing() {
    let mut bare = manifest();
    bare.app_state = None;
    bare.database_snapshot = None;
    assert!(!has_app_state(&bare));
    assert_eq!(decide_config(&bare, false), ConfigDecision::NoSnapshot);
    assert_eq!(
        decide_database(&bare, "/a/b".to_string(), false),
        DatabaseDecision::NoSnapshot
    );
    assert!(restore_app_state_auto(&bare, "/srv/config.yaml", false).is_none());
    assert!(!nothing_to_restore_lines(&bare).is_empty());
    assert!(has_app_state(&manifest()));
}

#[test]
fn the_directory_is_chosen_in_order() {
    let facts = |app_has_config, here_has_config, app_is_dir| ConfigDirFacts {
        app_has_config,
        here_has_config,
        app_is_dir,
        current_dir: Some("/home/me".to_string()),
    };
    assert_eq!(choose_config_dir(Some("/srv/x"), &facts(true, true, true)), "/srv/x");
    assert_eq!(choose_config_dir(None, &facts(true, true, true)), "/app/config");
    assert_eq!(choose_config_dir(None, &facts(false, true, true)), ".");
    assert_eq!(choose_config_dir(None, &facts(false, false, true)), "/app/config");
    assert_eq!(choose_config_dir(None, &facts(false, false, false)), "/home/me");
}

#[test]
fn targets_without_a_configuration_are_the_defaults() {
    assert_eq!(
        db_restore_target(&None, "/app/config"),
        default_db_restore_target("/app/config")
    );
    let targets = Some(RestoreConfigTargets {
        db_path: "/data/x.db".to_string(),
        secret_files: Vec::new(),
    });
    assert_eq!(db_restore_target(&targets, "/app/config"), "/data/x.db");
    assert!(allowed_secret_restore_roots("/app/config").contains(&"/app/config".to_string()));
}

#[test]
fn what_is_shown_names_the_backup() {
    let manifest = manifest();
    let created = created_text(&manifest).unwrap();
    assert_eq!(created, "2023-11-14 22:13:20");
    assert!(list_lines(&manifest, &created).iter().any(|line| line.contains("nightly")));
    assert!(dry_run_lines(&manifest, &created, "/srv/x")
        .iter()
        .any(|line| line.contains("/srv/x")));
    let line = secret_line(
        &SecretDecision::OutOfBounds("/etc/token".to_string()),
        "rd-token.secret",
        "/app/config/config.yaml",
    );
    assert!(line.contains("/etc/token"));
    let result = restore_app_state_standalone(
        "/srv/x",
        &ConfigDecision::Copy("config.snapshot.yaml".to_string()),
        &vec![SecretDecision::NoTarget],
        &DatabaseDecision::NoSnapshot,
    );
    assert_eq!((result.secrets_restored, result.secrets_skipped), (0, 1));
    assert!(!summary_lines(&result).is_empty());
}

#[test]
fn a_tag_on_the_document_does_not_hide_the_database() {
    let tagged = inspect_restore_targets("/srv/config.yaml", "!conf\ndb_path: ./a.db\n").unwrap();
    assert!(same_path(&tagged.db_path, "/srv/a.db"));
    let bare = inspect_restore_targets("/srv/config.yaml", "!conf\nlog_level: info\n").unwrap();
    assert!(same_path(&bare.db_path, "/srv/symlinkarr.db"));
    assert!(inspect_restore_targets("/srv/config.yaml", "db_path: !conf a.db\n").is_err());
    assert!(inspect_restore_targets("/srv/config.yaml", "!conf [a]\n").is_err());
}
