use symlinkarr::config::defaults::{default_db_path, default_log_level};
use symlinkarr::config::load::{
    candidate_config_paths, candidate_dotenv_paths, load_dotenv_file, parse_dotenv_value,
};
use symlinkarr::config::secrets::{
    resolve_secret, secret_request, SecretReply, SecretRequest, SECRET_COUNT,
};
use symlinkarr::config::validation::{PathMode, Surroundings};
use symlinkarr::config::yaml::{
    collect_secret_file_paths, inspect_restore_targets, raw_plaintext_secret_fields,
    read_config_document, warn_for_plaintext_secrets, yaml_str_at, RestoreInspectError,
};
use symlinkarr::config::{
    ApiConfig, BackupConfig, BazarrConfig, CleanupPolicyConfig, Config, ContentType, DaemonConfig,
    DecypharrConfig, DmmConfig, FeaturesConfig, LibraryConfig, MatchingConfig, MatchingMode,
    MediaBrowserConfig, MetadataMode, PlexConfig, ProwlarrConfig, PrunePolicyConfig, RadarrConfig,
    RealDebridConfig, SecurityConfig, SonarrConfig, SourceConfig, SymlinkConfig, TautulliConfig,
    WebConfig,
};
use symlinkarr::models::{MediaType, PathHealth};
use symlinkarr::tables::TextMap;

fn missing() -> SecretReply {
    SecretReply::Failed("environment variable not found".to_string())
}

fn config_with(library: &str, source: &str) -> Config {
    Config {
        libraries: vec![LibraryConfig {
            name: "Movies".to_string(),
            path: library.to_string(),
            media_type: MediaType::Movie,
            content_type: Some(ContentType::Movie),
            depth: 1,
        }],
        sources: vec![SourceConfig {
            name: "RD".to_string(),
            path: source.to_string(),
            media_type: "auto".to_string(),
        }],
        api: ApiConfig::default(),
        realdebrid: RealDebridConfig::default(),
        decypharr: DecypharrConfig::default(),
        dmm: DmmConfig::default(),
        backup: BackupConfig::default(),
        db_path: default_db_path(),
        log_level: default_log_level(),
        daemon: DaemonConfig::default(),
        symlink: SymlinkConfig::default(),
        matching: MatchingConfig::default(),
        prowlarr: ProwlarrConfig::default(),
        bazarr: BazarrConfig::default(),
        tautulli: TautulliConfig::default(),
        plex: PlexConfig::default(),
        emby: MediaBrowserConfig::default(),
        jellyfin: MediaBrowserConfig::default(),
        radarr: RadarrConfig::default(),
        sonarr: SonarrConfig::default(),
        sonarr_anime: SonarrConfig::default(),
        features: FeaturesConfig::default(),
        security: SecurityConfig::default(),
        cleanup: CleanupPolicyConfig::default(),
        web: WebConfig::default(),
        loaded_from: None,
        secret_files: Vec::new(),
    }
}

fn test_config() -> Config {
    config_with("/tmp/library", "/tmp/source")
}

fn runtime_config_fixture() -> Config {
    test_config()
}

#[test]
fn validate_rejects_zero_daemon_interval() {
    let mut cfg = test_config();
    cfg.daemon.interval_minutes = 0;

    let report = cfg.validate_runtime_settings(&Surroundings::new());
    assert!(report
        .errors
        .contains(&"daemon.interval_minutes must be greater than 0".to_string()));
}

#[test]
fn validate_rejects_unknown_source_media_type() {
    let mut cfg = test_config();
    cfg.sources[0].media_type = "tvv".to_string();

    let report = cfg.validate_runtime_settings(&Surroundings::new());
    assert!(report.errors.iter().any(|error| {
        error.contains("Source 'RD' media_type must be one of: auto, anime, tv, movie")
    }));
}

#[test]
fn validate_rejects_invalid_vacuum_hour() {
    let mut cfg = test_config();
    cfg.daemon.vacuum_hour_local = 24;

    let report = cfg.validate_runtime_settings(&Surroundings::new());
    assert!(report
        .errors
        .contains(&"daemon.vacuum_hour_local must be between 0 and 23".to_string()));
}

#[test]
fn validate_rejects_relative_library_and_source_paths() {
    let mut cfg = test_config();
    cfg.libraries = vec![LibraryConfig {
        name: "Relative Library".to_string(),
        path: "relative/library".to_string(),
        media_type: MediaType::Tv,
        content_type: Some(ContentType::Tv),
        depth: 1,
    }];
    cfg.sources = vec![SourceConfig {
        name: "Relative Source".to_string(),
        path: "relative/source".to_string(),
        media_type: "auto".to_string(),
    }];

    let report = cfg.validate(&Surroundings::new());
    assert!(report
        .errors
        .iter()
        .any(|error: &String| error.contains("Library 'Relative Library' path must be absolute")));
    assert!(report
        .errors
        .iter()
        .any(|error: &String| error.contains("Source 'Relative Source' path must be absolute")));
}

#[test]
fn validate_treats_missing_paths_as_errors() {
    let security = SecurityConfig {
        enforce_secure_permissions: false,
        ..SecurityConfig::default()
    };
    let mut cfg = config_with("/definitely/missing/library", "/definitely/missing/source");
    cfg.security = security;

    let report = cfg.validate(&Surroundings::new());
    assert_eq!(report.errors.len(), 2);
    assert!(report
        .errors
        .iter()
        .any(|err| err.contains("Library 'Movies' path does not exist")));
    assert!(report
        .errors
        .iter()
        .any(|err| err.contains("Source 'RD' path does not exist")));
}

#[test]
fn validate_runtime_settings_skips_missing_path_errors() {
    let security = SecurityConfig {
        enforce_secure_permissions: false,
        ..SecurityConfig::default()
    };
    let mut cfg = config_with("/definitely/missing/library", "/definitely/missing/source");
    cfg.security = security;

    let report = cfg.validate_runtime_settings(&Surroundings::new());
    assert!(report.errors.is_empty());
}

#[test]
fn validate_rejects_zero_decypharr_polling_settings() {
    let mut cfg = test_config();
    cfg.decypharr.poll_interval_seconds = 0;
    cfg.decypharr.completion_timeout_minutes = 0;
    cfg.decypharr.relink_timeout_minutes = 0;
    cfg.decypharr.max_in_flight = 0;
    cfg.decypharr.max_requests_per_run = 0;
    cfg.decypharr.queue_page_size = 0;

    let report = cfg.validate_runtime_settings(&Surroundings::new());
    assert!(report
        .errors
        .iter()
        .any(|err| err.contains("decypharr.poll_interval_seconds")));
    assert!(report
        .errors
        .iter()
        .any(|err| err.contains("decypharr.completion_timeout_minutes")));
    assert!(report
        .errors
        .iter()
        .any(|err| err.contains("decypharr.relink_timeout_minutes")));
    assert!(report
        .errors
        .iter()
        .any(|err| err.contains("decypharr.max_in_flight")));
    assert!(report
        .errors
        .iter()
        .any(|err| err.contains("decypharr.max_requests_per_run")));
    assert!(report
        .errors
        .iter()
        .any(|err| err.contains("decypharr.queue_page_size")));
}

#[test]
fn validate_rejects_zero_realdebrid_pagination_limits() {
    let mut cfg = test_config();
    cfg.realdebrid.api_token = "token".to_string();
    cfg.realdebrid.torrents_page_limit = 0;
    cfg.realdebrid.max_pages = 0;

    let report = cfg.validate_runtime_settings(&Surroundings::new());
    assert!(report
        .errors
        .iter()
        .any(|err| err.contains("realdebrid.torrents_page_limit")));
    assert!(report
        .errors
        .iter()
        .any(|err| err.contains("realdebrid.max_pages")));
}

#[test]
fn validate_rejects_zero_api_cache_ttl() {
    let mut cfg = runtime_config_fixture();
    cfg.api.cache_ttl_hours = 0;

    let report = cfg.validate_runtime_settings(&Surroundings::new());
    assert!(report
        .errors
        .iter()
        .any(|err| err.contains("api.cache_ttl_hours")));
}

#[test]
fn validate_accepts_high_api_cache_ttl() {
    let mut cfg = runtime_config_fixture();
    cfg.api.cache_ttl_hours = 87600; // high-but-valid override

    let report = cfg.validate_runtime_settings(&Surroundings::new());
    assert!(
        report.warnings.is_empty()
            || !report
                .warnings
                .iter()
                .any(|warning| warning.contains("api.cache_ttl_hours"))
    );
}

#[test]
fn web_config_defaults_to_loopback_bind_address() {
    let web = WebConfig::default();
    assert_eq!(web.bind_address, "127.0.0.1");
    assert!(!web.allow_remote);
    assert_eq!(web.port, 8726);
}

#[test]
fn plex_config_defaults_to_safe_refresh_limits() {
    let plex = PlexConfig::default();
    assert!(plex.refresh_enabled);
    assert_eq!(plex.refresh_delay_ms, 250);
    assert_eq!(plex.refresh_coalesce_threshold, 8);
    assert_eq!(plex.max_refresh_batches_per_run, 12);
    assert!(plex.abort_refresh_when_capped);
}

#[test]
fn media_browser_config_defaults_to_safe_refresh_limits() {
    let media_browser = MediaBrowserConfig::default();
    assert!(media_browser.refresh_enabled);
    assert_eq!(media_browser.refresh_delay_ms, 250);
    assert_eq!(media_browser.refresh_batch_size, 64);
    assert_eq!(media_browser.max_refresh_batches_per_run, 12);
    assert!(media_browser.abort_refresh_when_capped);
}

#[test]
fn has_plex_refresh_respects_refresh_enabled_flag() {
    let mut cfg = runtime_config_fixture();
    cfg.plex.url = "http://localhost:32400".to_string();
    cfg.plex.token = "token".to_string();
    assert!(cfg.has_plex_refresh());

    cfg.plex.refresh_enabled = false;
    assert!(!cfg.has_plex_refresh());
    assert!(cfg.has_plex());
}

#[test]
fn has_emby_and_jellyfin_refresh_respect_refresh_enabled_flags() {
    let mut cfg = runtime_config_fixture();

    cfg.emby.url = "http://localhost:8096".to_string();
    cfg.emby.api_key = "emby-key".to_string();
    assert!(cfg.has_emby_refresh());
    cfg.emby.refresh_enabled = false;
    assert!(!cfg.has_emby_refresh());
    assert!(cfg.has_emby());

    cfg.jellyfin.url = "http://localhost:8097".to_string();
    cfg.jellyfin.api_key = "jellyfin-key".to_string();
    assert!(cfg.has_jellyfin_refresh());
    cfg.jellyfin.refresh_enabled = false;
    assert!(!cfg.has_jellyfin_refresh());
    assert!(cfg.has_jellyfin());
}

#[test]
fn validate_runtime_settings_allows_multiple_media_refresh_backends() {
    let mut cfg = runtime_config_fixture();
    cfg.plex.url = "http://localhost:32400".to_string();
    cfg.plex.token = "plex-token".to_string();
    cfg.emby.url = "http://localhost:8096".to_string();
    cfg.emby.api_key = "emby-key".to_string();

    let report = cfg.validate_runtime_settings(&Surroundings::new());
    assert!(!report.errors.iter().any(|err| {
        err.contains("Only one media-server refresh backend may be enabled at a time")
    }));
}

#[test]
fn validate_rejects_empty_web_bind_address_when_enabled() {
    let mut cfg = runtime_config_fixture();
    cfg.web.enabled = true;
    cfg.web.bind_address.clear();

    let report = cfg.validate_runtime_settings(&Surroundings::new());
    assert!(report
        .errors
        .iter()
        .any(|err| err.contains("web.bind_address")));
}

#[test]
fn validate_rejects_remote_web_bind_without_explicit_opt_in() {
    let mut cfg = runtime_config_fixture();
    cfg.web.enabled = true;
    cfg.web.bind_address = "0.0.0.0".to_string();

    let report = cfg.validate_runtime_settings(&Surroundings::new());
    assert!(report
        .errors
        .iter()
        .any(|err| err.contains("requires web.allow_remote=true")));
}

#[test]
fn validate_allows_remote_web_bind_with_basic_auth() {
    let mut cfg = runtime_config_fixture();
    cfg.web.enabled = true;
    cfg.web.bind_address = "0.0.0.0".to_string();
    cfg.web.allow_remote = true;
    cfg.web.username = "admin".to_string();
    cfg.web.password = "secret".to_string();

    let report = cfg.validate_runtime_settings(&Surroundings::new());
    assert!(!report
        .errors
        .iter()
        .any(|err| err.contains("web.username/web.password")));
    assert!(!report
        .errors
        .iter()
        .any(|err| err.contains("built-in HTML UI")));
}

#[test]
fn validate_rejects_partial_basic_web_auth() {
    let mut cfg = runtime_config_fixture();
    cfg.web.enabled = true;
    cfg.web.username = "admin".to_string();

    let report = cfg.validate_runtime_settings(&Surroundings::new());
    assert!(report
        .errors
        .iter()
        .any(|err| err.contains("web.username and web.password")));
}

#[test]
fn validate_rejects_remote_web_with_only_api_key_auth() {
    let mut cfg = runtime_config_fixture();
    cfg.web.enabled = true;
    cfg.web.bind_address = "0.0.0.0".to_string();
    cfg.web.allow_remote = true;
    cfg.web.api_key = "token".to_string();

    let report = cfg.validate_runtime_settings(&Surroundings::new());
    assert!(report
        .errors
        .iter()
        .any(|err| err.contains("web.username/web.password")));
}

#[test]
fn validate_rejects_whitespace_only_web_password() {
    let mut cfg = runtime_config_fixture();
    cfg.web.enabled = true;
    cfg.web.username = "admin".to_string();
    cfg.web.password = "   ".to_string();

    let report = cfg.validate_runtime_settings(&Surroundings::new());
    assert!(report
        .errors
        .iter()
        .any(|err| err.contains("web.username and web.password")));
}

#[test]
fn raw_plaintext_secret_fields_detects_unwrapped_secrets() {
    let value: serde_yml::Value = serde_yml::from_str(
        r#"
api:
  tmdb_api_key: "plaintext"
  tmdb_read_access_token: "env:TMDB_TOKEN"
realdebrid:
  api_token: "secretfile:rd.token"
sonarr:
  api_key: "another-plaintext"
web:
  api_key: "web-plaintext"
"#,
    )
    .unwrap();

    let fields = raw_plaintext_secret_fields(&value);
    assert_eq!(
        fields,
        vec!["api.tmdb_api_key", "web.api_key", "sonarr.api_key"]
    );
}

#[test]
fn test_content_type_display() {
    assert_eq!(ContentType::Tv.as_str(), "tv");
    assert_eq!(ContentType::Anime.as_str(), "anime");
    assert_eq!(ContentType::Movie.as_str(), "movie");
}

#[test]
fn test_content_type_from_media_type() {
    assert_eq!(ContentType::from_media_type(MediaType::Tv), ContentType::Tv);
    assert_eq!(
        ContentType::from_media_type(MediaType::Movie),
        ContentType::Movie
    );
}

#[test]
fn test_matching_mode_display() {
    assert_eq!(MatchingMode::Strict.as_str(), "strict");
    assert_eq!(MatchingMode::Balanced.as_str(), "balanced");
    assert_eq!(MatchingMode::Aggressive.as_str(), "aggressive");
}

#[test]
fn test_matching_mode_is_strict() {
    assert!(MatchingMode::Strict.is_strict());
    assert!(!MatchingMode::Balanced.is_strict());
    assert!(!MatchingMode::Aggressive.is_strict());
}

#[test]
fn test_metadata_mode_display() {
    assert_eq!(MetadataMode::Full.as_str(), "full");
    assert_eq!(MetadataMode::CacheOnly.as_str(), "cache_only");
    assert_eq!(MetadataMode::Off.as_str(), "off");
}

#[test]
fn test_metadata_mode_allows_network() {
    assert!(MetadataMode::Full.allows_network());
    assert!(!MetadataMode::CacheOnly.allows_network());
    assert!(!MetadataMode::Off.allows_network());
}

#[test]
fn candidate_paths_include_app_config_when_no_explicit_path_is_set() {
    let paths = candidate_config_paths(None, None);
    assert_eq!(paths, vec!["config.yaml", "/app/config/config.yaml"]);
}

#[test]
fn candidate_paths_prioritize_env_override() {
    let paths = candidate_config_paths(None, Some("/tmp/symlinkarr-env.yaml"));
    assert_eq!(
        paths,
        vec!["/tmp/symlinkarr-env.yaml", "config.yaml", "/app/config/config.yaml"]
    );
}

#[test]
fn an_explicit_path_is_the_only_candidate() {
    assert_eq!(
        candidate_config_paths(Some("my.yaml".to_string()), Some("/tmp/other.yaml")),
        vec!["my.yaml"]
    );
}

#[test]
fn load_dotenv_file_collects_missing_vars_without_overwriting_existing_env() {
    let mut overlay: TextMap<String> = TextMap::new();
    let shell = vec!["SYMLINKARR_QUOTED".to_string()];
    let loaded = load_dotenv_file(
        "/etc/symlinkarr/.env",
        "SYMLINKARR_FROM_FILE=file-value\nexport SYMLINKARR_QUOTED=\"quoted value\"\n",
        &shell,
        &mut overlay,
    )
    .unwrap();
    assert_eq!(loaded, 1);
    assert_eq!(
        overlay.get("SYMLINKARR_FROM_FILE").map(String::as_str),
        Some("file-value")
    );
    assert_eq!(overlay.get("SYMLINKARR_QUOTED"), None);
}

#[test]
fn dotenv_values_lose_their_quotes() {
    let mut overlay: TextMap<String> = TextMap::new();
    let loaded = load_dotenv_file(
        ".env",
        "# comment\n\nexport A=\"quoted value\"\nB = 'x'\nC=plain\n",
        &Vec::new(),
        &mut overlay,
    )
    .unwrap();
    assert_eq!(loaded, 3);
    assert_eq!(overlay.get("A").map(String::as_str), Some("quoted value"));
    assert_eq!(overlay.get("B").map(String::as_str), Some("x"));
    assert_eq!(overlay.get("C").map(String::as_str), Some("plain"));
    assert_eq!(parse_dotenv_value("\"a"), "\"a");
}

#[test]
fn dotenv_lines_without_a_value_or_a_name_are_errors() {
    let mut overlay: TextMap<String> = TextMap::new();
    assert_eq!(
        load_dotenv_file("/x/.env", "A=1\nnonsense\n", &Vec::new(), &mut overlay),
        Err("Invalid .env entry in /x/.env at line 2".to_string())
    );
    assert_eq!(overlay.get("A").map(String::as_str), Some("1"));
    assert_eq!(
        load_dotenv_file("/x/.env", "=1\n", &Vec::new(), &mut overlay),
        Err("Invalid .env key in /x/.env at line 1".to_string())
    );
}

#[test]
fn dotenv_files_stand_beside_the_configuration() {
    assert_eq!(
        candidate_dotenv_paths("/cfg/config.yaml").contains(&"/cfg/.env".to_string()),
        true
    );
}

#[test]
fn resolve_secret_reads_secretfile() {
    let raw = "secretfile:/run/secrets/api.key";
    assert_eq!(
        secret_request(raw, None),
        SecretRequest::File("/run/secrets/api.key".to_string())
    );
    let value = resolve_secret(
        raw,
        "api.tmdb_api_key",
        true,
        None,
        &TextMap::new(),
        &SecretReply::Found("secret-value\n".to_string()),
    )
    .unwrap();
    assert_eq!(value, "secret-value");
}

#[test]
fn resolve_secret_rejects_plaintext_when_provider_is_required() {
    let err = resolve_secret(
        "plaintext",
        "api.tmdb_api_key",
        true,
        None,
        &TextMap::new(),
        &missing(),
    )
    .unwrap_err();
    assert!(err.contains("Plaintext secret is not allowed"));
}

#[test]
fn resolve_secretfile_relative_to_config_directory() {
    assert_eq!(
        secret_request("secretfile:tmdb.key", Some("/data/config")),
        SecretRequest::File("/data/config/tmdb.key".to_string())
    );
    let value = resolve_secret(
        "secretfile:tmdb.key",
        "api.tmdb_api_key",
        true,
        Some("/data/config"),
        &TextMap::new(),
        &SecretReply::Found("tmdb-secret".to_string()),
    )
    .unwrap();
    assert_eq!(value, "tmdb-secret");
}

fn overlay_of(key: &str, value: &str) -> TextMap<String> {
    let mut overlay = TextMap::new();
    overlay.insert(key, value.to_string());
    overlay
}

#[test]
fn resolve_secret_prefers_real_env_over_dotenv_overlay() {
    let overlay = overlay_of("SYMLINKARR_DOTENV_TEST", "dotenv-value");
    assert_eq!(
        secret_request("env:SYMLINKARR_DOTENV_TEST", None),
        SecretRequest::Variable("SYMLINKARR_DOTENV_TEST".to_string())
    );
    let value = resolve_secret(
        "env:SYMLINKARR_DOTENV_TEST",
        "realdebrid.api_token",
        true,
        None,
        &overlay,
        &SecretReply::Found("real-env".to_string()),
    )
    .unwrap();
    assert_eq!(value, "real-env");
}

#[test]
fn resolve_secret_uses_dotenv_overlay_when_real_env_missing() {
    let overlay = overlay_of("SYMLINKARR_DOTENV_TEST", "dotenv-value");
    let value = resolve_secret(
        "env:SYMLINKARR_DOTENV_TEST",
        "realdebrid.api_token",
        true,
        None,
        &overlay,
        &missing(),
    )
    .unwrap();
    assert_eq!(value, "dotenv-value");
}

#[test]
fn secrets_that_cannot_be_had_are_errors() {
    let nothing = TextMap::new();
    assert_eq!(
        resolve_secret("env:X", "plex.token", false, None, &nothing, &missing()),
        Err("Missing environment variable 'X' for plex.token".to_string())
    );
    assert_eq!(
        resolve_secret(
            "secretfile:/a",
            "plex.token",
            false,
            None,
            &nothing,
            &SecretReply::Found(" \n".to_string())
        ),
        Err("Secret file '/a' is empty or contains only whitespace".to_string())
    );
    assert_eq!(
        resolve_secret(
            "secretfile:/a",
            "plex.token",
            false,
            None,
            &nothing,
            &SecretReply::Failed("denied".to_string())
        ),
        Err("Failed reading secret file '/a' for plex.token: denied".to_string())
    );
    assert_eq!(
        resolve_secret("", "plex.token", true, None, &nothing, &missing()),
        Ok(String::new())
    );
    assert_eq!(
        resolve_secret("plain", "plex.token", false, None, &nothing, &missing()),
        Ok("plain".to_string())
    );
}

#[test]
fn secret_fields_are_filled_in() {
    let mut cfg = test_config();
    cfg.realdebrid.api_token = "env:SYMLINKARR_RD_TOKEN".to_string();
    cfg.plex.token = "kept".to_string();
    let requests = cfg.secret_requests(Some("/cfg"));
    assert_eq!(requests.len(), SECRET_COUNT);
    let replies: Vec<SecretReply> = requests
        .iter()
        .map(|request| match request {
            SecretRequest::Variable(name) => {
                assert_eq!(name, "SYMLINKARR_RD_TOKEN");
                missing()
            }
            _ => missing(),
        })
        .collect();
    let overlay = overlay_of("SYMLINKARR_RD_TOKEN", "rd-from-dotenv");
    cfg.resolve_secret_fields(Some("/cfg"), &overlay, &replies).unwrap();
    assert_eq!(cfg.realdebrid.api_token, "rd-from-dotenv");
    assert_eq!(cfg.plex.token, "kept");
}

#[test]
fn collect_secret_file_paths_resolves_relative_entries() {
    let value: serde_yml::Value = serde_yml::from_str(
        r#"
api:
  tmdb_api_key: "secretfile:tmdb.key"
prowlarr:
  api_key: "env:PROWLARR_API_KEY"
tautulli:
  api_key: "secretfile:/tmp/tautulli.key"
web:
  password: "secretfile:web.pass"
"#,
    )
    .unwrap();

    let paths = collect_secret_file_paths(&value, Some("/data/cfg"));
    assert_eq!(
        paths,
        vec!["/data/cfg/tmdb.key", "/data/cfg/web.pass", "/tmp/tautulli.key"]
    );
}

#[test]
fn plaintext_secrets_are_warned_of() {
    let value: serde_yml::Value =
        serde_yml::from_str("api:\n  tmdb_api_key: \"plaintext\"\n").unwrap();
    assert!(warn_for_plaintext_secrets(&value).unwrap().contains("api.tmdb_api_key"));
    let wrapped: serde_yml::Value =
        serde_yml::from_str("api:\n  tmdb_api_key: \"env:KEY\"\n").unwrap();
    assert_eq!(warn_for_plaintext_secrets(&wrapped), None);
    assert_eq!(yaml_str_at(&wrapped, &["api", "tmdb_api_key"]), Some("env:KEY"));
    assert_eq!(yaml_str_at(&wrapped, &["api", "tvdb_api_key"]), None);
}

#[test]
fn validate_reports_insecure_runtime_permissions() {
    let mut cfg = config_with("/data/library", "/data/source");
    cfg.db_path = "/data/symlinkarr.db".to_string();
    cfg.backup = BackupConfig {
        path: "/data/backups".to_string(),
        ..BackupConfig::default()
    };
    cfg.security = SecurityConfig {
        enforce_secure_permissions: true,
        ..SecurityConfig::default()
    };
    cfg.cleanup = CleanupPolicyConfig {
        prune: PrunePolicyConfig {
            quarantine_path: "/data/quarantine".to_string(),
            ..PrunePolicyConfig::default()
        },
    };
    cfg.secret_files = vec!["/data/tmdb.key".to_string()];

    let mut facts = Surroundings::new();
    facts.health.insert("/data/library", PathHealth::Healthy);
    facts.health.insert("/data/source", PathHealth::Healthy);
    facts.modes.insert("/data/symlinkarr.db", PathMode::Mode(0o100644));
    facts.modes.insert("/data/backups", PathMode::Mode(0o40755));
    facts.modes.insert("/data/quarantine", PathMode::Mode(0o40755));
    facts.modes.insert("/data/tmdb.key", PathMode::Mode(0o100644));

    let report = cfg.validate(&facts);
    assert!(report
        .errors
        .iter()
        .any(|err| err.contains("db_path must not be group/world accessible")));
    assert!(report
        .errors
        .iter()
        .any(|err| err.contains("backup.path must not be group/world accessible")));
    assert!(report.errors.iter().any(
        |err| err.contains("cleanup.prune.quarantine_path must not be group/world accessible")
    ));
    assert!(report
        .errors
        .iter()
        .any(|err| err.contains("secretfile must not be group/world accessible")));
    assert_eq!(report.errors.len(), 4);

    facts.modes.insert("/data/symlinkarr.db", PathMode::Mode(0o100600));
    facts.modes.insert("/data/backups", PathMode::Mode(0o40700));
    facts.modes.insert("/data/quarantine", PathMode::Mode(0o40700));
    facts.modes.insert("/data/tmdb.key", PathMode::Mode(0o100600));
    assert!(cfg.validate(&facts).errors.is_empty());
}

#[test]
fn test_inspect_restore_targets_resolves_relative_paths_from_config_dir() {
    let targets = inspect_restore_targets(
        "/backup/config/config.yaml",
        r#"
db_path: "./data/symlinkarr.db"
realdebrid:
  api_token: "secretfile:./secrets/rd-token"
prowlarr:
  url: "http://localhost:9696"
  api_key: "secretfile:./secrets/prowlarr-token"
"#,
    )
    .unwrap();

    assert!(symlinkarr::paths::same_path(
        &targets.db_path,
        "/backup/config/data/symlinkarr.db"
    ));
    assert_eq!(targets.secret_files.len(), 2);
    assert!(targets.secret_files.iter().any(|path| path.ends_with("secrets/rd-token")));
    assert!(targets
        .secret_files
        .iter()
        .any(|path| path.ends_with("secrets/prowlarr-token")));
}

#[test]
fn test_inspect_restore_targets_uses_default_db_path_when_missing() {
    let targets = inspect_restore_targets(
        "/backup/config/config.yaml",
        r#"
realdebrid:
  api_token: "secretfile:./secrets/rd-token"
"#,
    )
    .unwrap();

    assert_eq!(targets.db_path, "/backup/config/symlinkarr.db");
    assert_eq!(targets.secret_files.len(), 1);
    assert!(symlinkarr::paths::same_path(
        &targets.secret_files[0],
        "/backup/config/secrets/rd-token"
    ));
}

#[test]
fn a_document_that_is_no_yaml_is_unreadable() {
    assert!(matches!(
        inspect_restore_targets("/c/config.yaml", "a: [1, 2"),
        Err(RestoreInspectError::Unreadable)
    ));
}

#[test]
fn blank_addresses_stand_for_this_machine() {
    let mut web = WebConfig::default();
    web.bind_address = "  ".to_string();
    assert_eq!(web.normalized_bind_address(), "127.0.0.1");
    web.bind_address = "0.0.0.0".to_string();
    assert!(!web.binds_loopback_only());
    assert!(web.requires_remote_ack());
    web.bind_address = "localhost".to_string();
    assert!(web.binds_loopback_only());
    web.bind_address = "::1".to_string();
    assert!(web.binds_loopback_only());
    web.bind_address = "127.255.0.7".to_string();
    assert!(web.binds_loopback_only());
    web.bind_address = "127.255.0.256".to_string();
    assert!(!web.binds_loopback_only());
}

#[test]
fn a_salt_may_name_a_secret_file() {
    let value: serde_yml::Value =
        serde_yml::from_str("dmm:\n  auth_salt: \"secretfile:salt\"\n").unwrap();
    assert_eq!(collect_secret_file_paths(&value, Some("/cfg")), vec!["/cfg/salt"]);
    let plain: serde_yml::Value =
        serde_yml::from_str("dmm:\n  auth_salt: \"salt\"\n").unwrap();
    assert_eq!(warn_for_plaintext_secrets(&plain), None);
}

#[test]
fn a_configuration_document_is_read() {
    let document = read_config_document(
        "/data/config.yaml",
        "backup:\n  dir: /backups\napi:\n  tmdb_api_key: \"plain\"\nplex:\n  token: \"secretfile:token\"\n",
    )
    .unwrap();
    assert_eq!(yaml_str_at(&document.value, &["backup", "path"]), Some("/backups"));
    assert_eq!(document.secret_files, vec!["/data/token"]);
    assert!(document.renamed);
    assert!(document.warning.unwrap().contains("api.tmdb_api_key"));
    assert!(read_config_document("/data/config.yaml", "a: [").is_err());
}

#[test]
fn secrets_before_the_first_error_are_filled_in() {
    let mut cfg = test_config();
    cfg.api.tmdb_api_key = "env:FIRST".to_string();
    cfg.plex.token = "env:MISSING".to_string();
    cfg.web.password = "env:FIRST".to_string();
    let replies: Vec<SecretReply> = cfg
        .secret_requests(None)
        .iter()
        .map(|request| match request {
            SecretRequest::Variable(name) if name == "FIRST" => {
                SecretReply::Found("one".to_string())
            }
            _ => missing(),
        })
        .collect();
    assert_eq!(
        cfg.resolve_secret_fields(None, &TextMap::new(), &replies),
        Err("Missing environment variable 'MISSING' for plex.token".to_string())
    );
    assert_eq!(cfg.api.tmdb_api_key, "one");
    assert_eq!(cfg.plex.token, "env:MISSING");
    assert_eq!(cfg.web.password, "env:FIRST");
}

#[test]
fn a_document_that_tells_nothing_is_named() {
    let path = "/data/config.yaml";
    let unreadable = inspect_restore_targets(path, "a: [").unwrap_err();
    assert_eq!(unreadable.message(path), "Failed to parse config file /data/config.yaml");
    let unexpected = inspect_restore_targets(path, "db_path: 3\n").unwrap_err();
    assert_eq!(
        unexpected.message(path),
        "Failed to inspect restore targets from config /data/config.yaml"
    );
}
