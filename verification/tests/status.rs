use symlinkarr::commands::status::{
    check_service, checked_services, collection_label, configured_refresh_backends,
    display_server_list, health_line, panel_rows, recent_activity_line, refresh_backends_line,
    run_status, Health, MediaServerKind, PanelRow, Reply, Service,
};
use symlinkarr::config::defaults::{default_db_path, default_log_level};
use symlinkarr::config::{
    ApiConfig, BackupConfig, BazarrConfig, CleanupPolicyConfig, Config, DaemonConfig,
    DecypharrConfig, DmmConfig, FeaturesConfig, MatchingConfig, MediaBrowserConfig, PlexConfig,
    ProwlarrConfig, RadarrConfig, RealDebridConfig, SecurityConfig, SonarrConfig, SymlinkConfig,
    TautulliConfig, WebConfig,
};
use symlinkarr::db::types::AcquisitionJobCounts;

fn config() -> Config {
    Config {
        libraries: Vec::new(),
        sources: Vec::new(),
        api: ApiConfig::default(),
        realdebrid: RealDebridConfig::default(),
        decypharr: DecypharrConfig::default(),
        dmm: DmmConfig::default(),
        backup: BackupConfig::default(),
        db_path: default_db_path(),
        log_level: default_log_level(),
        daemon: DaemonConfig::default(),
        symlink: SymlinkConfig::default(),
        matching: MatchingConfig::default(),
        prowlarr: ProwlarrConfig::default(),
        bazarr: BazarrConfig::default(),
        tautulli: TautulliConfig::default(),
        plex: PlexConfig::default(),
        emby: MediaBrowserConfig::default(),
        jellyfin: MediaBrowserConfig::default(),
        radarr: RadarrConfig::default(),
        sonarr: SonarrConfig::default(),
        sonarr_anime: SonarrConfig::default(),
        features: FeaturesConfig::default(),
        security: SecurityConfig::default(),
        cleanup: CleanupPolicyConfig::default(),
        web: WebConfig::default(),
        loaded_from: None,
        secret_files: Vec::new(),
    }
}

#[test]
fn json_takes_the_place_of_the_panel() {
    assert!(run_status(true, false).panel);
    assert!(!run_status(true, true).panel);
    assert!(run_status(false, true).json);
    assert!(!run_status(false, false).health);
}

#[test]
fn jobs_are_shown_where_there_are_any() {
    let idle = panel_rows(3, 1, 4, &AcquisitionJobCounts::default());
    assert_eq!(idle.len(), 9);
    assert_eq!(idle[3], PanelRow::Count("  Active symlinks:", 3));
    let mut jobs = AcquisitionJobCounts::default();
    jobs.failed = 2;
    let busy = panel_rows(3, 1, 4, &jobs);
    assert_eq!(busy.len(), 16);
    assert_eq!(busy[13], PanelRow::Count("  Failed:", 2));
    assert_eq!(busy[15], PanelRow::Bottom);
}

#[test]
fn refreshed_servers_are_listed() {
    let mut cfg = config();
    assert_eq!(
        refresh_backends_line(&configured_refresh_backends(&cfg)),
        "   🔁 Active refresh backends: none"
    );
    cfg.plex.url = "u".to_string();
    cfg.plex.token = "t".to_string();
    cfg.jellyfin.url = "u".to_string();
    cfg.jellyfin.api_key = "k".to_string();
    cfg.emby.url = "u".to_string();
    cfg.emby.api_key = "k".to_string();
    cfg.emby.refresh_enabled = false;
    let backends = configured_refresh_backends(&cfg);
    assert_eq!(display_server_list(&backends), "Plex, Jellyfin");
    assert_eq!(backends[1].service_key(), "jellyfin");
}

#[test]
fn services_are_asked_where_they_are_configured() {
    let mut cfg = config();
    assert_eq!(checked_services().len(), 9);
    assert_eq!(
        check_service(&cfg, Service::Prowlarr, Reply::Answered),
        Health::NotConfigured
    );
    cfg.prowlarr.url = "u".to_string();
    cfg.prowlarr.api_key = "k".to_string();
    let health = check_service(&cfg, Service::Prowlarr, Reply::Answered);
    assert_eq!(health_line(Service::Prowlarr, &health), "   ✅ Prowlarr: Connected");
    assert_eq!(
        health_line(Service::Bazarr, &Health::NotConfigured),
        "   ⚪ Bazarr: Not configured"
    );
    assert_eq!(
        health_line(Service::Radarr, &Health::Replied(Reply::Failed("refused".to_string()))),
        "   ❌ Radarr: Connection error (refused)"
    );
    assert_eq!(
        health_line(Service::Tautulli, &Health::Replied(Reply::Streams(2))),
        "   ✅ Tautulli: Connected (2 active streams)"
    );
    assert_eq!(
        health_line(
            Service::MediaServer(MediaServerKind::Plex),
            &Health::Replied(Reply::Collections(1))
        ),
        "   ✅ Plex: Connected (1 section)"
    );
    assert_eq!(collection_label(MediaServerKind::Emby, 2), "libraries");
    assert_eq!(recent_activity_line(10), "      Recent activity: 10 entries fetched");
}

#[test]
fn keys_are_in_lower_case_without_hyphens() {
    assert_eq!(Service::SonarrAnime.service_key(), "sonarr_anime");
    assert_eq!(Service::Tautulli.service_key(), "tautulli");
}
