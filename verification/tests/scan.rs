use symlinkarr::commands::report::media_type_key;
use symlinkarr::commands::scan::telemetry::{
    aggregate_skip_reasons, build_skip_reason_json, duration_ms_i64, format_phase_line,
    log_scan_telemetry,
    format_scan_details_line, AutoAcquireBatchSummary, LibraryRefreshTelemetry, MatchTelemetry,
    MatchTexts, PhaseTexts, ScanTelemetry, SourceInventoryTelemetry,
};
use symlinkarr::commands::scan::{
    acquire_gate, acquired_note, trigger_plex_refresh, build_missing_search_query,
    build_request_queue, cache_available, collect_source_items, cutoff_budget, effective_dry_run,
    enforce_refresh_batch_limit, evaluating_note, failed_batch_note, failed_plex_refresh,
    finish_plex_refresh, lookup_item_imdb_id, missing_budget, no_plex_refresh, pauses_after,
    in_target_folder, plan_note_lines, refresh_note_lines, restrict_to_folder, run_scan,
    scan_linker, scan_result, scan_run_record, unmatched_items,
    wants_plex_refresh, AcquireGate, CacheCounts, ImdbLookup, PlexRefreshBatch, PlexRefreshPlan,
    ScanOutcome, ScanStep, SourceScan,
};
use symlinkarr::commands::selected_libraries;
use symlinkarr::config::defaults::{default_db_path, default_log_level};
use symlinkarr::config::{
    ApiConfig, BackupConfig, BazarrConfig, CleanupPolicyConfig, Config, ContentType, DaemonConfig,
    DecypharrConfig, DmmConfig, FeaturesConfig, LibraryConfig, MatchingConfig, MediaBrowserConfig,
    PlexConfig, ProwlarrConfig, RadarrConfig, RealDebridConfig, SecurityConfig, SonarrConfig,
    SymlinkConfig, TautulliConfig, WebConfig,
};
use symlinkarr::db::types::ScanRunOrigin;
use symlinkarr::linker::{DeadLinkSummary, LinkProcessSummary};
use symlinkarr::models::{LibraryItem, MatchResult, MediaId, MediaType, SourceItem};
use symlinkarr::tables::TextMap;

fn config() -> Config {
    Config {
        libraries: Vec::new(),
        sources: Vec::new(),
        api: ApiConfig::default(),
        realdebrid: RealDebridConfig::default(),
        decypharr: DecypharrConfig::default(),
        dmm: DmmConfig::default(),
        backup: BackupConfig::default(),
        db_path: default_db_path(),
        log_level: default_log_level(),
        daemon: DaemonConfig::default(),
        symlink: SymlinkConfig::default(),
        matching: MatchingConfig::default(),
        prowlarr: ProwlarrConfig::default(),
        bazarr: BazarrConfig::default(),
        tautulli: TautulliConfig::default(),
        plex: PlexConfig::default(),
        emby: MediaBrowserConfig::default(),
        jellyfin: MediaBrowserConfig::default(),
        radarr: RadarrConfig::default(),
        sonarr: SonarrConfig::default(),
        sonarr_anime: SonarrConfig::default(),
        features: FeaturesConfig::default(),
        security: SecurityConfig::default(),
        cleanup: CleanupPolicyConfig::default(),
        web: WebConfig::default(),
        loaded_from: None,
        secret_files: Vec::new(),
    }
}

fn counts(entries: &[(&str, u64)]) -> TextMap<u64> {
    let mut map = TextMap::new();
    for (reason, count) in entries {
        map.insert(reason, *count);
    }
    map
}

#[test]
fn scan_missing_auto_acquire_skips_tv_libraries() {
    let tv = LibraryItem {
        id: MediaId::Tvdb(81189),
        path: "/tmp/Breaking Bad {tvdb-81189}".to_string(),
        title: "Breaking Bad".to_string(),
        library_name: "Series".to_string(),
        media_type: MediaType::Tv,
        content_type: ContentType::Tv,
    };
    let movie = LibraryItem {
        id: MediaId::Tmdb(603),
        path: "/tmp/The Matrix {tmdb-603}".to_string(),
        title: "The Matrix 1999".to_string(),
        library_name: "Movies".to_string(),
        media_type: MediaType::Movie,
        content_type: ContentType::Movie,
    };

    assert_eq!(build_missing_search_query(&tv), None);
    assert_eq!(
        build_missing_search_query(&movie),
        Some("The Matrix 1999".to_string())
    );
}

#[test]
fn tests_missing_auto_acquire_skips_tv_libraries() {
    let tv = LibraryItem {
        id: MediaId::Tvdb(81189),
        path: "/tmp/Breaking Bad {tvdb-81189}".to_string(),
        title: "Breaking Bad".to_string(),
        library_name: "Series".to_string(),
        media_type: MediaType::Tv,
        content_type: ContentType::Tv,
    };
    let movie = LibraryItem {
        id: MediaId::Tmdb(603),
        path: "/tmp/The Matrix {tmdb-603}".to_string(),
        title: "The Matrix 1999".to_string(),
        library_name: "Movies".to_string(),
        media_type: MediaType::Movie,
        content_type: ContentType::Movie,
    };

    assert_eq!(build_missing_search_query(&tv), None);
    assert_eq!(
        build_missing_search_query(&movie),
        Some("The Matrix 1999".to_string())
    );
}

#[test]
fn scan_cache_hit_ratio_is_based_on_item_mix() {
    let telemetry = SourceInventoryTelemetry {
        cached_items: 8,
        filesystem_items: 2,
        ..SourceInventoryTelemetry::default()
    };

    assert_eq!(
        telemetry.cache_hit_ratio().map(|(hits, all)| hits as f64 / all as f64),
        Some(0.8)
    );
}

#[test]
fn tests_cache_hit_ratio_is_based_on_item_mix() {
    let telemetry = SourceInventoryTelemetry {
        cached_items: 8,
        filesystem_items: 2,
        ..SourceInventoryTelemetry::default()
    };

    assert_eq!(
        telemetry.cache_hit_ratio().map(|(hits, all)| hits as f64 / all as f64),
        Some(0.8)
    );
}

#[test]
fn enforce_refresh_batch_limit_keeps_small_plans_intact() {
    let plan = PlexRefreshPlan {
        batches: vec![
            PlexRefreshBatch {
                section_key: "1".to_string(),
                section_title: "Anime".to_string(),
                refresh_path: "/library/a".to_string(),
                covered_paths: 1,
                coalesced_to_root: false,
            },
            PlexRefreshBatch {
                section_key: "1".to_string(),
                section_title: "Anime".to_string(),
                refresh_path: "/library/b".to_string(),
                covered_paths: 1,
                coalesced_to_root: false,
            },
        ],
        ..PlexRefreshPlan::default()
    };

    let (limited, dropped) = enforce_refresh_batch_limit(plan, 2);
    assert_eq!(limited.batches.len(), 2);
    assert_eq!(dropped, 0);
}

#[test]
fn enforce_refresh_batch_limit_truncates_large_plans() {
    let plan = PlexRefreshPlan {
        batches: vec![
            PlexRefreshBatch {
                section_key: "1".to_string(),
                section_title: "Anime".to_string(),
                refresh_path: "/library/a".to_string(),
                covered_paths: 1,
                coalesced_to_root: false,
            },
            PlexRefreshBatch {
                section_key: "1".to_string(),
                section_title: "Anime".to_string(),
                refresh_path: "/library/b".to_string(),
                covered_paths: 1,
                coalesced_to_root: false,
            },
            PlexRefreshBatch {
                section_key: "1".to_string(),
                section_title: "Anime".to_string(),
                refresh_path: "/library/c".to_string(),
                covered_paths: 1,
                coalesced_to_root: false,
            },
        ],
        ..PlexRefreshPlan::default()
    };

    let (limited, dropped) = enforce_refresh_batch_limit(plan, 2);
    assert_eq!(limited.batches.len(), 2);
    assert_eq!(limited.batches[0].refresh_path, "/library/a".to_string());
    assert_eq!(limited.batches[1].refresh_path, "/library/b".to_string());
    assert_eq!(dropped, 1);
}

#[test]
fn aggregate_skip_reasons_merges_match_link_dead_and_auto_acquire_counts() {
    let telemetry = ScanTelemetry {
        match_stats: MatchTelemetry {
            skip_reasons: counts(&[
                ("ambiguous_match", 2),
                ("matcher_metadata_mismatch", 3),
            ]),
            ..MatchTelemetry::default()
        },
        ..ScanTelemetry::default()
    };
    let link_summary = LinkProcessSummary {
        skip_reasons: counts(&[("already_correct", 5)]),
        ..LinkProcessSummary::default()
    };
    let dead_summary = DeadLinkSummary {
        skip_reasons: counts(&[("not_symlink", 1)]),
        ..DeadLinkSummary::default()
    };
    let auto_acquire_summary = AutoAcquireBatchSummary {
        reason_counts: counts(&[("auto_acquire_no_result_prowlarr_empty", 4)]),
        ..AutoAcquireBatchSummary::default()
    };

    let reasons = aggregate_skip_reasons(
        &telemetry,
        &link_summary,
        &dead_summary,
        &auto_acquire_summary,
    );

    assert_eq!(reasons.get("ambiguous_match"), Some(&2));
    assert_eq!(reasons.get("matcher_metadata_mismatch"), Some(&3));
    assert_eq!(reasons.get("already_correct"), Some(&5));
    assert_eq!(reasons.get("not_symlink"), Some(&1));
    assert_eq!(
        reasons.get("auto_acquire_no_result_prowlarr_empty"),
        Some(&4)
    );
}

#[test]
fn scan_details_line_marks_aborted_refreshes() {
    let telemetry = ScanTelemetry {
        plex_refresh_stats: LibraryRefreshTelemetry {
            planned_batches: 4,
            refreshed_batches: 0,
            skipped_batches: 4,
            capped_batches: 2,
            aborted_due_to_cap: true,
            ..LibraryRefreshTelemetry::default()
        },
        ..ScanTelemetry::default()
    };
    let summary = format_scan_details_line(&telemetry, 0, &LinkProcessSummary::default(), "n/a");

    assert!(summary.contains("refresh=0/4 skipped=4 capped=2 aborted"));
}

#[test]
fn scan_details_line_marks_deferred_refreshes() {
    let telemetry = ScanTelemetry {
        plex_refresh_stats: LibraryRefreshTelemetry {
            planned_batches: 1,
            deferred_due_to_lock: true,
            ..LibraryRefreshTelemetry::default()
        },
        ..ScanTelemetry::default()
    };
    let summary = format_scan_details_line(&telemetry, 0, &LinkProcessSummary::default(), "n/a");

    assert!(summary.contains("refresh=0/1 skipped=0 capped=0 deferred"));
}

fn movie(id: u64, title: &str) -> LibraryItem {
    LibraryItem {
        id: MediaId::Tmdb(id),
        path: format!("/library/{title} {{tmdb-{id}}}"),
        title: title.to_string(),
        library_name: "Movies".to_string(),
        media_type: MediaType::Movie,
        content_type: ContentType::Movie,
    }
}

fn match_of(item: LibraryItem) -> MatchResult {
    MatchResult {
        library_item: item,
        source_item: SourceItem {
            path: "/rd/x.mkv".to_string(),
            parsed_title: "x".to_string(),
            season: None,
            episode: None,
            episode_end: None,
            quality: None,
            extension: "mkv".to_string(),
            year: None,
        },
        matched_alias: "x".to_string(),
        episode_title: None,
    }
}

fn steps(cfg: &Config, dry_run: bool, search_missing: bool, linked: u64) -> Vec<ScanStep> {
    let mut list = vec![ScanStep::CheckDirectories];
    while *list.last().unwrap() != ScanStep::Finished {
        let next = run_scan(cfg, dry_run, search_missing, linked, *list.last().unwrap());
        list.push(next);
        assert!(list.len() < 20);
    }
    list
}

#[test]
fn a_scan_takes_its_steps_in_order() {
    let mut cfg = config();
    assert_eq!(
        steps(&cfg, false, false, 5),
        vec![
            ScanStep::CheckDirectories,
            ScanStep::ScanLibraries,
            ScanStep::ListSources,
            ScanStep::Match,
            ScanStep::EnrichTitles,
            ScanStep::Link,
            ScanStep::RecordScan,
            ScanStep::ShowTelemetry,
            ScanStep::RecordRun,
            ScanStep::Finished,
        ]
    );
    cfg.bazarr.url = "http://bazarr".to_string();
    cfg.bazarr.api_key = "k".to_string();
    cfg.plex.url = "http://plex".to_string();
    cfg.plex.token = "t".to_string();
    let all = steps(&cfg, false, true, 5);
    assert_eq!(all.len(), 15);
    assert!(all.contains(&ScanStep::TriggerBazarr) && all.contains(&ScanStep::RefreshPlex));
    let dry = steps(&cfg, true, true, 5);
    assert!(!dry.contains(&ScanStep::TriggerBazarr) && !dry.contains(&ScanStep::RefreshPlex));
    let idle = steps(&cfg, false, true, 0);
    assert!(!idle.contains(&ScanStep::TriggerBazarr) && !idle.contains(&ScanStep::RefreshPlex));
    assert!(idle.contains(&ScanStep::SweepDeadLinks) && idle.contains(&ScanStep::Acquire));
    cfg.symlink.dry_run = true;
    assert!(effective_dry_run(&cfg, false));
}

#[test]
fn acquiring_needs_an_indexer_and_a_downloader() {
    let mut cfg = config();
    cfg.decypharr.url = String::new();
    cfg.dmm.url = String::new();
    assert_eq!(acquire_gate(&cfg, false), AcquireGate::NotAsked);
    assert_eq!(acquire_gate(&cfg, true), AcquireGate::NoIndexer);
    cfg.dmm.url = "http://dmm".to_string();
    assert_eq!(acquire_gate(&cfg, true), AcquireGate::NoDownloader);
    cfg.decypharr.url = "http://decypharr".to_string();
    assert_eq!(acquire_gate(&cfg, true), AcquireGate::Acquire);
    assert!(AcquireGate::NoIndexer.warning(false).unwrap().contains("neither Prowlarr nor DMM"));
    assert!(AcquireGate::NoDownloader.warning(true).unwrap().contains("Decypharr"));
    assert!(AcquireGate::Acquire.warning(false).is_some());
    assert_eq!(AcquireGate::Acquire.warning(true), None);
    assert_eq!(AcquireGate::NotAsked.warning(false), None);
}

#[test]
fn the_cache_counts_from_four_fifths() {
    let counts = |cached, total| Some(CacheCounts { cached, total });
    assert!(cache_available(counts(80, 100)));
    assert!(!cache_available(counts(79, 100)));
    assert!(!cache_available(counts(0, 0)));
    assert!(!cache_available(None));
    let telemetry = collect_source_items(
        counts(4, 5),
        &vec![SourceScan::Cached(7), SourceScan::Filesystem(2), SourceScan::Cached(1)],
    );
    assert!(telemetry.cache_enabled);
    assert_eq!(telemetry.cache_downloaded_torrents, Some(4));
    assert_eq!(telemetry.cache_total_torrents, Some(5));
    assert_eq!((telemetry.cached_sources, telemetry.filesystem_sources), (2, 1));
    assert_eq!((telemetry.cached_items, telemetry.filesystem_items), (8, 2));
}

#[test]
fn requests_are_for_what_is_missing() {
    let mut cfg = config();
    cfg.decypharr.arr_name_movie = "radarr".to_string();
    let mut show = movie(9, "Some Long Show");
    show.media_type = MediaType::Tv;
    let items = vec![
        movie(1, "The Matrix"),
        movie(2, "Heat"),
        show,
        movie(3, " The Matrix "),
        movie(4, "Blade Runner"),
        movie(5, "Star Wars"),
    ];
    let missing = unmatched_items(&items, &vec![match_of(movie(5, "Star Wars"))]);
    assert_eq!(missing.len(), 5);
    let queue = build_request_queue(&cfg, &missing, 10);
    let queries: Vec<&str> = queue.requests.iter().map(|r| r.query.as_str()).collect();
    assert_eq!(queries, vec!["The Matrix", "Blade Runner"]);
    assert_eq!(queue.requests[0].arr, "radarr");
    assert_eq!(queue.requests[0].categories, vec![2000]);
    assert_eq!(queue.requests[0].relink_value, "tmdb-1");
    assert_eq!(
        queue.notes,
        vec!["      ⚠️  'Heat' → skipped auto-grab (query too ambiguous)"]
    );
    let capped = build_request_queue(&cfg, &missing, 1);
    assert_eq!(capped.requests.len(), 1);
    assert_eq!(
        capped.notes,
        vec!["\n   ⚠️  Auto-acquire: reached safety limit of 1 requests. Stopping queue build."]
    );
    assert!(build_request_queue(&cfg, &missing, 0).requests.is_empty());
}

#[test]
fn budgets_keep_room_for_upgrades() {
    assert_eq!(missing_budget(10, 3), Some(4));
    assert_eq!(missing_budget(3, 0), Some(3));
    assert_eq!(missing_budget(3, 3), None);
    assert_eq!(cutoff_budget(10, 7), Some(3));
    assert_eq!(cutoff_budget(10, 10), None);
    assert_eq!(lookup_item_imdb_id(true, &movie(1, "A B")), Some(ImdbLookup::Movie(1)));
    assert_eq!(lookup_item_imdb_id(false, &movie(1, "A B")), None);
}

fn batch(path: &str, covered_paths: usize) -> PlexRefreshBatch {
    PlexRefreshBatch {
        section_key: "1".to_string(),
        section_title: "Anime".to_string(),
        refresh_path: path.to_string(),
        covered_paths,
        coalesced_to_root: false,
    }
}

fn plan() -> PlexRefreshPlan {
    PlexRefreshPlan {
        batches: vec![batch("/library/a", 2), batch("/library/b", 3), batch("/library/c", 1)],
        unique_paths: 6,
        coalesced_batches: 1,
        coalesced_paths: 3,
        unresolved_paths: vec!["/elsewhere".to_string()],
    }
}

#[test]
fn a_refresh_over_the_limit_is_given_up() {
    let mut cfg = config();
    cfg.plex.max_refresh_batches_per_run = 2;
    assert!(cfg.plex.abort_refresh_when_capped);
    let (batches, begun) = trigger_plex_refresh(&cfg, 6, plan());
    assert!(batches.is_empty());
    assert!(begun.aborted_due_to_cap);
    assert_eq!(begun.capped_batches, 1);
    assert_eq!(begun.skipped_batches, 4);
    let lines = plan_note_lines(&vec!["/elsewhere".to_string()], &begun, 2);
    assert_eq!(lines.len(), 2);
    assert_eq!(lines[0], "   ⚠️  Plex: no matching library section found for /elsewhere");
}

#[test]
fn a_refresh_over_the_limit_is_cut_where_it_may_be() {
    let mut cfg = config();
    cfg.plex.max_refresh_batches_per_run = 2;
    cfg.plex.abort_refresh_when_capped = false;
    let (batches, begun) = trigger_plex_refresh(&cfg, 6, plan());
    assert_eq!(batches.len(), 2);
    assert_eq!((begun.planned_batches, begun.skipped_batches), (3, 2));
    let lines = plan_note_lines(&Vec::new(), &begun, 2);
    assert_eq!(
        lines,
        vec!["   ⚠️  Plex: capped refresh plan at 2 request(s); 1 request(s) skipped to reduce load"]
    );
    let done = finish_plex_refresh(begun, &batches, &vec![true, false]);
    assert_eq!((done.refreshed_batches, done.refreshed_paths_covered), (1, 2));
    assert_eq!((done.failed_batches, done.skipped_batches), (1, 3));
    assert_eq!(refresh_note_lines(&done).len(), 3);
    assert_eq!(
        failed_batch_note(&batches[1], "gone"),
        "   ⚠️  Plex: refresh failed for /library/b (section 'Anime'): gone"
    );
}

#[test]
fn a_refresh_needs_paths_and_a_server() {
    let mut cfg = config();
    assert!(!wants_plex_refresh(&cfg, 1));
    cfg.plex.url = "http://plex".to_string();
    cfg.plex.token = "t".to_string();
    assert!(wants_plex_refresh(&cfg, 1));
    assert!(!wants_plex_refresh(&cfg, 0));
    assert_eq!(no_plex_refresh(3).requested_paths, 3);
    assert_eq!(failed_plex_refresh(3).skipped_batches, 1);
    assert!(pauses_after(&cfg, 0, 2));
    assert!(!pauses_after(&cfg, 1, 2));
}

#[test]
fn what_a_scan_did_is_recorded() {
    let mut links = LinkProcessSummary::default();
    links.created = 2;
    links.updated = 1;
    links.skipped = 4;
    let mut dead = DeadLinkSummary::default();
    dead.removed = 1;
    dead.skipped = 2;
    let mut telemetry = ScanTelemetry::default();
    telemetry.linking = 66;
    let mut acquired = AutoAcquireBatchSummary::default();
    acquired.total = 3;
    acquired.submitted = 2;
    let outcome = ScanOutcome {
        origin: ScanRunOrigin::Cli,
        dry_run: false,
        library_filter: Some("Anime".to_string()),
        run_token: None,
        search_missing: true,
        library_items: 42,
        source_items: 100,
        matches: 38,
        links,
        dead,
        telemetry,
        acquired,
        missing_requests: 5,
        cutoff_requests: 6,
        skip_reason_json: None,
        media_server_refresh_json: None,
        cache_hit_ratio: None,
    };
    let record = scan_run_record(&outcome);
    assert_eq!(record.library_items_found, 42);
    assert_eq!(record.links_skipped, 6);
    assert_eq!(record.linking_ms, 66);
    assert_eq!(record.auto_acquire_requests, 3);
    assert_eq!(record.auto_acquire_cutoff_requests, 6);
    assert_eq!(scan_result(&outcome), (3, 1));
    assert_eq!(
        acquired_note(&outcome.acquired).unwrap(),
        "\n   📡 Auto-acquire summary: submitted=2, linked=0, completed_unlinked=0, no_result=0, blocked=0, failed=0"
    );
    assert_eq!(acquired_note(&AutoAcquireBatchSummary::default()), None);
    assert_eq!(evaluating_note(0), None);
    assert!(evaluating_note(2).unwrap().contains("evaluating 2 unmatched"));
}

#[test]
fn skip_reasons_are_written_as_json() {
    let mut links = LinkProcessSummary::default();
    links.skip_reasons = counts(&[("already_correct", 5), ("a \"b\"", 1)]);
    let text = build_skip_reason_json(
        &ScanTelemetry::default(),
        &links,
        &DeadLinkSummary::default(),
        &AutoAcquireBatchSummary::default(),
    )
    .unwrap();
    assert_eq!(text, r#"{"a \"b\"":1,"already_correct":5}"#);
    assert_eq!(
        build_skip_reason_json(
            &ScanTelemetry::default(),
            &LinkProcessSummary::default(),
            &DeadLinkSummary::default(),
            &AutoAcquireBatchSummary::default(),
        ),
        None
    );
}

#[test]
fn times_are_shown_and_kept_in_range() {
    assert_eq!(duration_ms_i64(7), 7);
    assert_eq!(duration_ms_i64(u128::MAX), i64::MAX);
    let phases = PhaseTexts {
        runtime_checks: "0.1s".to_string(),
        library_scan: "0.2s".to_string(),
        source_inventory: "0.3s".to_string(),
        matching: "0.4s".to_string(),
        title_enrichment: "0.5s".to_string(),
        linking: "0.6s".to_string(),
        refresh: "0.7s".to_string(),
        dead_link_sweep: "0.8s".to_string(),
    };
    let line = format_phase_line(&phases);
    assert!(line.contains("checks=0.1s | library=0.2s | source=0.3s | match=0.4s"));
}

#[test]
fn libraries_are_selected_by_name() {
    let library = |name: &str| LibraryConfig {
        name: name.to_string(),
        path: "/l".to_string(),
        media_type: MediaType::Movie,
        content_type: None,
        depth: 1,
    };
    let libraries = vec![library("Movies"), library("Anime")];
    assert_eq!(selected_libraries(&libraries, None).unwrap().len(), 2);
    assert_eq!(selected_libraries(&libraries, Some("Anime")).unwrap()[0].name, "Anime");
    assert!(selected_libraries(&libraries, Some("Nothing")).is_err());
    assert_eq!(media_type_key(MediaType::Movie), "movie");
}

fn source_item(path: &str) -> SourceItem {
    SourceItem {
        path: path.to_string(),
        parsed_title: String::new(),
        season: None,
        episode: None,
        episode_end: None,
        quality: None,
        extension: "mkv".to_string(),
        year: None,
    }
}

#[test]
fn test_targeted_scan_restricts_to_folder() {
    let target = "/source/Breaking.Bad.S01.720p/Breaking.Bad.S01E01.mkv";
    let other = "/source/Other.Show.S01/Other.Show.S01E01.mkv";
    let found = vec![source_item(target), source_item(other)];
    let all = restrict_to_folder(found.clone(), "/source", None);
    assert_eq!(all, found);
    let kept = restrict_to_folder(found, "/source", Some("Breaking.Bad.S01.720p"));
    assert_eq!(kept.len(), 1);
    assert_eq!(kept[0].path, target);
    assert!(!in_target_folder(other, "/source", Some("Breaking.Bad.S01.720p")));
    assert!(!in_target_folder(
        "/source/Breaking.Bad.S01.720p.x/a.mkv",
        "/source",
        Some("Breaking.Bad.S01.720p")
    ));
}

#[test]
fn the_linker_of_a_dry_scan_changes_nothing() {
    let mut cfg = config();
    assert!(!scan_linker(&cfg, false).dry_run);
    assert!(scan_linker(&cfg, true).dry_run);
    cfg.symlink.dry_run = true;
    assert!(scan_linker(&cfg, false).dry_run);
}

#[test]
fn a_scan_starts_with_nothing_counted() {
    let telemetry = ScanTelemetry::default();
    assert_eq!(telemetry.plex_refresh_stats, LibraryRefreshTelemetry::default());
    assert_eq!(telemetry.plex_refresh_stats.refreshed_batches, 0);
    assert!(!telemetry.plex_refresh_stats.aborted_due_to_cap);
    assert_eq!(telemetry.source_inventory_stats, SourceInventoryTelemetry::default());
    assert_eq!(telemetry.match_stats.scored_candidates, 0);
}

#[test]
fn a_run_stays_under_its_limit() {
    for queued in 0..=10 {
        let missing = missing_budget(10, queued).unwrap_or(0);
        let cutoff = cutoff_budget(10, queued + missing).unwrap_or(0);
        assert!(queued + missing + cutoff <= 10);
    }
    assert_eq!(missing_budget(10, 2), Some(4));
    assert_eq!(cutoff_budget(10, 6), Some(4));
}

#[test]
fn a_scan_is_logged_and_shown() {
    let second = || "1.0s".to_string();
    let phases = PhaseTexts {
        runtime_checks: second(),
        library_scan: "2.0s".to_string(),
        source_inventory: second(),
        matching: second(),
        title_enrichment: second(),
        linking: second(),
        refresh: "3.5s".to_string(),
        dead_link_sweep: second(),
    };
    let times = MatchTexts {
        metadata_alias_prep: "0.1s".to_string(),
        candidate_scan: "0.2s".to_string(),
        destination_reduce: "0.3s".to_string(),
    };
    let mut telemetry = ScanTelemetry::default();
    telemetry.source_inventory_stats.cached_items = 4;
    telemetry.match_stats.worker_count = 8;
    telemetry.plex_refresh_stats.aborted_due_to_cap = true;
    telemetry.plex_refresh_stats.unresolved_paths = 2;
    let links = LinkProcessSummary::default();
    let told = log_scan_telemetry(&phases, &times, &telemetry, 0, &links, "80%");
    assert_eq!(
        told.logged,
        vec![
            "Scan phase telemetry: runtime_checks=1.0s, library_scan=2.0s, \
             source_inventory=1.0s, matching=1.0s, title_enrichment=1.0s, linking=1.0s, \
             media_refresh=3.5s, dead_link_sweep=1.0s",
            "Scan telemetry details: cache_hit_ratio=80%, cached_items=4, filesystem_items=0, \
             metadata_alias_prep=0.1s, candidate_scan=0.2s, destination_reduce=0.3s, \
             metadata_errors=0, worker_count=8, candidate_slots=0, scored_candidates=0, \
             exact_id_hits=0, ambiguous_skipped=0, refresh_requested_paths=0, \
             refresh_unique_paths=0, refresh_batches=0, coalesced_batches=0, \
             refreshed_batches=0, refreshed_paths_covered=0, skipped_refresh_batches=0, \
             capped_refresh_batches=0, refresh_aborted_due_to_cap=true, \
             refresh_deferred_due_to_lock=false, failed_refresh_batches=0, \
             unresolved_refresh_paths=2",
        ]
    );
    assert_eq!(told.shown.len(), 2);
    assert_eq!(told.shown[0], format_phase_line(&phases));
}
