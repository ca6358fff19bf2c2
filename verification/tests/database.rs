use symlinkarr::db::acquisition_jobs::{
    enqueue_acquisition_job, list_acquisition_jobs_query, recover_stale_downloading_jobs,
    recovery_retry, row_to_acquisition_job, should_reset_acquisition_job, stale_cutoff,
    update_acquisition_job_state, DownloadingRow, JobRow, JobWrite,
};
use symlinkarr::db::anime_overrides::{
    map_anime_search_override_row, upsert_anime_search_override, OverrideRow, OverrideWrite,
};
use symlinkarr::db::links::{
    chunk_texts, dedupe_dead_link_seeds, dedupe_link_records, episode_pattern,
    filter_dead_link_seeds_by_roots, filter_link_records_by_roots, has_active_link_for_episode,
    normalize_scoped_root_texts,
    push_target_root_like_clause, row_to_link_record, scoped_query, LinkRow, ScopedQuery,
};
use symlinkarr::db::migrations::{
    apply_migration, infer_legacy_schema_version, migrate_down_one, migrate_to, run_migrations,
    LegacySchema, SchemaStep, LATEST_SCHEMA_VERSION,
};
use symlinkarr::db::moments::{first_reading, parse_datetime, parse_optional_datetime};
use symlinkarr::db::operations::{
    acquisition_outcome, clamped_limit, is_final_status, stale_modifier,
};
use symlinkarr::db::scan_runs::{link_event, record_scan_run, row_to_scan_history_record, web_stats};
use symlinkarr::db::scheduler::{run_times, JobRunStatus};
use symlinkarr::db::types::{
    AcquisitionJobRecord, AcquisitionJobSeed, AcquisitionJobStatus, AcquisitionJobUpdate,
    AcquisitionRelinkKind, AnimeSearchOverrideSeed, DeadLinkSeed, Moment, ScanRunOrigin,
    ScanRunRecord,
};
use symlinkarr::db::{escape_sql_like, like_prefix_pattern};
use symlinkarr::models::{LinkRecord, LinkStatus, MediaType};

fn sample_link(source: &str, target: &str) -> LinkRecord {
    LinkRecord {
        id: None,
        source_path: source.to_string(),
        target_path: target.to_string(),
        media_id: "tvdb-12345".to_string(),
        media_type: MediaType::Tv,
        status: LinkStatus::Active,
        created_at: None,
        updated_at: None,
    }
}

fn noisy_roots() -> Vec<String> {
    let mut roots: Vec<String> = (0..1200).map(|i| format!("/plex/Noise/{i}")).collect();
    roots.push("/plex/Anime".to_string());
    roots
}

#[test]
fn test_get_active_links_scoped_batches_large_root_lists() {
    let roots = noisy_roots();
    match scoped_query(Some(&roots)) {
        ScopedQuery::Filtered(list) => {
            let records = vec![
                sample_link("/mnt/rd/anime/ep01.mkv", "/plex/Anime/Show/S01E01.mkv"),
                sample_link("/mnt/rd/x.mkv", "/plex/Other/x.mkv"),
            ];
            let scoped = filter_link_records_by_roots(&records, &list);
            assert_eq!(scoped.len(), 1);
            assert_eq!(scoped[0].target_path, "/plex/Anime/Show/S01E01.mkv");
        }
        other => panic!("unexpected {other:?}"),
    }
}

#[test]
fn test_get_dead_link_seeds_scoped_batches_large_root_lists() {
    let seed = |target: &str| DeadLinkSeed {
        source_path: "/mnt/rd/anime/ep01.mkv".to_string(),
        target_path: target.to_string(),
        media_id: "tvdb-12345".to_string(),
        media_type: MediaType::Tv,
    };
    let seeds = vec![seed("/plex/Anime/Show/S01E01.mkv"), seed("/plex/Animes/x.mkv")];
    let scoped = filter_dead_link_seeds_by_roots(&seeds, &noisy_roots());
    assert_eq!(scoped.len(), 1);
    assert_eq!(scoped[0].target_path, "/plex/Anime/Show/S01E01.mkv");
    let twice = vec![seed("/a"), seed("/b"), seed("/a")];
    assert_eq!(dedupe_dead_link_seeds(&twice).len(), 2);
}

#[test]
fn few_roots_are_asked_for_in_the_query() {
    assert_eq!(scoped_query(None), ScopedQuery::All);
    let roots = vec!["/b".to_string(), "/a".to_string(), "/b".to_string()];
    assert_eq!(
        scoped_query(Some(&roots)),
        ScopedQuery::Chunked(vec![vec!["/a".to_string(), "/b".to_string()]])
    );
    assert_eq!(
        normalize_scoped_root_texts(Some(&roots)),
        Some(vec!["/a".to_string(), "/b".to_string()])
    );
    let bound = push_target_root_like_clause("SELECT 1", &vec!["/a_b".to_string()]);
    assert!(bound.sql.starts_with("SELECT 1"));
    assert!(bound.sql.contains("target_path LIKE ? ESCAPE '\\'"));
    assert_eq!(bound.binds, vec!["/a\\_b/%"]);
    let chunks = chunk_texts(&noisy_roots(), 250);
    assert_eq!(chunks.len(), 5);
    assert_eq!(chunks[4].len(), 201);
    assert_eq!(chunks.concat(), noisy_roots());
}

#[test]
fn links_are_kept_once() {
    let records = vec![
        sample_link("/rd/a", "/plex/a"),
        sample_link("/rd/b", "/plex/a"),
        sample_link("/rd/c", "/plex/c"),
    ];
    let kept = dedupe_link_records(&records);
    assert_eq!(kept.len(), 2);
    assert_eq!(kept[0].source_path, "/rd/a");
}

#[test]
fn stored_links_are_read() {
    let row = LinkRow {
        id: 7,
        source_path: "/rd/a".to_string(),
        target_path: "/plex/a".to_string(),
        media_id: "tmdb-1".to_string(),
        media_type: "movie".to_string(),
        status: "dead".to_string(),
        created_at: None,
        updated_at: Some("2024-01-01 00:00:00".to_string()),
    };
    let record = row_to_link_record(row);
    assert_eq!(record.id, Some(7));
    assert_eq!(record.media_type, MediaType::Movie);
    assert_eq!(record.status, LinkStatus::Dead);
}

fn creates_table(steps: &[SchemaStep], wanted: &str) -> bool {
    steps.iter().any(|step| matches!(step, SchemaStep::CreateTable { table, .. } if *table == wanted))
}

fn adds_column(wanted_table: &str, wanted: &str) -> bool {
    all_steps().iter().any(|step| match step {
        SchemaStep::AddColumn { table, column, .. } => *table == wanted_table && *column == wanted,
        SchemaStep::CreateTable { table, columns } => {
            *table == wanted_table && columns.contains(wanted)
        }
        _ => false,
    })
}

fn all_steps() -> Vec<SchemaStep> {
    run_migrations(0).into_iter().flat_map(|v| apply_migration(v).unwrap()).collect()
}

#[test]
fn test_migrations_can_move_down_and_up() {
    assert_eq!(run_migrations(0), (1..=LATEST_SCHEMA_VERSION).collect::<Vec<i64>>());
    assert!(run_migrations(LATEST_SCHEMA_VERSION).is_empty());
    let down = migrate_to(LATEST_SCHEMA_VERSION, 2).unwrap();
    assert!(down.up.is_empty());
    assert_eq!(down.down, (3..=LATEST_SCHEMA_VERSION).rev().collect::<Vec<i64>>());
    let mut dropped: Vec<&'static str> = Vec::new();
    for version in &down.down {
        for step in migrate_down_one(*version).unwrap() {
            if let SchemaStep::DropTable { table } = step {
                dropped.push(table);
            }
        }
    }
    for table in ["scan_runs", "link_events", "acquisition_jobs", "anime_search_overrides"] {
        assert!(dropped.contains(&table));
        assert!(creates_table(&all_steps(), table));
    }
    assert!(!dropped.contains(&"links"));
    let up = migrate_to(2, LATEST_SCHEMA_VERSION).unwrap();
    assert_eq!(up.up, (3..=LATEST_SCHEMA_VERSION).collect::<Vec<i64>>());
    assert!(up.down.is_empty());
}

#[test]
fn test_latest_migration_creates_links_status_target_index() {
    assert!(all_steps().iter().any(
        |step| matches!(step, SchemaStep::CreateIndex { index, .. } if *index == "idx_links_status_target")
    ));
}

#[test]
fn test_latest_migration_creates_plex_refresh_abort_column() {
    assert!(adds_column("scan_runs", "plex_refresh_aborted_due_to_cap"));
}

#[test]
fn test_latest_migration_creates_media_server_refresh_json_column() {
    assert!(adds_column("scan_runs", "media_server_refresh_json"));
}

#[test]
fn test_latest_migration_creates_skip_reason_json_column() {
    assert!(adds_column("scan_runs", "skip_reason_json"));
}

#[test]
fn test_latest_migration_creates_scan_run_origin_column() {
    assert!(adds_column("scan_runs", "origin"));
}

#[test]
fn test_latest_migration_creates_daemon_heartbeat_table() {
    assert!(creates_table(&all_steps(), "daemon_heartbeat"));
}

#[test]
fn test_latest_migration_creates_anime_search_overrides_table() {
    assert!(creates_table(&all_steps(), "anime_search_overrides"));
}

#[test]
fn unknown_versions_are_errors() {
    assert!(apply_migration(0).is_err());
    assert!(apply_migration(LATEST_SCHEMA_VERSION + 1).is_err());
    assert!(migrate_down_one(LATEST_SCHEMA_VERSION + 1).is_err());
    let none = LegacySchema {
        has_acquisition_jobs: false,
        has_auto_acquire_requests: false,
        has_query_hints: false,
        has_imdb_id: false,
        has_link_events: false,
        has_scan_runs: false,
        has_rd_torrents: false,
        has_links: false,
    };
    assert_eq!(infer_legacy_schema_version(&none), 0);
    let step = SchemaStep::DropTable { table: "scan_runs" };
    assert_eq!(step.sql(), "DROP TABLE IF EXISTS scan_runs");
}

fn stored(write: OverrideWrite) -> OverrideRow {
    OverrideRow {
        media_id: write.media_id,
        preferred_title: write.preferred_title,
        extra_hints_json: write.extra_hints_json,
        note: write.note,
        created_at: "2024-01-01".to_string(),
        updated_at: "2024-01-02".to_string(),
    }
}

#[test]
fn test_anime_search_override_roundtrip_and_update() {
    let write = upsert_anime_search_override(&AnimeSearchOverrideSeed {
        media_id: "tvdb-12345".to_string(),
        preferred_title: Some("Yofukashi no Uta".to_string()),
        extra_hints: vec!["Call of the Night".to_string(), "Yofukashi no Uta 2".to_string()],
        note: Some("Prefer JP scene title for anime batches".to_string()),
    });
    assert_eq!(write.extra_hints_json, r#"["Call of the Night","Yofukashi no Uta 2"]"#);
    let stored_once = map_anime_search_override_row(stored(write)).unwrap();
    assert_eq!(stored_once.media_id, "tvdb-12345");
    assert_eq!(stored_once.preferred_title.as_deref(), Some("Yofukashi no Uta"));
    assert_eq!(stored_once.extra_hints.len(), 2);
    assert_eq!(
        stored_once.note.as_deref(),
        Some("Prefer JP scene title for anime batches")
    );

    let updated = map_anime_search_override_row(stored(upsert_anime_search_override(
        &AnimeSearchOverrideSeed {
            media_id: "tvdb-12345".to_string(),
            preferred_title: None,
            extra_hints: vec!["Call of the Night".to_string()],
            note: Some("   ".to_string()),
        },
    )))
    .unwrap();
    assert!(updated.preferred_title.is_none());
    assert_eq!(updated.extra_hints, vec!["Call of the Night".to_string()]);
    assert!(updated.note.is_none());
}

#[test]
fn hints_that_are_no_list_of_texts_are_an_error() {
    let row = OverrideRow {
        media_id: "tvdb-1".to_string(),
        preferred_title: None,
        extra_hints_json: "{".to_string(),
        note: None,
        created_at: String::new(),
        updated_at: String::new(),
    };
    assert!(map_anime_search_override_row(row).is_err());
}

#[test]
fn test_record_link_event_roundtrip() {
    let event = link_event(
        None,
        "created",
        "/plex/show/S01E01.mkv",
        Some("/mnt/rd/show/ep01.mkv"),
        Some("tvdb-12345"),
        Some("test-event"),
    );
    assert_eq!(event.action, "created");
    assert_eq!(event.target_path, "/plex/show/S01E01.mkv");
    assert_eq!(event.source_path.as_deref(), Some("/mnt/rd/show/ep01.mkv"));
    assert_eq!(event.media_id.as_deref(), Some("tvdb-12345"));
    assert_eq!(event.note.as_deref(), Some("test-event"));
}

#[test]
fn test_has_active_link_for_episode_matches_slot_pattern() {
    assert_eq!(episode_pattern(1, 9), "%S01E09%");
    assert_eq!(episode_pattern(1, 10), "%S01E10%");
    let records = vec![LinkRecord {
        id: None,
        source_path: "/mnt/rd/show/ep09.mkv".to_string(),
        target_path: "/plex/Show/Season 01/Show - S01E09.mkv".to_string(),
        media_id: "tvdb-12345".to_string(),
        media_type: MediaType::Tv,
        status: LinkStatus::Active,
        created_at: None,
        updated_at: None,
    }];
    assert!(has_active_link_for_episode(&records, "tvdb-12345", 1, 9));
    assert!(!has_active_link_for_episode(&records, "tvdb-12345", 1, 10));
    assert!(!has_active_link_for_episode(&records, "tvdb-1", 1, 9));
}

#[test]
fn the_slot_of_an_episode_is_not_that_of_a_longer_number() {
    let mut record = LinkRecord {
        id: None,
        source_path: "/mnt/rd/e100.mkv".to_string(),
        target_path: "/plex/Show/Season 01/Show - S01E100.mkv".to_string(),
        media_id: "tvdb-12345".to_string(),
        media_type: MediaType::Tv,
        status: LinkStatus::Active,
        created_at: None,
        updated_at: None,
    };
    let found = |record: &LinkRecord, episode| {
        has_active_link_for_episode(&vec![record.clone()], "tvdb-12345", 1, episode)
    };
    assert!(!found(&record, 10));
    assert!(found(&record, 100));
    record.target_path = "/plex/Show/show - s01e10".to_string();
    assert!(found(&record, 10));
    record.status = LinkStatus::Dead;
    assert!(!found(&record, 10));
}

fn make_seed() -> AcquisitionJobSeed {
    AcquisitionJobSeed {
        request_key: "media:tvdb-12345".to_string(),
        label: "Test Show".to_string(),
        query: "Test Show S01E01".to_string(),
        query_hints: vec!["Example Alt 1".to_string()],
        imdb_id: None,
        categories: vec![5000],
        arr: "sonarr".to_string(),
        library_filter: Some("TV".to_string()),
        relink_kind: AcquisitionRelinkKind::MediaId,
        relink_value: "tvdb-12345".to_string(),
    }
}

const NOW: Moment = Moment { seconds: 1_700_000_000, nanos: 0 };

fn job_row(write: &JobWrite, status: &str, next_retry_at: Option<&str>) -> JobRow {
    JobRow {
        id: 1,
        request_key: write.request_key.clone(),
        label: write.label.clone(),
        query: write.query.clone(),
        query_hints_json: write.query_hints_json.clone(),
        imdb_id: write.imdb_id.clone(),
        categories_json: write.categories_json.clone(),
        arr: write.arr.clone(),
        library_filter: write.library_filter.clone(),
        relink_kind: write.relink_kind.clone(),
        relink_value: write.relink_value.clone(),
        status: status.to_string(),
        release_title: None,
        info_hash: None,
        error: None,
        attempts: 0,
        next_retry_at: next_retry_at.map(str::to_string),
        submitted_at: None,
        completed_at: None,
    }
}

fn job(status: &str, next_retry_at: Option<&str>) -> AcquisitionJobRecord {
    let write = enqueue_acquisition_job(&make_seed(), None, NOW).unwrap();
    row_to_acquisition_job(job_row(&write, status, next_retry_at)).unwrap()
}

#[test]
fn test_acquisition_jobs_deduplicate_and_resume_when_due() {
    let first = enqueue_acquisition_job(&make_seed(), None, NOW).unwrap();
    assert_eq!(first.id, None);
    assert_eq!(first.at, "2023-11-14T22:13:20+00:00");
    assert_eq!(first.categories_json, "[5000]");
    let queued = job("queued", None);
    assert_eq!(queued.status, AcquisitionJobStatus::Queued);
    assert_eq!(queued.categories, vec![5000]);
    assert_eq!(queued.query_hints, vec!["Example Alt 1".to_string()]);
    let again = enqueue_acquisition_job(&make_seed(), Some(&queued), NOW).unwrap();
    assert_eq!((again.id, again.reset), (Some(1), false));

    let later = job("failed", Some("2023-11-14T22:23:20+00:00"));
    assert!(!should_reset_acquisition_job(&later, NOW));
    let due = job("failed", Some("2023-11-14 22:12:20"));
    assert!(should_reset_acquisition_job(&due, NOW));
    let mut seed = make_seed();
    seed.query = "Test Show S01E01 1080p".to_string();
    let retried = enqueue_acquisition_job(&seed, Some(&due), NOW).unwrap();
    assert!(retried.reset);
    assert_eq!(retried.query, "Test Show S01E01 1080p");
}

#[test]
fn test_completed_linked_jobs_do_not_reset_on_reenqueue() {
    let linked = job("completed_linked", None);
    assert_eq!(linked.status, AcquisitionJobStatus::CompletedLinked);
    assert!(!should_reset_acquisition_job(&linked, NOW));
    let unlinked = job("completed_unlinked", None);
    assert!(should_reset_acquisition_job(&unlinked, NOW));
}

#[test]
fn jobs_that_cannot_be_read_are_errors() {
    let write = enqueue_acquisition_job(&make_seed(), None, NOW).unwrap();
    assert!(row_to_acquisition_job(job_row(&write, "lost", None)).is_err());
    assert!(row_to_acquisition_job(job_row(&write, "failed", Some("tomorrow"))).is_err());
    let mut row = job_row(&write, "queued", None);
    row.categories_json = "[\"a\"]".to_string();
    assert!(row_to_acquisition_job(row).is_err());
    assert!(AcquisitionRelinkKind::from_db("nothing").is_err());
    let mut row = job_row(&write, "lost", Some("tomorrow"));
    assert_eq!(
        row_to_acquisition_job(row).unwrap_err(),
        AcquisitionJobStatus::from_db("lost").unwrap_err()
    );
    row = job_row(&write, "lost", None);
    row.categories_json = "[".to_string();
    assert_eq!(
        row_to_acquisition_job(row).unwrap_err(),
        "EOF while parsing a list at line 1 column 1"
    );
    let far = Moment { seconds: i64::MAX, nanos: 0 };
    assert_eq!(enqueue_acquisition_job(&make_seed(), None, far), None);
}

#[test]
fn updates_are_written_with_their_moments() {
    let write = update_acquisition_job_state(&AcquisitionJobUpdate {
        status: AcquisitionJobStatus::Failed,
        release_title: None,
        info_hash: None,
        error: Some("rate limited".to_string()),
        next_retry_at: Some(Moment { seconds: 1_700_000_600, nanos: 0 }),
        submitted_at: None,
        completed_at: None,
        increment_attempts: true,
    })
    .unwrap();
    assert_eq!(write.status, "failed");
    assert_eq!(write.next_retry_at.as_deref(), Some("2023-11-14T22:23:20+00:00"));
    assert!(write.increment_attempts);
}

#[test]
fn test_recover_stale_downloading_jobs() {
    let row = |id, submitted_at: Option<&str>| DownloadingRow {
        id,
        submitted_at: submitted_at.map(str::to_string),
    };
    let cutoff = stale_cutoff(NOW, 60);
    assert_eq!(cutoff.seconds, NOW.seconds - 3600);
    let rows = vec![
        row(1, Some("2023-11-14T19:13:20+00:00")),
        row(2, Some("2023-11-14T22:03:20+00:00")),
        row(3, None),
    ];
    let stale = recover_stale_downloading_jobs(&rows, "2023-11-14T21:13:20+00:00");
    assert!(stale.contains(&1));
    assert!(!stale.contains(&2));
    assert!(recovery_retry(NOW).seconds >= NOW.seconds);
}

#[test]
fn test_list_acquisition_jobs_status_filter() {
    let all = list_acquisition_jobs_query("SELECT * FROM acquisition_jobs", None);
    assert!(all.binds.is_empty());
    let failed = list_acquisition_jobs_query(
        "SELECT * FROM acquisition_jobs",
        Some(&vec![AcquisitionJobStatus::Failed]),
    );
    assert_eq!(failed.binds, vec!["failed"]);
    assert!(failed.sql.len() > all.sql.len());
}

#[test]
fn test_record_scan_run_roundtrip() {
    let mut run = ScanRunRecord::default();
    run.origin = ScanRunOrigin::Cli;
    run.dry_run = true;
    run.run_token = Some("scan-run-db".to_string());
    run.library_filter = Some("Anime".to_string());
    run.search_missing = true;
    run.library_items_found = 42;
    run.links_created = 10;
    run.plex_refresh_aborted_due_to_cap = true;
    run.cache_hit_ratio = Some(1.0f64.to_bits());
    run.candidate_slots = 1234;
    run.auto_acquire_no_result = 2;
    let row = record_scan_run(&run);
    assert_eq!(row.origin, "cli");
    assert_eq!(row.dry_run, 1);
    assert_eq!(row.library_filter.as_deref(), Some("Anime"));
    assert_eq!(row.search_missing, 1);
    assert_eq!(row.library_items_found, 42);
    assert_eq!(row.links_created, 10);
    assert_eq!(row.plex_refresh_aborted_due_to_cap, 1);
    assert_eq!(row.cache_hit_ratio.map(f64::from_bits), Some(1.0));
    assert_eq!(row.candidate_slots, 1234);
    let back = row_to_scan_history_record(9, "2024-01-01".to_string(), row).unwrap();
    assert_eq!(back.id, 9);
    assert_eq!(back.origin, ScanRunOrigin::Cli);
    assert!(back.dry_run && back.search_missing && back.plex_refresh_aborted_due_to_cap);
    assert_eq!(back.auto_acquire_no_result, 2);
    assert_eq!(back.run_token.as_deref(), Some("scan-run-db"));
}

#[test]
fn an_unknown_origin_is_an_error() {
    let mut row = record_scan_run(&ScanRunRecord::default());
    row.origin = "elsewhere".to_string();
    assert!(row_to_scan_history_record(1, String::new(), row).is_err());
}

#[test]
fn test_escape_sql_like_pattern_special_chars() {
    assert_eq!(escape_sql_like("/plex/100%_Show"), "/plex/100\\%\\_Show");
    assert_eq!(escape_sql_like("a\\b"), "a\\\\b");
    assert!(like_prefix_pattern("/plex/100%_Show").ends_with('%'));
}

#[test]
fn test_get_web_stats() {
    let stats = web_stats(3, 1, 7, Some("2024-01-01".to_string()));
    assert_eq!((stats.active_links, stats.dead_links, stats.total_scans), (3, 1, 7));
    assert_eq!(stats.last_scan.as_deref(), Some("2024-01-01"));
}

#[test]
fn moments_are_read_in_two_forms() {
    assert_eq!(parse_datetime("2023-11-14T23:13:20+01:00"), Ok(NOW));
    assert_eq!(parse_datetime("2023-11-14 22:13:20"), Ok(NOW));
    assert_eq!(
        parse_datetime("yesterday"),
        Err("input contains invalid characters".to_string())
    );
    assert_eq!(parse_optional_datetime(&None), Ok(None));
    assert_eq!(first_reading(None, Ok(NOW)), Ok(NOW));
    let other = Moment { seconds: 1, nanos: 0 };
    assert_eq!(first_reading(Some(other), Ok(NOW)), Ok(other));
    assert_eq!(first_reading(None, Err("no".to_string())), Err("no".to_string()));
}

#[test]
fn operations_hold_their_lock() {
    assert_eq!(stale_modifier(), "-300 seconds");
    assert!(is_final_status("failed"));
    assert!(!is_final_status("running"));
    assert_eq!((clamped_limit(0), clamped_limit(10), clamped_limit(9999)), (1, 10, 500));
    assert!(acquisition_outcome(None, None).is_err());
}

#[test]
fn runs_know_when_they_started() {
    assert_eq!(run_times(JobRunStatus::Queued, "now"), (None, None));
    assert_eq!(run_times(JobRunStatus::Running, "now"), (Some("now"), None));
    assert_eq!(run_times(JobRunStatus::Failed, "now"), (None, Some("now")));
    assert_eq!(JobRunStatus::Succeeded.as_str(), "succeeded");
}
