use symlinkarr::config::ContentType;
use symlinkarr::linker::naming::{
    sanitize_filename, truncate_filename_to_limit, truncate_str_bytes,
};
use symlinkarr::linker::readiness::{ProbeReply, ReadinessStep, SourceReadiness, SourceReadinessGate};
use symlinkarr::linker::sweep::{
    cached_source_exists, cached_source_health, dead_mark_entry, destructive_source_exists,
    link_in_scope,
    link_is_dead, HealthStep, SourceCheck, SweepOutcome,
};
use symlinkarr::linker::writing::{
    link_record, missing_source_entry, LinkEvent, LinkFailure, LinkStage, LinkWriteResult, MatchOutcome,
};
use symlinkarr::linker::{LinkWriteOutcome, Linker};
use symlinkarr::models::{
    LibraryItem, LinkRecord, LinkStatus, MatchResult, MediaId, MediaType, PathHealth, PathState,
    SourceItem,
};
use symlinkarr::tables::PathMap;

fn absent() -> PathState {
    PathState::Absent("No such file or directory (os error 2)".to_string())
}

const DEFAULT_TEMPLATE: &str = "{title} - S{season:02}E{episode:02} - {episode_title}";

#[test]
fn test_truncate_str_bytes_ascii() {
    assert_eq!(truncate_str_bytes("hello", 3), "hel");
    assert_eq!(truncate_str_bytes("hello", 10), "hello");
    assert_eq!(truncate_str_bytes("hello", 0), "");
}

#[test]
fn test_truncate_str_bytes_unicode() {
    // "é" is 2 bytes (0xC3 0xA9); cutting at byte 1 must back up to 0.
    let s = "aé";
    assert_eq!(truncate_str_bytes(s, 2), "a");
    assert_eq!(truncate_str_bytes(s, 3), "aé");
}

#[test]
fn test_format_episode_name_long_ep_title_truncated() {
    let linker = Linker::new(false, true, DEFAULT_TEMPLATE);
    // Build an episode title that will push the filename over 250 bytes.
    let long_ep_title = "A".repeat(240);
    let name = linker.format_episode_name("Show", 1, 1, &long_ep_title, "mkv");
    assert!(
        name.len() <= 250,
        "filename is {} bytes, expected ≤ 250",
        name.len()
    );
    assert!(name.ends_with(".mkv"));
    assert!(name.contains("S01E01"));
}

#[test]
fn test_format_episode_name_long_title_truncated() {
    let linker = Linker::new(false, true, DEFAULT_TEMPLATE);
    // Both title and episode title extremely long.
    let long_title = "B".repeat(200);
    let long_ep = "C".repeat(200);
    let name = linker.format_episode_name(&long_title, 1, 1, &long_ep, "mkv");
    assert!(
        name.len() <= 250,
        "filename is {} bytes, expected ≤ 250",
        name.len()
    );
    assert!(name.ends_with(".mkv"));
}

#[test]
fn test_truncated_filename_safe_for_temp_extension() {
    // Regression: the atomic-swap temp path replaces the extension with ".glt".
    // Verify the worst case (short original ext → longer temp ext) stays under NAME_MAX=255.
    let linker = Linker::new(false, true, DEFAULT_TEMPLATE);
    let long_ep_title = "あ".repeat(100); // 3 bytes each → 300 bytes of episode title
    let name = linker.format_episode_name("Show", 1, 1, &long_ep_title, "mkv");
    assert!(name.len() <= 250, "filename is {} bytes", name.len());

    // Simulate what the symlink code does: swap extension to ".glt"
    let p = std::path::Path::new(&name);
    let temp_name = p.with_extension("glt");
    let temp_len = temp_name.to_str().unwrap().len();
    assert!(
        temp_len <= 255,
        "temp filename is {} bytes, exceeds NAME_MAX",
        temp_len
    );
}

#[test]
fn test_sanitize_filename() {
    assert_eq!(sanitize_filename("Normal Title"), "Normal Title");
    assert_eq!(sanitize_filename("Title: Subtitle"), "Title_ Subtitle");
    assert_eq!(
        sanitize_filename("Who Wants to be a Millionaire?"),
        "Who Wants to be a Millionaire_"
    );
}

#[test]
fn test_sanitize_filename_all_special_chars() {
    // All Windows-incompatible filename characters replaced with underscore
    assert_eq!(
        sanitize_filename("a/b\\c:d*e?f\"g<h>i|j"),
        "a_b_c_d_e_f_g_h_i_j"
    );
    // Unicode characters preserved
    assert_eq!(sanitize_filename("日本語タイトル"), "日本語タイトル");
}

#[test]
fn test_sanitize_filename_trims_whitespace() {
    assert_eq!(sanitize_filename("  Title  "), "Title");
    assert_eq!(sanitize_filename("  Movie (2024)  "), "Movie (2024)");
}

#[test]
fn test_format_episode_name() {
    let linker = Linker::new(false, true, DEFAULT_TEMPLATE);
    let name = linker.format_episode_name("Breaking Bad", 1, 1, "Pilot", "mkv");
    assert_eq!(name, "Breaking Bad - S01E01 - Pilot.mkv");
}

#[test]
fn test_format_episode_name_no_title() {
    let linker = Linker::new(false, true, DEFAULT_TEMPLATE);
    let name = linker.format_episode_name("Breaking Bad", 2, 5, "", "mp4");
    assert_eq!(name, "Breaking Bad - S02E05.mp4");
}

#[test]
fn test_custom_naming_template() {
    let linker = Linker::new_with_options(false, true, "{episode:02}x{season:02} - {title}", true);
    let name = linker.format_episode_name("My Show", 1, 5, "Episode Title", "mkv");
    assert_eq!(name, "05x01 - My Show.mkv");
}

#[test]
fn truncate_filename_to_limit_under_limit() {
    let filename = "Show - S01E01 - Episode Title.mkv";
    let result =
        truncate_filename_to_limit(filename.to_string(), "Show", "Episode Title", 1, 1, "mkv");
    assert_eq!(result, filename);
}

#[test]
fn truncate_filename_to_limit_truncates_episode_title() {
    // Long episode title should be truncated first
    let long_title = "A".repeat(300);
    let filename = format!("Show - S01E01 - {}.mkv", long_title);
    let result = truncate_filename_to_limit(filename, "Show", &long_title, 1, 1, "mkv");
    assert!(
        result.len() <= 250,
        "result len {} should be <= 250",
        result.len()
    );
    assert!(result.contains("Show"));
    assert!(result.contains("S01E01"));
}

#[test]
fn truncate_filename_to_limit_handles_empty_episode_title() {
    // Long filename with empty episode title — should use title-only format
    let long_title = "A".repeat(230);
    let filename = format!("Show - S01E01 - {}.mkv", long_title);
    let result = truncate_filename_to_limit(filename, "Show", "", 1, 1, "mkv");
    assert!(
        result.len() <= 250,
        "result len {} should be <= 250",
        result.len()
    );
    // Should not have double dash before extension
    assert!(!result.contains(" - .mkv"));
}

#[test]
fn test_cached_source_exists_short_circuits_missing_parent() {
    let missing = "/mnt/missing-parent/missing-file.mkv";
    let mut source_cache = PathMap::new();
    let mut parent_cache = PathMap::new();

    assert_eq!(
        cached_source_exists(missing, &mut source_cache, &parent_cache),
        SourceCheck::ProbeParent("/mnt/missing-parent".to_string())
    );
    parent_cache.insert("/mnt/missing-parent", false);
    let exists = cached_source_exists(missing, &mut source_cache, &parent_cache);
    assert_eq!(exists, SourceCheck::Exists(false));

    assert_eq!(parent_cache.get("/mnt/missing-parent"), Some(&false));
    assert_eq!(source_cache.get(missing), Some(&false));
}

#[test]
fn test_cached_source_exists_true_for_existing_file() {
    let file = "/mnt/rd/source.mkv";
    let mut source_cache = PathMap::new();
    let mut parent_cache = PathMap::new();
    parent_cache.insert("/mnt/rd", true);

    assert_eq!(
        cached_source_exists(file, &mut source_cache, &parent_cache),
        SourceCheck::ProbeSource
    );
    source_cache.insert(file, true);
    assert_eq!(
        cached_source_exists(file, &mut source_cache, &parent_cache),
        SourceCheck::Exists(true)
    );
    assert_eq!(source_cache.get(file), Some(&true));
}

#[test]
fn test_destructive_source_exists_rejects_unhealthy_parent() {
    let path = "/mnt/rd/file.mkv";
    let mut source_cache = PathMap::new();
    let mut parent_cache = PathMap::new();
    parent_cache.insert("/mnt/rd", PathHealth::TransportDisconnected);

    let err = destructive_source_exists(
        "dead-link sweep",
        path,
        &mut source_cache,
        &parent_cache,
    )
    .unwrap_err();

    assert!(err.to_string().contains("Aborting dead-link sweep"));
}

fn sample_movie_match(lib_path: &str, source_path: &str) -> MatchResult {
    MatchResult {
        library_item: LibraryItem {
            id: MediaId::Tmdb(550),
            path: lib_path.to_string(),
            title: "Sample Movie".to_string(),
            library_name: "Movies".to_string(),
            media_type: MediaType::Movie,
            content_type: ContentType::Movie,
        },
        source_item: SourceItem {
            path: source_path.to_string(),
            parsed_title: "Sample Movie".to_string(),
            season: None,
            episode: None,
            episode_end: None,
            quality: None,
            extension: "mkv".to_string(),
            year: None,
        },
        matched_alias: "sample movie".to_string(),
        episode_title: None,
    }
}

fn sample_tv_match(
    lib_path: &str,
    source_path: &str,
    season: Option<u32>,
    episode: Option<u32>,
) -> MatchResult {
    MatchResult {
        library_item: LibraryItem {
            id: MediaId::Tvdb(81189),
            path: lib_path.to_string(),
            title: "Sample Show".to_string(),
            library_name: "Series".to_string(),
            media_type: MediaType::Tv,
            content_type: ContentType::Tv,
        },
        source_item: SourceItem {
            path: source_path.to_string(),
            parsed_title: "Sample Show".to_string(),
            season,
            episode,
            episode_end: None,
            quality: None,
            extension: "mkv".to_string(),
            year: None,
        },
        matched_alias: "sample show".to_string(),
        episode_title: Some("Pilot".to_string()),
    }
}

const LIB: &str = "/library/Sample Movie {tmdb-550}";
const TARGET: &str = "/library/Sample Movie {tmdb-550}/Sample Movie.mkv";
const SOURCE: &str = "/rd/sample_movie.mkv";

fn record(source: &str) -> LinkRecord {
    LinkRecord {
        id: None,
        source_path: source.to_string(),
        target_path: TARGET.to_string(),
        media_id: "tmdb-550".to_string(),
        media_type: MediaType::Movie,
        status: LinkStatus::Active,
        created_at: None,
        updated_at: None,
    }
}

#[test]
fn test_strict_mode_skips_regular_file_overwrite() {
    let linker = Linker::new(false, true, "");
    let m = sample_movie_match(LIB, SOURCE);
    let target_path = linker.build_target_path(&m).unwrap();
    assert_eq!(target_path, TARGET);
    let task = linker.start_link(&m, None);
    let task = linker.create_link(&m, &target_path, task, &LinkEvent::Saw(PathState::File));
    assert!(task.is_done());
    let outcome = task.conclude(&m).unwrap();
    assert_eq!(outcome.outcome, LinkWriteOutcome::Skipped);
}

#[test]
fn test_directory_target_bails() {
    let linker = Linker::new(false, true, "");
    let m = sample_movie_match(LIB, SOURCE);
    let task = linker.start_link(&m, None);
    let task = linker.create_link(&m, TARGET, task, &LinkEvent::Saw(PathState::Directory));
    assert!(task.is_done());
    let err = task.conclude(&m).unwrap_err();
    assert_eq!(err, LinkFailure::Directory);
    assert!(err.message(TARGET, SOURCE, &PathState::Directory).contains("directory"));
}

#[test]
fn test_process_matches_skips_missing_source_before_write() {
    let linker = Linker::new(false, true, "");
    let m = sample_movie_match(LIB, "/rd/missing_source.mkv");
    let source = m.source_item.path.as_str();
    let mut sources = PathMap::new();
    let mut parents = PathMap::new();
    assert_eq!(
        cached_source_exists(source, &mut sources, &parents),
        SourceCheck::ProbeParent("/rd".to_string())
    );
    parents.insert("/rd", false);
    assert_eq!(cached_source_exists(source, &mut sources, &parents), SourceCheck::Exists(false));
    let summary = linker.process_matches(&vec![MatchOutcome::SourceMissing]);
    assert_eq!(summary.refresh_paths.len(), 0);
    assert_eq!(summary.skip_reasons.get("source_missing_before_link"), Some(&1));
    assert_eq!(summary.created, 0);
    assert_eq!(summary.updated, 0);
    assert_eq!(summary.skipped, 1);
}

#[test]
fn test_create_link_skips_unreadable_source_before_live_write() {
    let mut linker = Linker::new(false, true, "");
    linker.source_readiness_gate = Some(SourceReadinessGate {
        source_roots: vec!["/rd".to_string()],
        probe_timeout_ms: 1000,
    });
    let m = sample_movie_match(LIB, SOURCE);
    let task = linker.start_link(&m, None);
    let task = linker.create_link(&m, TARGET, task, &LinkEvent::Saw(absent()));
    assert_eq!(task.stage, LinkStage::Probe);
    let task = linker.create_link(
        &m,
        TARGET,
        task,
        &LinkEvent::Probed(SourceReadiness::Unreadable("503".to_string())),
    );
    let outcome = task.conclude(&m).unwrap();
    assert_eq!(outcome.outcome, LinkWriteOutcome::Skipped);
    assert_eq!(outcome.skip_reason, Some("source_unreadable_before_link"));
    assert!(!task.needs_record());
}

#[test]
fn test_build_target_path_errors_when_tv_match_lacks_season_or_episode() {
    let lib_path = "/library/Sample Show {tvdb-81189}";
    let source_path = "/rd/sample_show.mkv";
    let linker = Linker::new(false, true, "");

    let missing_season = sample_tv_match(lib_path, source_path, None, Some(1));
    let err = linker.build_target_path(&missing_season).unwrap_err();
    assert!(err.message().contains("missing season"));

    let missing_episode = sample_tv_match(lib_path, source_path, Some(1), None);
    let err = linker.build_target_path(&missing_episode).unwrap_err();
    assert!(err.message().contains("missing episode"));
}

#[test]
fn test_symlink_target_can_be_replaced() {
    let linker = Linker::new(false, true, "");
    let m = sample_movie_match(LIB, "/rd/new.mkv");
    let seen = LinkEvent::Saw(PathState::Symlink(Ok("/rd/old.mkv".to_string())));
    let mut task = linker.start_link(&m, None);
    while !task.is_done() && task.stage != LinkStage::Write {
        task = linker.create_link(&m, TARGET, task, &seen);
    }
    assert_eq!(task.stage, LinkStage::Write);
    let now = LinkEvent::Saw(PathState::Symlink(Ok("/rd/new.mkv".to_string())));
    let task = linker.create_link(&m, TARGET, task, &now);
    assert!(task.is_done());
    let outcome = task.conclude(&m).unwrap();
    assert_eq!(outcome.outcome, LinkWriteOutcome::Created);
    assert_eq!(outcome.refresh_path, Some(LIB.to_string()));
}

#[test]
fn test_correct_on_disk_symlink_backfills_missing_db_record() {
    let linker = Linker::new(false, true, "");
    let m = sample_movie_match(LIB, "/rd/sample.mkv");
    let seen = LinkEvent::Saw(PathState::Symlink(Ok("/rd/sample.mkv".to_string())));
    let task = linker.start_link(&m, None);
    let task = linker.create_link(&m, TARGET, task, &seen);
    assert!(task.is_done());
    assert_eq!(task.conclude(&m).unwrap().outcome, LinkWriteOutcome::Skipped);
    assert!(task.needs_record());
    let record = link_record(&m, TARGET);
    assert_eq!(record.source_path, "/rd/sample.mkv");
    assert_eq!(record.status, LinkStatus::Active);
}

#[test]
fn test_same_destination_new_source_is_classified_as_updated() {
    let linker = Linker::new_with_options(false, true, "", true);
    let m = sample_movie_match(LIB, "/rd/new.mkv");
    let seen = LinkEvent::Saw(PathState::Symlink(Ok("/rd/old.mkv".to_string())));
    let mut task = linker.start_link(&m, Some(&record("/rd/old.mkv")));
    while !task.is_done() && task.stage != LinkStage::Write {
        task = linker.create_link(&m, TARGET, task, &seen);
    }
    let now = LinkEvent::Saw(PathState::Symlink(Ok("/rd/new.mkv".to_string())));
    let task = linker.create_link(&m, TARGET, task, &now);
    let outcome = task.conclude(&m).unwrap();
    assert_eq!(outcome.outcome, LinkWriteOutcome::Updated);
    assert_eq!(outcome.refresh_path, Some(LIB.to_string()));
}

#[test]
fn a_dry_run_stops_before_the_write() {
    let linker = Linker::new(true, true, "");
    let m = sample_movie_match(LIB, SOURCE);
    let mut task = linker.start_link(&m, None);
    let mut looks = 0;
    while !task.is_done() {
        assert!(task.stage != LinkStage::Write && task.stage != LinkStage::Prepare);
        task = linker.create_link(&m, TARGET, task, &LinkEvent::Saw(absent()));
        looks += 1;
        assert!(looks < 10);
    }
    assert_eq!(task.stage, LinkStage::DryRun);
    assert!(!task.needs_record());
}

#[test]
fn linking_again_changes_nothing() {
    let linker = Linker::new(false, true, "");
    let m = sample_movie_match(LIB, SOURCE);
    let seen = LinkEvent::Saw(PathState::Symlink(Ok(SOURCE.to_string())));
    let task = linker.start_link(&m, Some(&record(SOURCE)));
    let task = linker.create_link(&m, TARGET, task, &seen);
    assert!(task.is_done());
    let outcome = task.conclude(&m).unwrap();
    assert_eq!(outcome.outcome, LinkWriteOutcome::Skipped);
    assert_eq!(outcome.skip_reason, Some("already_correct"));
    assert!(!task.needs_record());
}

#[test]
fn test_verify_link_target_accepts_matching_symlink() {
    assert_eq!(
        symlinkarr::linker::writing::verify_link_target(
            "/library/video.mkv",
            "/rd/video.mkv",
            &PathState::Symlink(Ok("/rd/video.mkv".to_string()))
        ),
        LinkStage::Written
    );
    assert_eq!(
        symlinkarr::linker::writing::verify_link_target(
            "/library/video.mkv",
            "/rd/video.mkv",
            &PathState::Symlink(Ok("../rd/video.mkv".to_string()))
        ),
        LinkStage::WrongDestination
    );
}

#[test]
fn test_verify_link_target_rejects_wrong_destination() {
    let seen = PathState::Symlink(Ok("/rd/other.mkv".to_string()));
    let stage = symlinkarr::linker::writing::verify_link_target(
        "/library/video.mkv",
        "/rd/video.mkv",
        &seen,
    );
    assert_eq!(stage, LinkStage::WrongDestination);
    let message =
        LinkFailure::WrongDestination.message("/library/video.mkv", "/rd/video.mkv", &seen);
    assert!(message.contains("post-write verification failed"));
    assert_eq!(
        message,
        "post-write verification failed: \"/library/video.mkv\" points to \"/rd/other.mkv\" \
         instead of \"/rd/video.mkv\""
    );
}

#[test]
fn outcomes_add_up() {
    let linker = Linker::new(false, true, "");
    let result = |outcome, skip_reason, refresh_path: Option<&str>| {
        MatchOutcome::Linked(LinkWriteResult {
            outcome,
            skip_reason,
            refresh_path: refresh_path.map(str::to_string),
        })
    };
    let summary = linker.process_matches(&vec![
        result(LinkWriteOutcome::Created, None, Some("/library/b")),
        result(LinkWriteOutcome::Updated, None, Some("/library/a")),
        result(LinkWriteOutcome::Created, None, Some("/library/b")),
        result(LinkWriteOutcome::Skipped, Some("already_correct"), None),
        MatchOutcome::Failed,
        MatchOutcome::SourceMissing,
    ]);
    assert_eq!(summary.created, 2);
    assert_eq!(summary.updated, 1);
    assert_eq!(summary.created + summary.updated + summary.skipped, 5);
    assert_eq!(summary.skip_reasons.get("already_correct"), Some(&1));
    assert_eq!(summary.refresh_paths, vec!["/library/b", "/library/a", "/library/b"]);
}

#[test]
fn only_symlinks_are_swept() {
    let linker = Linker::new(false, true, "");
    let link = PathState::Symlink(Ok("/rd/x".to_string()));
    assert_eq!(linker.dead_link_action(&link, &link), SweepOutcome::DeadRemoved);
    assert_eq!(
        linker.dead_link_action(&PathState::File, &PathState::File),
        SweepOutcome::DeadNotSymlink
    );
    assert_eq!(
        linker.dead_link_action(&link, &PathState::Directory),
        SweepOutcome::DeadDirectory
    );
    assert_eq!(
        linker.dead_link_action(&PathState::Directory, &PathState::Directory),
        SweepOutcome::DeadNotSymlink
    );
    let dry = Linker::new(true, true, "");
    assert_eq!(dry.dead_link_action(&link, &link), SweepOutcome::DeadKept);

    let summary = linker.check_dead_links_scoped(&vec![
        SweepOutcome::Alive,
        SweepOutcome::DeadRemoved,
        SweepOutcome::DeadNotSymlink,
    ]);
    assert_eq!((summary.dead_marked, summary.removed, summary.skipped), (2, 1, 1));
}

#[test]
fn links_are_dead_where_source_or_link_is_gone() {
    let link = record(SOURCE);
    let there = PathState::Symlink(Ok(SOURCE.to_string()));
    assert!(!link_is_dead(&link, true, &there));
    assert!(link_is_dead(&link, false, &there));
    assert!(link_in_scope(&link, None));
    assert!(link_in_scope(&link, Some(&vec!["/library".to_string()])));
    assert!(!link_in_scope(&link, Some(&vec!["/lib".to_string()])));
}

#[test]
fn health_is_asked_of_the_parent_first() {
    let mut sources = PathMap::new();
    let mut parents = PathMap::new();
    assert_eq!(
        cached_source_health("/mnt/rd/a.mkv", &mut sources, &parents),
        HealthStep::ProbeParent("/mnt/rd".to_string())
    );
    parents.insert("/mnt/rd", PathHealth::Healthy);
    assert_eq!(
        cached_source_health("/mnt/rd/a.mkv", &mut sources, &parents),
        HealthStep::ProbeSource
    );
    sources.insert("/mnt/rd/a.mkv", PathHealth::Missing);
    assert_eq!(
        cached_source_health("/mnt/rd/a.mkv", &mut sources, &parents),
        HealthStep::Known(PathHealth::Missing)
    );
    assert_eq!(
        destructive_source_exists("sweep", "/mnt/rd/a.mkv", &mut sources, &parents),
        Ok(SourceCheck::Exists(false))
    );
}

#[test]
fn readiness_asks_each_spelling_of_the_source() {
    let gate = SourceReadinessGate {
        source_roots: vec!["/mnt/rd".to_string(), "/mnt/rd/__all__".to_string()],
        probe_timeout_ms: 500,
    };
    assert_eq!(gate.matching_source_root("/mnt/rd/__all__/x/y.mkv"), Some(1));
    assert_eq!(gate.matching_source_root("/other/y.mkv"), None);
    let mut cache = PathMap::new();
    match gate.ensure_readable("/mnt/rd/__all__/x/y.mkv", &cache) {
        ReadinessStep::Probe(paths) => assert!(paths.contains(&"x/y.mkv".to_string())),
        ReadinessStep::Known(_) => panic!("nothing is known yet"),
    }
    SourceReadinessGate::remember(&mut cache, "/mnt/rd/__all__/x/y.mkv", SourceReadiness::Ready);
    match gate.ensure_readable("/mnt/rd/__all__/x/y.mkv", &cache) {
        ReadinessStep::Known(found) => assert_eq!(found, SourceReadiness::Ready),
        ReadinessStep::Probe(_) => panic!("it is remembered"),
    }
    let found = symlinkarr::linker::readiness::readiness_of(&vec![
        ProbeReply::NotFound,
        ProbeReply::Readable,
    ]);
    assert_eq!(found, SourceReadiness::Ready);
}

#[test]
fn a_long_movie_name_fits() {
    let linker = Linker::new(false, true, "");
    let mut m = sample_movie_match(LIB, SOURCE);
    m.library_item.title = "あ".repeat(200);
    let path = linker.build_target_path(&m).unwrap();
    let name = path.rsplit('/').next().unwrap();
    assert!(name.len() <= 250);
    assert!(name.ends_with(".mkv"));
}

#[test]
fn a_limited_name_always_fits() {
    let long = "x".repeat(300);
    let result = truncate_filename_to_limit(long.clone(), "Show", "Pilot", 1, 1, &long);
    assert_eq!(result.len(), 250);

    let episode = "e".repeat(300);
    let result = truncate_filename_to_limit("n".repeat(260), "Show", &episode, 1, 1, "mkv");
    assert_eq!(result, format!("Show - S01E01 - {}.mkv", "e".repeat(230)));
    assert_eq!(result.len(), 250);

    let title = "t".repeat(300);
    let result = truncate_filename_to_limit("n".repeat(260), &title, &episode, 1, 1, "mkv");
    assert_eq!(result, format!("{} - S01E01.mkv", "t".repeat(237)));
}

#[test]
fn sweep_steps_add_up() {
    let link = record(SOURCE);
    let right = PathState::Symlink(Ok(SOURCE.to_string()));
    let linker = Linker::new(false, true, "");
    let roots = vec!["/elsewhere".to_string()];
    assert_eq!(linker.sweep_step(&link, Some(&roots), false, &right, &right, &right), None);
    let outcomes = vec![
        linker.sweep_step(&link, None, true, &right, &right, &right).unwrap(),
        linker.sweep_step(&link, None, false, &right, &right, &right).unwrap(),
        linker.sweep_step(&link, None, false, &right, &PathState::File, &right).unwrap(),
        linker.sweep_step(&link, None, false, &right, &right, &PathState::Directory).unwrap(),
    ];
    assert_eq!(outcomes[0], SweepOutcome::Alive);
    let summary = linker.check_dead_links_scoped(&outcomes);
    assert_eq!(summary.dead_marked, 3);
    assert_eq!(summary.removed + summary.skipped, 3);
    assert_eq!(summary.skip_reasons.get("not_symlink"), Some(&1));
    assert_eq!(summary.skip_reasons.get("directory_guard"), Some(&1));

    let dry = Linker::new(true, true, "");
    let kept = vec![dry.sweep_step(&link, None, false, &right, &right, &right).unwrap()];
    let summary = dry.check_dead_links_scoped(&kept);
    assert_eq!((summary.dead_marked, summary.removed, summary.skipped), (1, 0, 0));
}

#[test]
fn a_target_that_cannot_be_inspected_is_told_in_the_words_of_the_system() {
    let linker = Linker::new(false, true, "");
    let m = sample_movie_match(LIB, SOURCE);
    for seen in [absent(), PathState::Symlink(Err("Permission denied (os error 13)".to_string()))] {
        let said = match &seen {
            PathState::Absent(reason) | PathState::Symlink(Err(reason)) => reason.clone(),
            _ => String::new(),
        };
        let mut task = linker.start_link(&m, None);
        while task.stage != LinkStage::Write {
            task = linker.create_link(&m, TARGET, task, &LinkEvent::Saw(absent()));
        }
        let failure = linker
            .create_link(
                &m,
                TARGET,
                task,
                &LinkEvent::Saw(match &seen {
                    PathState::Absent(reason) => PathState::Absent(reason.clone()),
                    _ => PathState::Symlink(Err(said.clone())),
                }),
            )
            .conclude(&m)
            .unwrap_err();
        assert_eq!(failure, LinkFailure::Unverified);
        assert_eq!(failure.message(TARGET, SOURCE, &seen), said);
    }
}

#[test]
fn what_is_skipped_and_dead_is_logged() {
    let missing = missing_source_entry();
    assert_eq!((missing.action, missing.note), ("skipped", Some("source_missing_before_link")));
    let dead = dead_mark_entry();
    assert_eq!((dead.action, dead.note), ("dead_marked", Some("source_or_target_invalid")));
}
