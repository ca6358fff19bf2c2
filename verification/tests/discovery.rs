use symlinkarr::config::ContentType;
use symlinkarr::discovery::{
    classify_target_path, existing_link_counts_by_folder, target_paths, DiscoverPlacementAction,
    Discovery,
};
use symlinkarr::linker::{Linker, TargetPathError};
use symlinkarr::models::{
    LibraryItem, LinkRecord, LinkStatus, MatchResult, MediaId, MediaType, PathState, SourceItem,
};
use symlinkarr::tables::PathMap;

fn absent() -> PathState {
    PathState::Absent("No such file or directory (os error 2)".to_string())
}

const LIB: &str = "/plex/Sample Show {tvdb-81189}";
const SOURCE: &str = "/rd/Sample.Show.S01E01.1080p.mkv";

fn sample_tv_match(lib_path: &str, source_path: &str, season: u32, episode: u32) -> MatchResult {
    MatchResult {
        library_item: LibraryItem {
            id: MediaId::Tvdb(81189),
            path: lib_path.to_string(),
            title: "Sample Show".to_string(),
            library_name: "Anime".to_string(),
            media_type: MediaType::Tv,
            content_type: ContentType::Anime,
        },
        source_item: SourceItem {
            path: source_path.to_string(),
            parsed_title: "Sample Show".to_string(),
            season: Some(season),
            episode: Some(episode),
            episode_end: None,
            quality: Some("1080p".to_string()),
            extension: "mkv".to_string(),
            year: None,
        },
        matched_alias: "sample show".to_string(),
        episode_title: Some("Pilot".to_string()),
    }
}

fn record(id: i64, source: &str, target: &str) -> LinkRecord {
    LinkRecord {
        id: Some(id),
        source_path: source.to_string(),
        target_path: target.to_string(),
        media_id: "tvdb-81189".to_string(),
        media_type: MediaType::Tv,
        status: LinkStatus::Active,
        created_at: None,
        updated_at: None,
    }
}

fn linker() -> Linker {
    Linker::new(false, true, "{title} - S{season:02}E{episode:02}")
}

#[test]
fn existing_link_counts_by_folder_matches_nested_targets_without_quadratic_scan() {
    let folder = "/plex/Anime/Sample Show {tvdb-81189}".to_string();
    let active_links = vec![
        record(
            1,
            "/rd/Sample.Show.S01E01.mkv",
            "/plex/Anime/Sample Show {tvdb-81189}/Season 01/Sample Show - S01E01.mkv",
        ),
        record(
            2,
            "/rd/Sample.Show.S01E02.mkv",
            "/plex/Anime/Sample Show {tvdb-81189}/Season 01/Sample Show - S01E02.mkv",
        ),
    ];

    let counts = existing_link_counts_by_folder(&vec![folder.clone()], &active_links);
    assert_eq!(counts.get(&folder), Some(&2));
}

#[test]
fn build_link_plan_marks_missing_target_as_create() {
    let matches = vec![sample_tv_match(LIB, SOURCE, 1, 1)];
    let targets = target_paths(&linker(), &matches).unwrap();
    let plan = Discovery::new().build_link_plan(
        &matches,
        &targets,
        &vec![absent()],
        &PathMap::new(),
        &Vec::new(),
    );

    let summary = plan.summary();
    assert_eq!(summary.creates, 1);
    assert_eq!(summary.updates, 0);
    assert_eq!(summary.blocked, 0);
    assert_eq!(plan.folders.len(), 1);
    assert_eq!(plan.folders[0].existing_links, 0);
    assert_eq!(plan.placements[0].action, DiscoverPlacementAction::Create);
    assert_eq!(plan.placements[0].source_name, "Sample.Show.S01E01.1080p.mkv");
}

#[test]
fn build_link_plan_marks_wrong_symlink_as_update() {
    let matches = vec![sample_tv_match(LIB, SOURCE, 1, 1)];
    let targets = target_paths(&linker(), &matches).unwrap();
    let plan = Discovery::new().build_link_plan(
        &matches,
        &targets,
        &vec![PathState::Symlink(Ok("/rd/Wrong.Show.S01E01.1080p.mkv".to_string()))],
        &PathMap::new(),
        &Vec::new(),
    );

    assert_eq!(plan.summary().updates, 1);
    assert_eq!(plan.placements[0].action, DiscoverPlacementAction::Update);
}

#[test]
fn build_link_plan_blocks_regular_file_target() {
    let matches = vec![sample_tv_match(LIB, SOURCE, 1, 1)];
    let targets = target_paths(&linker(), &matches).unwrap();
    let plan = Discovery::new().build_link_plan(
        &matches,
        &targets,
        &vec![PathState::File],
        &PathMap::new(),
        &Vec::new(),
    );

    assert_eq!(plan.summary().blocked, 1);
    assert!(plan.placements[0].action.is_blocked());
}

#[test]
fn links_that_stand_are_not_planned() {
    let matches = vec![sample_tv_match(LIB, SOURCE, 1, 1), sample_tv_match(LIB, "/rd/b.mkv", 1, 2)];
    let targets = target_paths(&linker(), &matches).unwrap();
    let mut existing = PathMap::new();
    existing.insert(&targets[0], record(1, SOURCE, &targets[0]));
    let active = vec![record(1, SOURCE, &targets[0])];
    let plan = Discovery::new().build_link_plan(
        &matches,
        &targets,
        &vec![PathState::Symlink(Ok(SOURCE.to_string())), absent()],
        &existing,
        &active,
    );
    assert_eq!(plan.placements.len(), 1);
    assert_eq!(plan.placements[0].source_path, "/rd/b.mkv");
    assert_eq!(plan.folders[0].existing_links, 1);
    let summary = plan.summary();
    assert_eq!(summary.placements, summary.creates + summary.updates + summary.blocked);
    assert!(!Discovery::print_summary(&plan).is_empty());
}

#[test]
fn directories_are_blocked() {
    assert_eq!(
        classify_target_path("/a/b.mkv", SOURCE, false, &PathState::Directory),
        Some(DiscoverPlacementAction::BlockedDirectory)
    );
    assert_eq!(DiscoverPlacementAction::BlockedDirectory.as_str(), "blocked_directory");
}

#[test]
fn a_match_without_an_episode_has_no_target() {
    let mut m = sample_tv_match(LIB, SOURCE, 1, 1);
    m.source_item.episode = None;
    assert!(matches!(
        target_paths(&linker(), &vec![m]),
        Err(TargetPathError::MissingEpisode)
    ));
}
