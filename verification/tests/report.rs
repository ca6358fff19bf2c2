use symlinkarr::commands::report::anime::{
    anime_libraries, anime_show_root_for_path, build_anime_duplicate_audit,
    build_anime_remediation_report, build_anime_remediation_samples, collect_anime_root_usage,
    compare_root_usage, correlate_anime_duplicate_groups, normalize, remediation_impact,
    summarize_plex_duplicate_show_records, AnimeRootDuplicateGroup, AnimeRootUsage,
    AnimeRootUsageSample, CorrelatedAnimeDuplicateSample, PlexDuplicateShowRecord,
    PlexDuplicateShowSample,
};
use symlinkarr::commands::report::media_type_key;
use symlinkarr::commands::report::path_compare::{
    build_path_compare, sample_difference, sample_intersection, symlink_source_missing,
    symlink_target_under_roots, LinkFact, PlexPathRecord, SymlinkFact, PATH_SAMPLE_LIMIT,
};
use symlinkarr::config::{ContentType, LibraryConfig};
use symlinkarr::models::{LinkRecord, LinkStatus, MediaType};
use symlinkarr::tables::PathMap;

fn usage_map(entries: Vec<(String, AnimeRootUsage)>) -> PathMap<AnimeRootUsage> {
    let mut map = PathMap::new();
    for (path, usage) in entries {
        map.insert(&path, usage);
    }
    map
}

fn anime_library() -> LibraryConfig {
    LibraryConfig {
        name: "Anime".to_string(),
        path: "/anime".to_string(),
        media_type: MediaType::Tv,
        content_type: Some(ContentType::Anime),
        depth: 1,
    }
}

fn link(source: &str, target: &str, media_id: &str, media_type: MediaType) -> LinkRecord {
    LinkRecord {
        id: None,
        source_path: source.to_string(),
        target_path: target.to_string(),
        media_id: media_id.to_string(),
        media_type,
        status: LinkStatus::Active,
        created_at: None,
        updated_at: None,
    }
}

#[test]
fn test_media_type_key_movie() {
    assert_eq!(media_type_key(MediaType::Movie), "movie");
}

#[test]
fn test_media_type_key_tv() {
    assert_eq!(media_type_key(MediaType::Tv), "series");
}

#[test]
fn test_sample_difference_left_only() {
    let left: Vec<String> = vec![
        "/a".to_string(),
        "/b".to_string(),
        "/c".to_string(),
    ];
    let right: Vec<String> = vec!["/b".to_string()];
    let result = sample_difference(&left, &right);
    assert_eq!(result.count, 2);
    assert!(result.samples.contains(&"/a".to_string()));
    assert!(result.samples.contains(&"/c".to_string()));
}

#[test]
fn test_sample_difference_empty() {
    let left: Vec<String> = Vec::new();
    let right: Vec<String> = Vec::new();
    let result = sample_difference(&left, &right);
    assert_eq!(result.count, 0);
    assert!(result.samples.is_empty());
}

#[test]
fn test_sample_difference_identical() {
    let set: Vec<String> = vec!["/x".to_string()];
    let result = sample_difference(&set, &set);
    assert_eq!(result.count, 0);
    assert!(result.samples.is_empty());
}

#[test]
fn test_sample_intersection() {
    let left: Vec<String> = vec!["/a".to_string(), "/b".to_string()];
    let right: Vec<String> = vec!["/b".to_string(), "/c".to_string()];
    let result = sample_intersection(&left, &right);
    assert_eq!(result.count, 1);
    assert_eq!(result.samples, vec!["/b".to_string()]);
}

#[test]
fn test_sample_intersection_empty() {
    let left: Vec<String> = vec!["/a".to_string()];
    let right: Vec<String> = vec!["/b".to_string()];
    let result = sample_intersection(&left, &right);
    assert_eq!(result.count, 0);
    assert!(result.samples.is_empty());
}

#[test]
fn test_summarize_plex_duplicate_show_records_counts_hama_splits() {
    let records = vec![
        PlexDuplicateShowRecord {
            title: "Show A".to_string(),
            original_title: String::new(),
            year: Some(2024),
            guid: "com.plexapp.agents.hama://anidb-100?lang=en".to_string(),
            guid_kind: "hama-anidb".to_string(),
            live: true,
        },
        PlexDuplicateShowRecord {
            title: "Show A".to_string(),
            original_title: String::new(),
            year: Some(2024),
            guid: "com.plexapp.agents.hama://tvdb-200?lang=en".to_string(),
            guid_kind: "hama-tvdb".to_string(),
            live: true,
        },
        PlexDuplicateShowRecord {
            title: "Show B".to_string(),
            original_title: String::new(),
            year: Some(2025),
            guid: "com.plexapp.agents.hama://tvdb-201?lang=en".to_string(),
            guid_kind: "hama-tvdb".to_string(),
            live: true,
        },
        PlexDuplicateShowRecord {
            title: "Show B".to_string(),
            original_title: String::new(),
            year: Some(2025),
            guid: "com.plexapp.agents.hama://tvdb-202?lang=en".to_string(),
            guid_kind: "hama-tvdb".to_string(),
            live: false,
        },
    ];
    let summary = summarize_plex_duplicate_show_records(&records, PATH_SAMPLE_LIMIT);

    assert_eq!(summary.total_groups, 2);
    assert_eq!(summary.hama_anidb_tvdb_groups, 1);
    assert_eq!(summary.other_groups, 1);
    assert_eq!(summary.all_groups.len(), 2);
    assert_eq!(summary.sample_groups.len(), 2);
    assert_eq!(summary.sample_groups[0].total_rows, 2);
    assert_eq!(summary.sample_groups[0].live_rows, 2);
    assert_eq!(summary.sample_groups[0].deleted_rows, 0);
    assert_eq!(summary.sample_groups[1].total_rows, 2);
    assert_eq!(summary.sample_groups[1].live_rows, 1);
    assert_eq!(summary.sample_groups[1].deleted_rows, 1);
    assert_eq!(
        summary.sample_groups[0].guids,
        vec![
            "com.plexapp.agents.hama://anidb-100?lang=en".to_string(),
            "com.plexapp.agents.hama://tvdb-200?lang=en".to_string()
        ]
    );

    let limited = summarize_plex_duplicate_show_records(&records, 1);
    assert_eq!(limited.sample_groups.len(), 1);
    assert_eq!(limited.total_groups, 2);
    assert_eq!(limited.all_groups.len(), 2);
}

#[test]
fn test_correlate_anime_duplicate_groups_matches_hama_split_titles() {
    let filesystem_groups = vec![AnimeRootDuplicateGroup {
        normalized_title: "Show A".to_string(),
        tagged_roots: vec!["/anime/Show A (2024) {tvdb-1}".to_string()],
        untagged_roots: vec!["/anime/Show A".to_string()],
    }];
    let plex_groups = vec![
        PlexDuplicateShowSample {
            title: "Show A".to_string(),
            original_title: String::new(),
            year: Some(2024),
            total_rows: 3,
            live_rows: 2,
            deleted_rows: 1,
            guid_kinds: vec!["hama-anidb".to_string(), "hama-tvdb".to_string()],
            guids: vec![
                "com.plexapp.agents.hama://anidb-100?lang=en".to_string(),
                "com.plexapp.agents.hama://tvdb-200?lang=en".to_string(),
            ],
        },
        PlexDuplicateShowSample {
            title: "Show B".to_string(),
            original_title: String::new(),
            year: Some(2024),
            total_rows: 2,
            live_rows: 2,
            deleted_rows: 0,
            guid_kinds: vec!["hama-tvdb".to_string(), "hama-tvdb".to_string()],
            guids: vec![
                "com.plexapp.agents.hama://tvdb-201?lang=en".to_string(),
                "com.plexapp.agents.hama://tvdb-202?lang=en".to_string(),
            ],
        },
    ];

    let correlated = correlate_anime_duplicate_groups(&filesystem_groups, &plex_groups);
    assert_eq!(
        correlated,
        vec![CorrelatedAnimeDuplicateSample {
            normalized_title: "Show A".to_string(),
            tagged_roots: vec!["/anime/Show A (2024) {tvdb-1}".to_string()],
            untagged_roots: vec!["/anime/Show A".to_string()],
            plex_total_rows: 3,
            plex_live_rows: 2,
            plex_deleted_rows: 1,
            plex_guid_kinds: vec!["hama-anidb".to_string(), "hama-tvdb".to_string()],
            plex_guids: vec![
                "com.plexapp.agents.hama://anidb-100?lang=en".to_string(),
                "com.plexapp.agents.hama://tvdb-200?lang=en".to_string(),
            ],
        }]
    );
}

#[test]
fn test_build_anime_remediation_samples_prioritizes_heaviest_legacy_root() {
    let correlated_groups = vec![
        CorrelatedAnimeDuplicateSample {
            normalized_title: "Show A".to_string(),
            tagged_roots: vec!["/anime/Show A (2024) {tvdb-1}".to_string()],
            untagged_roots: vec!["/anime/Show A".to_string()],
            plex_total_rows: 2,
            plex_live_rows: 2,
            plex_deleted_rows: 0,
            plex_guid_kinds: vec!["hama-anidb".to_string(), "hama-tvdb".to_string()],
            plex_guids: vec![],
        },
        CorrelatedAnimeDuplicateSample {
            normalized_title: "Show B".to_string(),
            tagged_roots: vec!["/anime/Show B (2024) {tvdb-2}".to_string()],
            untagged_roots: vec!["/anime/Show B".to_string()],
            plex_total_rows: 2,
            plex_live_rows: 1,
            plex_deleted_rows: 1,
            plex_guid_kinds: vec!["hama-anidb".to_string(), "hama-tvdb".to_string()],
            plex_guids: vec![],
        },
    ];
    let root_usage = usage_map(vec![
        (
            "/anime/Show A".to_string(),
            AnimeRootUsage {
                filesystem_symlinks: 12,
                db_active_links: 0,
            },
        ),
        (
            "/anime/Show A (2024) {tvdb-1}".to_string(),
            AnimeRootUsage {
                filesystem_symlinks: 8,
                db_active_links: 8,
            },
        ),
        (
            "/anime/Show B".to_string(),
            AnimeRootUsage {
                filesystem_symlinks: 3,
                db_active_links: 2,
            },
        ),
        (
            "/anime/Show B (2024) {tvdb-2}".to_string(),
            AnimeRootUsage {
                filesystem_symlinks: 5,
                db_active_links: 5,
            },
        ),
    ]);

    let remediation = build_anime_remediation_samples(&correlated_groups, &root_usage);
    assert_eq!(remediation.len(), 2);
    assert_eq!(remediation[0].normalized_title, "Show A");
    assert_eq!(remediation[0].legacy_roots[0].filesystem_symlinks, 12);
    assert_eq!(
        remediation[0].recommended_tagged_root.path,
        "/anime/Show A (2024) {tvdb-1}".to_string()
    );
}

#[test]
fn test_build_anime_remediation_samples_prefers_tagged_root_with_more_tracked_links() {
    let tagged_a = "/anime/Show A (2024) {tvdb-1}".to_string();
    let tagged_b = "/anime/Show A (2024) {tvdb-2}".to_string();
    let legacy = "/anime/Show A".to_string();
    let correlated = vec![CorrelatedAnimeDuplicateSample {
        normalized_title: "Show A".to_string(),
        tagged_roots: vec![tagged_a.clone(), tagged_b.clone()],
        untagged_roots: vec![legacy.clone()],
        plex_total_rows: 2,
        plex_live_rows: 2,
        plex_deleted_rows: 0,
        plex_guid_kinds: vec!["hama-anidb".to_string(), "hama-tvdb".to_string()],
        plex_guids: vec![
            "com.plexapp.agents.hama://anidb-100?lang=en".to_string(),
            "com.plexapp.agents.hama://tvdb-200?lang=en".to_string(),
        ],
    }];
    let usage = usage_map(vec![
        (
            tagged_a.clone(),
            AnimeRootUsage {
                filesystem_symlinks: 2,
                db_active_links: 1,
            },
        ),
        (
            tagged_b.clone(),
            AnimeRootUsage {
                filesystem_symlinks: 1,
                db_active_links: 3,
            },
        ),
        (
            legacy.clone(),
            AnimeRootUsage {
                filesystem_symlinks: 7,
                db_active_links: 2,
            },
        ),
    ]);

    let samples = build_anime_remediation_samples(&correlated, &usage);
    assert_eq!(samples.len(), 1);
    assert_eq!(samples[0].recommended_tagged_root.path, tagged_b);
    assert_eq!(samples[0].recommended_tagged_root.db_active_links, 3);
    assert_eq!(samples[0].alternate_tagged_roots.len(), 1);
    assert_eq!(samples[0].alternate_tagged_roots[0].path, tagged_a);
    assert_eq!(samples[0].legacy_roots.len(), 1);
    assert_eq!(samples[0].legacy_roots[0].path, legacy);
    assert_eq!(samples[0].legacy_roots[0].filesystem_symlinks, 7);
}

#[test]
fn test_collect_anime_root_usage_counts_filesystem_and_db_activity() {
    let legacy_root = "/anime/Show A";
    let tagged_root = "/anime/Show A (2024) {tvdb-1}";
    let legacy_link = "/anime/Show A/Season 01/Show A - S01E01.mkv";
    let tagged_link = "/anime/Show A (2024) {tvdb-1}/Season 01/Show A - S01E02.mkv";
    let link_records = vec![link("/rd/show-a-e02.mkv", tagged_link, "tvdb-1", MediaType::Tv)];

    let usage = collect_anime_root_usage(
        &vec![anime_library()],
        &vec![legacy_link.to_string(), tagged_link.to_string()],
        &link_records,
    );
    assert_eq!(usage.get(legacy_root).unwrap().filesystem_symlinks, 1);
    assert_eq!(usage.get(legacy_root).unwrap().db_active_links, 0);
    assert_eq!(usage.get(tagged_root).unwrap().filesystem_symlinks, 1);
    assert_eq!(usage.get(tagged_root).unwrap().db_active_links, 1);
}

#[test]
fn test_collect_anime_root_usage_counts_fs_and_db_links_per_show_root() {
    let tagged_root = "/anime/Show A (2024) {tvdb-1}";
    let legacy_root = "/anime/Show A";
    let tagged_link = "/anime/Show A (2024) {tvdb-1}/Season 01/Show A - S01E01.mkv";
    let legacy_link = "/anime/Show A/Season 01/Show A - S01E01.mkv";
    let link_records = vec![
        link("/rd/tagged.mkv", tagged_link, "tvdb-1", MediaType::Tv),
        link("/rd/legacy.mkv", legacy_link, "tvdb-1", MediaType::Tv),
    ];

    let usage = collect_anime_root_usage(
        &vec![anime_library()],
        &vec![tagged_link.to_string(), legacy_link.to_string()],
        &link_records,
    );
    assert_eq!(
        usage.get(tagged_root),
        Some(&AnimeRootUsage {
            filesystem_symlinks: 1,
            db_active_links: 1,
        })
    );
    assert_eq!(
        usage.get(legacy_root),
        Some(&AnimeRootUsage {
            filesystem_symlinks: 1,
            db_active_links: 1,
        })
    );
}

#[test]
fn test_symlink_source_missing_broken() {
    assert!(symlink_source_missing(&Some("/nonexistent_target".to_string()), false));
}

#[test]
fn test_symlink_source_missing_valid() {
    assert!(!symlink_source_missing(&Some("/tmp/target_file".to_string()), true));
}

fn symlink_fact(path: &str, held: &str, source_exists: bool) -> SymlinkFact {
    SymlinkFact { path: path.to_string(), held: Some(held.to_string()), source_exists }
}

fn plex_path(path: &str, deleted_only: bool) -> PlexPathRecord {
    PlexPathRecord { path: path.to_string(), deleted_only }
}

const MOVIE_A: &str = "/movies/Movie A {tmdb-1}/Movie A.mkv";
const MOVIE_B: &str = "/movies/Movie B {tmdb-2}/Movie B.mkv";
const SHOW_A: &str = "/anime/Show A {tvdb-10}/Season 01/Show A - S01E01.mkv";
const SHOW_B: &str = "/anime/Show B {tvdb-11}/Season 01/Show B - S01E01.mkv";

fn drifted_links() -> Vec<LinkFact> {
    vec![
        LinkFact {
            record: link("/rd/movie-a-source.mkv", MOVIE_A, "tmdb-1", MediaType::Movie),
            source_exists: true,
        },
        LinkFact {
            record: link("/rd/show-a-source.mkv", SHOW_A, "tvdb-10", MediaType::Tv),
            source_exists: false,
        },
    ]
}

fn drifted_symlinks() -> Vec<SymlinkFact> {
    vec![
        symlink_fact(MOVIE_A, "/rd/movie-a-source.mkv", true),
        symlink_fact(MOVIE_B, "/rd/movie-b-source.mkv", true),
    ]
}

#[test]
fn test_build_report_path_compare_tracks_fs_db_and_plex_drift() {
    let compare = build_path_compare(
        &drifted_links(),
        &drifted_symlinks(),
        Some(&vec![plex_path(MOVIE_A, false), plex_path(SHOW_B, false)]),
        &Vec::new(),
    );
    assert_eq!(compare.filesystem_symlinks, 2);
    assert_eq!(compare.db_active_links, 2);
    assert_eq!(compare.plex_indexed_files, Some(2));
    assert_eq!(compare.plex_deleted_paths, Some(0));
    assert_eq!(compare.fs_not_in_db.count, 1);
    assert_eq!(compare.db_not_on_fs.count, 1);
    assert_eq!(compare.fs_not_in_plex.as_ref().unwrap().count, 1);
    assert_eq!(compare.db_not_in_plex.as_ref().unwrap().count, 1);
    assert_eq!(compare.plex_not_on_fs.as_ref().unwrap().count, 1);
    assert_eq!(compare.plex_deleted_and_known_missing_source.as_ref().unwrap().count, 0);
    assert_eq!(compare.plex_deleted_without_known_missing_source.as_ref().unwrap().count, 0);
    assert_eq!(compare.all_three, Some(1));
    assert_eq!(compare.fs_not_in_db.samples, vec![MOVIE_B]);
    assert_eq!(compare.db_not_on_fs.samples, vec![SHOW_A]);
    assert_eq!(compare.plex_not_on_fs.as_ref().unwrap().samples, vec![SHOW_B]);
}

#[test]
fn test_build_report_path_compare_without_plex_db_still_tracks_fs_db_drift() {
    let compare = build_path_compare(&drifted_links(), &drifted_symlinks(), None, &Vec::new());
    assert_eq!(compare.filesystem_symlinks, 2);
    assert_eq!(compare.db_active_links, 2);
    assert_eq!(compare.plex_indexed_files, None);
    assert_eq!(compare.plex_deleted_paths, None);
    assert_eq!(compare.fs_not_in_db.count, 1);
    assert_eq!(compare.db_not_on_fs.count, 1);
    assert_eq!(compare.fs_not_in_db.samples, vec![MOVIE_B]);
    assert_eq!(compare.db_not_on_fs.samples, vec![SHOW_A]);
    assert_eq!(compare.fs_not_in_plex, None);
    assert_eq!(compare.db_not_in_plex, None);
    assert_eq!(compare.plex_not_on_fs, None);
    assert_eq!(compare.all_three, None);
}

#[test]
fn test_build_report_path_compare_does_not_treat_plex_deleted_as_truth_without_missing_source() {
    let links = vec![LinkFact {
        record: link("/rd/movie-a-source.mkv", MOVIE_A, "tmdb-1", MediaType::Movie),
        source_exists: true,
    }];
    let compare = build_path_compare(
        &links,
        &vec![symlink_fact(MOVIE_A, "/rd/movie-a-source.mkv", true)],
        Some(&vec![plex_path(MOVIE_A, true)]),
        &Vec::new(),
    );
    assert_eq!(compare.plex_indexed_files, Some(1));
    assert_eq!(compare.plex_deleted_paths, Some(1));
    assert_eq!(compare.plex_deleted_and_known_missing_source.as_ref().unwrap().count, 0);
    let kept = compare.plex_deleted_without_known_missing_source.as_ref().unwrap();
    assert_eq!(kept.count, 1);
    assert_eq!(kept.samples, vec![MOVIE_A]);
}

#[test]
fn unreachable_sources_are_not_missing() {
    let links = vec![LinkFact {
        record: link("/rd/movie-a-source.mkv", MOVIE_A, "tmdb-1", MediaType::Movie),
        source_exists: false,
    }];
    let symlinks = vec![symlink_fact(MOVIE_A, "/rd/movie-a-source.mkv", false)];
    let plex = vec![plex_path(MOVIE_A, true)];
    let known = build_path_compare(&links, &symlinks, Some(&plex), &Vec::new());
    assert_eq!(known.plex_deleted_and_known_missing_source.as_ref().unwrap().count, 1);
    assert_eq!(known.unreachable_sources, None);
    let unknown = build_path_compare(&links, &symlinks, Some(&plex), &vec!["/rd".to_string()]);
    assert_eq!(unknown.plex_deleted_and_known_missing_source.as_ref().unwrap().count, 0);
    assert!(unknown.unreachable_sources.is_some());
    assert!(symlink_target_under_roots(
        MOVIE_A,
        &Some("/rd/movie-a-source.mkv".to_string()),
        &vec!["/rd".to_string()]
    ));
}

#[test]
fn samples_are_capped_and_counts_are_not() {
    let left: Vec<String> = (0..PATH_SAMPLE_LIMIT + 3).map(|i| format!("/p/{i:02}")).collect();
    let result = sample_difference(&left, &Vec::new());
    assert_eq!(result.count, PATH_SAMPLE_LIMIT + 3);
    assert_eq!(result.samples.len(), PATH_SAMPLE_LIMIT);
    assert_eq!(result.samples[0], "/p/00");
    let shared = sample_intersection(&left, &vec!["/p/01".to_string()]);
    assert_eq!(shared.count + sample_difference(&left, &vec!["/p/01".to_string()]).count, left.len());
}

fn duplicate_group(title: &str) -> AnimeRootDuplicateGroup {
    AnimeRootDuplicateGroup {
        normalized_title: title.to_string(),
        tagged_roots: vec![format!("/anime/{title} (2014) {{tvdb-279827}}")],
        untagged_roots: vec![format!("/anime/{title}")],
    }
}

#[test]
fn test_build_report_includes_anime_duplicate_audit_without_plex_db() {
    let libraries = vec![anime_library()];
    let audit = build_anime_duplicate_audit(
        &libraries,
        &vec![duplicate_group("Aldnoah.Zero")],
        None,
        &Vec::new(),
        &Vec::new(),
        false,
    )
    .expect("anime audit present");
    assert_eq!(audit.filesystem_mixed_root_groups, 1);
    assert_eq!(audit.filesystem_sample_groups.len(), 1);
    assert_eq!(audit.filesystem_sample_groups[0].normalized_title, "Aldnoah.Zero");
    assert_eq!(audit.plex_duplicate_show_groups, None);
    assert_eq!(audit.correlated_hama_split_groups, None);
    assert_eq!(audit.correlated_sample_groups, None);
    assert_eq!(audit.remediation_groups, None);
    assert_eq!(audit.remediation_sample_groups, None);
}

#[test]
fn test_build_report_full_anime_duplicates_disables_sample_cap() {
    let groups: Vec<AnimeRootDuplicateGroup> =
        (0..PATH_SAMPLE_LIMIT + 3).map(|idx| duplicate_group(&format!("Show {idx:02}"))).collect();
    let libraries = vec![anime_library()];
    let capped =
        build_anime_duplicate_audit(&libraries, &groups, None, &Vec::new(), &Vec::new(), false)
            .unwrap();
    assert_eq!(capped.filesystem_mixed_root_groups, PATH_SAMPLE_LIMIT + 3);
    assert_eq!(capped.filesystem_sample_groups.len(), PATH_SAMPLE_LIMIT);
    let full =
        build_anime_duplicate_audit(&libraries, &groups, None, &Vec::new(), &Vec::new(), true)
            .unwrap();
    assert_eq!(full.filesystem_sample_groups.len(), PATH_SAMPLE_LIMIT + 3);
}

#[test]
fn no_anime_library_no_audit() {
    let mut library = anime_library();
    library.content_type = Some(ContentType::Tv);
    assert!(anime_libraries(&vec![library.clone()]).is_empty());
    assert!(build_anime_duplicate_audit(
        &vec![library],
        &Vec::new(),
        None,
        &Vec::new(),
        &Vec::new(),
        false
    )
    .is_none());
}

fn show(guid: &str, kind: &str) -> PlexDuplicateShowRecord {
    PlexDuplicateShowRecord {
        title: "Aldnoah.Zero".to_string(),
        original_title: String::new(),
        year: Some(2014),
        guid: guid.to_string(),
        guid_kind: kind.to_string(),
        live: true,
    }
}

#[test]
fn split_shows_are_remedied() {
    let audit = build_anime_duplicate_audit(
        &vec![anime_library()],
        &vec![duplicate_group("Aldnoah.Zero")],
        Some(&vec![show("anidb-1", "hama-anidb"), show("tvdb-1", "hama-tvdb")]),
        &vec!["/anime/Aldnoah.Zero/Season 01/e.mkv".to_string()],
        &Vec::new(),
        false,
    )
    .unwrap();
    assert_eq!(audit.plex_hama_anidb_tvdb_groups, Some(1));
    assert_eq!(audit.correlated_hama_split_groups, Some(1));
    let report = build_anime_remediation_report("2024-01-01T00:00:00+00:00".to_string(), audit);
    assert_eq!(report.returned_groups, 1);
    assert_eq!(report.groups[0].legacy_roots[0].path, "/anime/Aldnoah.Zero");
    assert_eq!(report.groups[0].legacy_roots[0].filesystem_symlinks, 1);
    assert_eq!(remediation_impact(&report.groups[0]).0, 1);
}

#[test]
fn titles_are_compared_without_case_and_marks() {
    assert_eq!(normalize("Aldnoah.Zero"), normalize("ALDNOAH ZERO"));
    assert_ne!(normalize("Aldnoah"), normalize("Aldnoah Zero"));
}

#[test]
fn roots_stand_right_below_the_library() {
    assert_eq!(
        anime_show_root_for_path(&vec![anime_library()], "/anime/Show A/Season 01/e.mkv"),
        Some("/anime/Show A".to_string())
    );
    assert_eq!(anime_show_root_for_path(&vec![anime_library()], "/movies/M/m.mkv"), None);
}

#[test]
fn the_root_with_more_links_comes_first() {
    let sample = |path: &str, filesystem_symlinks, db_active_links| AnimeRootUsageSample {
        path: path.to_string(),
        filesystem_symlinks,
        db_active_links,
    };
    assert!(compare_root_usage(&sample("/b", 1, 3), &sample("/a", 2, 1)));
    assert!(!compare_root_usage(&sample("/a", 2, 1), &sample("/b", 1, 3)));
}
