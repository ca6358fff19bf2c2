use symlinkarr::config::{ContentType, LibraryConfig};
use symlinkarr::library_scanner::{FolderEntry, LibraryScanner};
use symlinkarr::models::{MediaId, MediaType};

fn test_lib(media_type: MediaType) -> LibraryConfig {
    LibraryConfig {
        name: "Test".to_string(),
        path: "/library".to_string(),
        media_type,
        content_type: None,
        depth: 1,
    }
}

fn folder(name: &str) -> FolderEntry {
    FolderEntry { name: name.to_string(), path: format!("/library/{name}"), is_dir: true }
}

#[test]
fn test_parse_tvdb_folder() {
    let scanner = LibraryScanner::new();
    let lib = test_lib(MediaType::Tv);
    let results = scanner.scan_library(&lib, &vec![folder("Breaking Bad {tvdb-81189}")]);

    assert_eq!(results.len(), 1);
    assert_eq!(results[0].id, MediaId::Tvdb(81189));
    assert_eq!(results[0].title, "Breaking Bad");
    assert_eq!(results[0].content_type, ContentType::Tv);
    assert_eq!(results[0].library_name, "Test");
}

#[test]
fn test_parse_tmdb_folder() {
    let scanner = LibraryScanner::new();
    let lib = test_lib(MediaType::Movie);
    let results = scanner.scan_library(&lib, &vec![folder("The Matrix {tmdb-603}")]);

    assert_eq!(results.len(), 1);
    assert_eq!(results[0].id, MediaId::Tmdb(603));
    assert_eq!(results[0].title, "The Matrix");
}

#[test]
fn test_no_id_folder_is_skipped() {
    let scanner = LibraryScanner::new();
    let lib = test_lib(MediaType::Tv);
    let results = scanner.scan_library(&lib, &vec![folder("Some Random Folder")]);

    assert!(results.is_empty());
}

#[test]
fn test_files_not_included() {
    let scanner = LibraryScanner::new();
    let lib = test_lib(MediaType::Tv);
    let mut file = folder("Not A Dir {tvdb-12345}");
    file.is_dir = false;
    let results = scanner.scan_library(&lib, &vec![file]);

    assert!(results.is_empty());
}

#[test]
fn test_multiple_folders_in_library() {
    let scanner = LibraryScanner::new();
    let lib = test_lib(MediaType::Tv);
    let results = scanner.scan_library(
        &lib,
        &vec![
            folder("Breaking Bad {tvdb-81189}"),
            folder("The Matrix {tmdb-603}"),
            folder("Unknown {imdb-tt123}"),
        ],
    );

    assert_eq!(results.len(), 2);
    let ids: Vec<_> = results.iter().map(|r| r.id.clone()).collect();
    assert!(ids.contains(&MediaId::Tvdb(81189)));
    assert!(ids.contains(&MediaId::Tmdb(603)));
}

#[test]
fn test_title_cleanup_removes_id_tag() {
    let scanner = LibraryScanner::new();
    let lib = test_lib(MediaType::Movie);
    let results = scanner.scan_library(&lib, &vec![folder("  Movie Title  {tmdb-999}  ")]);

    assert_eq!(results.len(), 1);
    assert_eq!(results[0].title, "Movie Title");
}

#[test]
fn test_tvdb_and_tmdb_in_same_directory() {
    let scanner = LibraryScanner::new();
    let lib = test_lib(MediaType::Movie);
    let results =
        scanner.scan_library(&lib, &vec![folder("Movie {tmdb-100}"), folder("Show {tvdb-200}")]);

    assert_eq!(results.len(), 2);
    let ids: Vec<_> = results.iter().map(|r| r.id.clone()).collect();
    assert!(ids.contains(&MediaId::Tmdb(100)));
    assert!(ids.contains(&MediaId::Tvdb(200)));
}

#[test]
fn the_first_tag_counts() {
    let scanner = LibraryScanner::new();
    let lib = test_lib(MediaType::Tv);
    let item = scanner
        .parse_folder("A {tvdb-} B {tmdb-7} {tvdb-8}", "/library/x", &lib)
        .unwrap();
    assert_eq!(item.id, MediaId::Tmdb(7));
    assert_eq!(item.path, "/library/x");
    assert!(scanner
        .parse_folder("Too Long {tvdb-99999999999999999999}", "/library/y", &lib)
        .is_none());
}

#[test]
fn all_libraries_are_sorted_by_title_without_case() {
    let scanner = LibraryScanner::new();
    let libraries = vec![test_lib(MediaType::Tv), test_lib(MediaType::Movie)];
    let items = scanner.scan_all(
        &libraries,
        &vec![
            vec![folder("beta {tvdb-2}"), folder("Delta {tvdb-4}")],
            vec![folder("ÉTUDE {tmdb-5}"), folder("Alpha {tmdb-1}"), folder("gamma {tmdb-3}")],
        ],
    );
    let titles: Vec<&str> = items.iter().map(|item| item.title.as_str()).collect();
    assert_eq!(titles, vec!["Alpha", "beta", "Delta", "gamma", "ÉTUDE"]);
}

#[test]
fn equal_titles_keep_the_order_of_the_libraries() {
    let scanner = LibraryScanner::new();
    let libraries = vec![test_lib(MediaType::Tv), test_lib(MediaType::Movie)];
    let entries = vec![
        vec![folder("beta {tvdb-2}"), folder("Alpha {tvdb-1}")],
        vec![folder("ALPHA {tmdb-3}"), folder("Gamma {tmdb-4}")],
    ];
    let items = scanner.scan_all(&libraries, &entries);
    let ids: Vec<MediaId> = items.iter().map(|item| item.id).collect();
    assert_eq!(
        ids,
        vec![MediaId::Tvdb(1), MediaId::Tmdb(3), MediaId::Tvdb(2), MediaId::Tmdb(4)]
    );
}
