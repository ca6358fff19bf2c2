use symlinkarr::handoff::{
    import_markers, is_marker_path, pin_batch, pin_changes, read_markers, Marker, MarkerFile,
    MarkerImport, PinRow,
};

fn marker(path: &str, tvdb_id: Option<u64>, tmdb_id: Option<u64>) -> Marker {
    Marker {
        materialized_relative_path: path.to_string(),
        tvdb_id,
        tmdb_id,
        media_title: None,
        rd_id: None,
    }
}

fn file(path: &str, marker: Option<Marker>) -> MarkerFile {
    MarkerFile { path: path.to_string(), marker }
}

fn sample() -> Vec<MarkerFile> {
    let mut show = marker("Show.S01.Pack/Show.S01E01.mkv", Some(449988), None);
    show.media_title = Some("Show S01".to_string());
    show.rd_id = Some("RD1".to_string());
    let mut legacy = marker("Legacy/x.mkv", None, None);
    legacy.media_title = Some("Legacy".to_string());
    vec![
        file("/markers/aaa.json", Some(show)),
        file("/markers/bbb.json", Some(marker("Movie.2014/Movie.2014.mkv", None, Some(603)))),
        file("/markers/old.json", Some(legacy)),
        file("/markers/broken.json", None),
    ]
}

#[test]
fn markers_become_pins_and_are_consumed() {
    assert!(is_marker_path("/markers/aaa.json"));
    assert!(!is_marker_path("/markers/.hidden.json.tmp"));
    assert!(!is_marker_path("/markers/notes.txt"));

    let files = sample();
    let (parsed, _) = read_markers(&files);
    let batch = pin_batch(&parsed);
    assert_eq!(batch.rows.len(), 2);
    assert_eq!(batch.rows[0].source_folder, "Movie.2014");
    assert_eq!(batch.rows[0].media_id, "tmdb-603");
    assert_eq!(batch.rows[1].media_id, "tvdb-449988");
    assert_eq!(batch.rows[1].note.as_deref(), Some("Show S01 (RD1)"));
    assert_eq!(batch.rows[1].origin, "handoff");
    assert!(!batch.files.contains(&"/markers/old.json".to_string()));
    assert!(!batch.files.contains(&"/markers/broken.json".to_string()));

    let import = import_markers(&files, Some(2), true, &vec![true; batch.files.len()]);
    assert_eq!(
        import,
        MarkerImport {
            imported: 2,
            changed: 2,
            without_id: 1,
            unreadable: 1,
            consumed: 2,
            imported_folders: vec!["Movie.2014".to_string(), "Show.S01.Pack".to_string()],
        }
    );

    let left = vec![sample().remove(2), sample().remove(3)];
    let again = import_markers(&left, Some(0), true, &Vec::new());
    assert_eq!(again.imported, 0);
    assert_eq!(again.without_id, 1);
}

#[test]
fn keep_markers_when_not_consuming() {
    let files =
        vec![file("/markers/aaa.json", Some(marker("Show.S01.Pack/Show.S01E01.mkv", Some(1), None)))];
    let first = import_markers(&files, Some(1), false, &vec![false]);
    assert_eq!((first.imported, first.changed, first.consumed), (1, 1, 0));
    let second = import_markers(&files, Some(0), false, &vec![false]);
    assert_eq!((second.imported, second.changed), (1, 0));
}

#[test]
fn missing_dir_is_reported_not_fatal() {
    let import = import_markers(&Vec::new(), Some(0), true, &Vec::new());
    assert_eq!(import, MarkerImport::default());
}

#[test]
fn pins_that_could_not_be_stored_leave_the_markers() {
    let import = import_markers(&sample(), None, true, &vec![true, true]);
    assert_eq!(import.imported, 0);
    assert!(import.imported_folders.is_empty());
    assert_eq!(import.consumed, 0);
    assert_eq!(import.changed, 0);
    assert!(!import.summary_line().is_empty());
}

#[test]
fn a_pin_changes_its_folder_where_that_is_new_or_moved() {
    let pin = PinRow {
        source_folder: "Show".to_string(),
        media_id: "tvdb-1".to_string(),
        origin: "handoff".to_string(),
        note: None,
    };
    assert!(pin_changes(None, &pin));
    assert!(pin_changes(Some("tvdb-2"), &pin));
    assert!(!pin_changes(Some("tvdb-1"), &pin));
}
