//! Handoff markers: files in which an acquisition tool names the folder that a
//! torrent became and the id it was acquired for. Each marker with an id becomes a
//! pin of that folder.

use vstd::prelude::*;
use crate::models::MediaId;
use crate::order;
use crate::paths;
use crate::text;

verus! {

/// What a marker file says.
#[derive(Debug, PartialEq, Eq)]
pub struct Marker {
    /// The path of a file of the torrent; its first component is the folder.
    pub materialized_relative_path: String,
    pub tvdb_id: Option<u64>,
    pub tmdb_id: Option<u64>,
    pub media_title: Option<String>,
    pub rd_id: Option<String>,
}

/// A marker file, with what it says where that could be read.
#[derive(Debug, PartialEq, Eq)]
pub struct MarkerFile {
    pub path: String,
    pub marker: Option<Marker>,
}

/// What an import of markers did.
#[derive(Debug, PartialEq, Eq)]
pub struct MarkerImport {
    /// Folders that were pinned.
    pub imported: usize,
    /// Pins that are new or moved to another id.
    pub changed: usize,
    /// Markers without an id, which stay for a later pass.
    pub without_id: usize,
    /// Markers that could not be read.
    pub unreadable: usize,
    /// Marker files that were removed once their pin was stored.
    pub consumed: usize,
    /// The folders that were pinned.
    pub imported_folders: Vec<String>,
}

impl Default for MarkerImport {
    fn default() -> (out: Self)
        ensures
            out.imported == 0,
            out.changed == 0,
            out.without_id == 0,
            out.unreadable == 0,
            out.consumed == 0,
            out.imported_folders@.len() == 0,
    {
        MarkerImport {
            imported: 0,
            changed: 0,
            without_id: 0,
            unreadable: 0,
            consumed: 0,
            imported_folders: Vec::new(),
        }
    }
}

/// A count with what it counts, where there is something to count.
pub open spec fn counted(n: usize, what: Seq<char>) -> Seq<Seq<char>> {
    text::when(n > 0, text::decimal(n as nat) + what)
}

fn note_count(parts: &mut Vec<String>, n: usize, what: &str)
    ensures
        text::views(final(parts)@) == text::views(old(parts)@) + counted(n, what@),
{
    let line = text::concat2(text::decimal_text(n as u64).as_str(), what);
    text::note_when(parts, n > 0, line.as_str());
}

impl MarkerImport {
    /// The parts of the line that tells what the import did.
    pub open spec fn summary_parts(&self) -> Seq<Seq<char>> {
        seq![text::decimal(self.imported as nat) + " pin(s) imported"@] + counted(
            self.changed,
            " new"@,
        ) + counted(self.without_id, " without id"@) + counted(self.unreadable, " unreadable"@)
            + counted(self.consumed, " consumed"@)
    }

    /// One line that tells what the import did.
    pub fn summary_line(&self) -> (out: String)
        ensures
            out@ == text::join(self.summary_parts(), ", "@),
    {
        let mut parts: Vec<String> = Vec::new();
        text::push_text(
            &mut parts,
            text::concat2(text::decimal_text(self.imported as u64).as_str(), " pin(s) imported"),
        );
        assert(text::views(parts@) =~= seq![
            text::decimal(self.imported as nat) + " pin(s) imported"@,
        ]);
        note_count(&mut parts, self.changed, " new");
        note_count(&mut parts, self.without_id, " without id");
        note_count(&mut parts, self.unreadable, " unreadable");
        note_count(&mut parts, self.consumed, " consumed");
        text::join_texts(&parts, ", ")
    }
}

/// A marker that yields a pin.
#[derive(Debug, PartialEq, Eq)]
pub struct ParsedMarker {
    pub folder: String,
    pub media_id: MediaId,
    pub note: Option<String>,
    pub path: String,
}

/// Whether a path is that of a marker: a `.json` file that is not hidden.
pub open spec fn names_marker(path: Seq<char>) -> bool {
    match paths::file_name(path) {
        Some(name) => text::ends(name, ".json"@) && !text::begins(name, "."@),
        None => false,
    }
}

/// Whether a path is that of a marker.
pub fn is_marker_path(path: &str) -> (b: bool)
    ensures
        b == names_marker(path@),
{
    match paths::file_name_of(path) {
        Some(name) => text::ends_with(name.as_str(), ".json") && !text::begins_with(
            name.as_str(),
            ".",
        ),
        None => false,
    }
}

impl Marker {
    /// The folder that the torrent became.
    pub open spec fn folder(&self) -> Seq<char> {
        text::trim(text::split(self.materialized_relative_path@, '/')[0])
    }

    /// The id, where there is one; that of TVDB goes first.
    pub open spec fn id(&self) -> Option<MediaId> {
        match (self.tvdb_id, self.tmdb_id) {
            (Some(n), _) => Some(MediaId::Tvdb(n)),
            (None, Some(n)) => Some(MediaId::Tmdb(n)),
            (None, None) => None,
        }
    }

    /// The note of the pin: the title and the torrent's number, as far as given.
    pub open spec fn note(&self) -> Option<Seq<char>> {
        match (self.media_title, self.rd_id) {
            (Some(title), Some(rd)) => Some(title@ + " ("@ + rd@ + ")"@),
            (Some(title), None) => Some(title@),
            (None, Some(rd)) => Some(rd@),
            (None, None) => None,
        }
    }

    fn folder_text(&self) -> (out: String)
        ensures
            out@ == self.folder(),
    {
        let pieces = text::split_text(self.materialized_relative_path.as_str(), '/');
        assert(pieces@[0]@ == text::views(pieces@)[0]);
        text::trimmed(pieces[0].as_str())
    }

    fn note_text(&self) -> (out: Option<String>)
        ensures
            text::opt(out) == self.note(),
    {
        match &self.media_title {
            Some(title) => match &self.rd_id {
                Some(rd) => Some(text::concat4(title.as_str(), " (", rd.as_str(), ")")),
                None => Some(title.clone()),
            },
            None => match &self.rd_id {
                Some(rd) => Some(rd.clone()),
                None => None,
            },
        }
    }
}

impl MarkerFile {
    /// Whether the file says no folder.
    pub open spec fn unreadable(&self) -> bool {
        match self.marker {
            Some(m) => m.folder().len() == 0,
            None => true,
        }
    }

    /// Whether the file says a folder but no id.
    pub open spec fn lacks_id(&self) -> bool {
        !self.unreadable() && self.marker->0.id() is None
    }

    /// Whether the file yields a pin.
    pub open spec fn pins(&self) -> bool {
        !self.unreadable() && self.marker->0.id() is Some
    }
}

/// Whether a parsed marker is that of a file.
pub open spec fn parsed_fits(parsed: ParsedMarker, file: MarkerFile) -> bool {
    &&& file.marker is Some
    &&& parsed.folder@ == file.marker->0.folder()
    &&& Some(parsed.media_id) == file.marker->0.id()
    &&& text::opt(parsed.note) == file.marker->0.note()
    &&& parsed.path == file.path
}

/// Whether the markers are those of the files that yield a pin, in order.
pub open spec fn markers_fit(parsed: Seq<ParsedMarker>, files: Seq<MarkerFile>) -> bool
    decreases files.len(),
{
    if files.len() == 0 {
        parsed.len() == 0
    } else if files.last().pins() {
        parsed.len() > 0 && parsed_fits(parsed.last(), files.last()) && markers_fit(
            parsed.drop_last(),
            files.drop_last(),
        )
    } else {
        markers_fit(parsed, files.drop_last())
    }
}

/// The number of files of a kind.
pub open spec fn files_of(files: Seq<MarkerFile>, kind: spec_fn(MarkerFile) -> bool) -> nat
    decreases files.len(),
{
    if files.len() == 0 {
        0
    } else {
        files_of(files.drop_last(), kind) + if kind(files.last()) {
            1nat
        } else {
            0nat
        }
    }
}

/// The number of files that say no folder.
pub open spec fn unreadable_count(files: Seq<MarkerFile>) -> nat {
    files_of(files, |f: MarkerFile| f.unreadable())
}

/// The number of files that say a folder but no id.
pub open spec fn without_id_count(files: Seq<MarkerFile>) -> nat {
    files_of(files, |f: MarkerFile| f.lacks_id())
}

/// Every marker file is accounted for: it yields a pin, lacks an id, or is unreadable.
pub proof fn lemma_every_marker_is_counted(parsed: Seq<ParsedMarker>, files: Seq<MarkerFile>)
    requires
        markers_fit(parsed, files),
    ensures
        parsed.len() + without_id_count(files) + unreadable_count(files) == files.len(),
    decreases files.len(),
{
    if files.len() > 0 {
        if files.last().pins() {
            lemma_every_marker_is_counted(parsed.drop_last(), files.drop_last());
        } else {
            lemma_every_marker_is_counted(parsed, files.drop_last());
        }
    }
}

/// Sorts the marker files: the pins that they yield, and how many were skipped.
pub fn read_markers(files: &Vec<MarkerFile>) -> (out: (Vec<ParsedMarker>, MarkerImport))
    ensures
        markers_fit(out.0@, files@),
        out.1.unreadable == unreadable_count(files@),
        out.1.without_id == without_id_count(files@),
        out.1.imported == 0 && out.1.changed == 0 && out.1.consumed == 0,
        out.1.imported_folders@.len() == 0,
{
    let mut pins: Vec<ParsedMarker> = Vec::new();
    let mut import = MarkerImport::default();
    let mut i: usize = 0;
    while i < files.len()
        invariant
            i <= files@.len(),
            markers_fit(pins@, files@.take(i as int)),
            import.unreadable == unreadable_count(files@.take(i as int)),
            import.without_id == without_id_count(files@.take(i as int)),
            import.unreadable <= i,
            import.without_id <= i,
            import.imported == 0 && import.changed == 0 && import.consumed == 0,
            import.imported_folders@.len() == 0,
        decreases files@.len() - i,
    {
        let file = &files[i];
        let ghost before = pins@;
        assert(files@.take(i + 1).drop_last() == files@.take(i as int));
        assert(files@.take(i + 1).last() == *file);
        match &file.marker {
            None => {
                import.unreadable = import.unreadable + 1;
            },
            Some(marker) => {
                let folder = marker.folder_text();
                if folder.as_str().is_empty() {
                    import.unreadable = import.unreadable + 1;
                } else {
                    let id = match marker.tvdb_id {
                        Some(n) => Some(MediaId::Tvdb(n)),
                        None => match marker.tmdb_id {
                            Some(n) => Some(MediaId::Tmdb(n)),
                            None => None,
                        },
                    };
                    match id {
                        None => {
                            import.without_id = import.without_id + 1;
                        },
                        Some(media_id) => {
                            pins.push(
                                ParsedMarker {
                                    folder,
                                    media_id,
                                    note: marker.note_text(),
                                    path: file.path.clone(),
                                },
                            );
                            assert(pins@.drop_last() == before);
                        },
                    }
                }
            },
        }
        i += 1;
    }
    assert(files@.take(i as int) == files@);
    (pins, import)
}

/// A row of the pins.
#[derive(Debug, PartialEq, Eq)]
pub struct PinRow {
    pub source_folder: String,
    pub media_id: String,
    pub origin: String,
    pub note: Option<String>,
}

/// What an import stores, and the files it may remove once that is stored.
#[derive(Debug, PartialEq, Eq)]
pub struct PinBatch {
    pub rows: Vec<PinRow>,
    pub folders: Vec<String>,
    pub files: Vec<String>,
}

/// The folders of the markers, each once, in ascending order.
pub open spec fn marker_folders(parsed: Seq<ParsedMarker>) -> Seq<Seq<char>> {
    order::distinct::<order::ByText>(parsed.map_values(|p: ParsedMarker| p.folder@))
}

/// The last marker of a folder.
pub open spec fn last_for(parsed: Seq<ParsedMarker>, folder: Seq<char>) -> Option<ParsedMarker>
    decreases parsed.len(),
{
    if parsed.len() == 0 {
        None
    } else if parsed.last().folder@ == folder {
        Some(parsed.last())
    } else {
        last_for(parsed.drop_last(), folder)
    }
}

/// The files of the markers of a folder, in order.
pub open spec fn files_for(parsed: Seq<ParsedMarker>, folder: Seq<char>) -> Seq<Seq<char>>
    decreases parsed.len(),
{
    if parsed.len() == 0 {
        Seq::<Seq<char>>::empty()
    } else if parsed.last().folder@ == folder {
        files_for(parsed.drop_last(), folder).push(parsed.last().path@)
    } else {
        files_for(parsed.drop_last(), folder)
    }
}

/// The files of the markers of the folders, one folder after the other.
pub open spec fn files_of_folders(
    parsed: Seq<ParsedMarker>,
    folders: Seq<Seq<char>>,
) -> Seq<Seq<char>>
    decreases folders.len(),
{
    if folders.len() == 0 {
        Seq::<Seq<char>>::empty()
    } else {
        files_of_folders(parsed, folders.drop_last()) + files_for(parsed, folders.last())
    }
}

/// Whether a row pins a folder to the id of the last marker of that folder.
pub open spec fn row_fits(row: PinRow, parsed: Seq<ParsedMarker>, folder: Seq<char>) -> bool {
    &&& last_for(parsed, folder) is Some
    &&& row.source_folder@ == folder
    &&& row.media_id@ == last_for(parsed, folder)->0.media_id.spelled()
    &&& row.origin@ == "handoff"@
    &&& row.note == last_for(parsed, folder)->0.note
}

fn folder_files(parsed: &Vec<ParsedMarker>, folder: &str, files: &mut Vec<String>)
    ensures
        text::views(final(files)@) == text::views(old(files)@) + files_for(parsed@, folder@),
{
    let ghost before = text::views(files@);
    let mut i: usize = 0;
    assert(parsed@.take(0) == Seq::<ParsedMarker>::empty());
    assert(before + files_for(parsed@.take(0), folder@) =~= before);
    while i < parsed.len()
        invariant
            i <= parsed@.len(),
            text::views(files@) == before + files_for(parsed@.take(i as int), folder@),
        decreases parsed@.len() - i,
    {
        assert(parsed@.take(i + 1).drop_last() == parsed@.take(i as int));
        if text::text_eq(parsed[i].folder.as_str(), folder) {
            text::push_text(files, parsed[i].path.clone());
            assert(text::views(files@) =~= before + files_for(parsed@.take(i + 1), folder@));
        }
        i += 1;
    }
    assert(parsed@.take(i as int) == parsed@);
}

proof fn lemma_last_for_exists(parsed: Seq<ParsedMarker>, folder: Seq<char>)
    requires
        parsed.map_values(|p: ParsedMarker| p.folder@).contains(folder),
    ensures
        last_for(parsed, folder) is Some,
    decreases parsed.len(),
{
    let names = parsed.map_values(|p: ParsedMarker| p.folder@);
    let k = choose|k: int| 0 <= k < names.len() && names[k] == folder;
    if parsed.last().folder@ != folder {
        let rest = parsed.drop_last();
        assert(rest.map_values(|p: ParsedMarker| p.folder@)[k] == folder);
        lemma_last_for_exists(rest, folder);
    }
}

fn last_marker<'a>(parsed: &'a Vec<ParsedMarker>, folder: &str) -> (out: Option<&'a ParsedMarker>)
    ensures
        match out {
            Some(p) => last_for(parsed@, folder@) == Some(*p),
            None => last_for(parsed@, folder@) is None,
        },
{
    let mut n: usize = parsed.len();
    assert(parsed@.take(n as int) == parsed@);
    while n > 0
        invariant
            n <= parsed@.len(),
            last_for(parsed@, folder@) == last_for(parsed@.take(n as int), folder@),
        decreases n,
    {
        n -= 1;
        assert(parsed@.take(n + 1).drop_last() == parsed@.take(n as int));
        assert(parsed@.take(n + 1).last() == parsed@[n as int]);
        if text::text_eq(parsed[n].folder.as_str(), folder) {
            return Some(&parsed[n]);
        }
    }
    None
}

/// What an import of the markers stores: one pin for each folder, from the last
/// marker that names it, in the order of the folders.
pub fn pin_batch(parsed: &Vec<ParsedMarker>) -> (out: PinBatch)
    ensures
        text::views(out.folders@) == marker_folders(parsed@),
        out.rows@.len() == out.folders@.len(),
        forall|i: int|
            #![trigger out.rows@[i]]
            0 <= i < out.rows@.len() ==> row_fits(out.rows@[i], parsed@, out.folders@[i]@),
        text::views(out.files@) == files_of_folders(parsed@, marker_folders(parsed@)),
{
    let mut names: Vec<String> = Vec::new();
    let mut k: usize = 0;
    let ghost wanted = parsed@.map_values(|p: ParsedMarker| p.folder@);
    assert(text::views(names@) =~= wanted.take(0));
    while k < parsed.len()
        invariant
            k <= parsed@.len(),
            wanted == parsed@.map_values(|p: ParsedMarker| p.folder@),
            text::views(names@) == wanted.take(k as int),
        decreases parsed@.len() - k,
    {
        text::push_text(&mut names, parsed[k].folder.clone());
        assert(text::views(names@) =~= wanted.take(k + 1));
        k += 1;
    }
    assert(wanted.take(k as int) =~= wanted);
    let folders = order::distinct_texts::<order::ByText>(names);
    let ghost sorted = marker_folders(parsed@);
    let mut rows: Vec<PinRow> = Vec::new();
    let mut files: Vec<String> = Vec::new();
    let mut i: usize = 0;
    assert(text::views(files@) =~= files_of_folders(parsed@, sorted.take(0)));
    while i < folders.len()
        invariant
            i <= folders@.len(),
            sorted == marker_folders(parsed@),
            text::views(folders@) == sorted,
            rows@.len() == i,
            forall|j: int|
                #![trigger rows@[j]]
                0 <= j < rows@.len() ==> row_fits(rows@[j], parsed@, folders@[j]@),
            text::views(files@) == files_of_folders(parsed@, sorted.take(i as int)),
        decreases folders@.len() - i,
    {
        let folder = folders[i].as_str();
        proof {
            assert(sorted[i as int] == folder@);
            assert(sorted.contains(folder@));
            order::lemma_distinct::<order::ByText>(
                parsed@.map_values(|p: ParsedMarker| p.folder@),
            );
            lemma_last_for_exists(parsed@, folder@);
            assert(sorted.take(i + 1).drop_last() == sorted.take(i as int));
        }
        match last_marker(parsed, folder) {
            Some(marker) => {
                rows.push(
                    PinRow {
                        source_folder: folder.to_owned(),
                        media_id: marker.media_id.label(),
                        origin: "handoff".to_owned(),
                        note: marker.note.clone(),
                    },
                );
            },
            None => {},
        }
        folder_files(parsed, folder, &mut files);
        i += 1;
    }
    assert(sorted.take(i as int) =~= sorted);
    PinBatch { rows, folders, files }
}

/// Whether storing a pin changes its folder: that is new, or moved to another id. `stored`
/// is the id that the folder was pinned to.
pub fn pin_changes(stored: Option<&str>, pin: &PinRow) -> (b: bool)
    ensures
        b == (match stored {
            Some(id) => id@ != pin.media_id@,
            None => true,
        }),
{
    match stored {
        Some(id) => !text::text_eq(id, pin.media_id.as_str()),
        None => true,
    }
}

/// The number of removals that went well.
pub open spec fn removals(done: Seq<bool>) -> nat
    decreases done.len(),
{
    if done.len() == 0 {
        0
    } else {
        removals(done.drop_last()) + if done.last() {
            1nat
        } else {
            0nat
        }
    }
}

/// What an import of marker files did. `stored` is the number of pins that
/// changed, or `None` where storing them failed; `removed` tells, where files are
/// consumed, of each file of the batch whether it could be removed.
pub fn import_markers(
    files: &Vec<MarkerFile>,
    stored: Option<usize>,
    consume: bool,
    removed: &Vec<bool>,
) -> (import: MarkerImport)
    ensures
        exists|parsed: Seq<ParsedMarker>| #[trigger]
            markers_fit(parsed, files@) && {
                let folders = marker_folders(parsed);
                &&& import.unreadable == unreadable_count(files@)
                &&& import.without_id == without_id_count(files@)
                &&& stored is Some ==> text::views(import.imported_folders@) == folders
                &&& stored is None ==> import.imported_folders@.len() == 0
                &&& import.imported == (if stored is Some {
                    folders.len()
                } else {
                    0
                })
                &&& import.changed == (if parsed.len() > 0 && stored is Some {
                    stored->0 as nat
                } else {
                    0
                })
                &&& import.consumed == (if parsed.len() > 0 && stored is Some && consume {
                    removals(removed@)
                } else {
                    0
                })
            },
{
    let (parsed, mut import) = read_markers(files);
    let ghost read = parsed@;
    if parsed.len() == 0 {
        proof {
            assert(read.map_values(|p: ParsedMarker| p.folder@) =~= Seq::<Seq<char>>::empty());
            assert(text::views(import.imported_folders@) =~= marker_folders(read));
            assert(markers_fit(read, files@));
        }
        return import;
    }
    let batch = pin_batch(&parsed);
    import.imported = batch.rows.len();
    import.imported_folders = batch.folders;
    match stored {
        Some(changed) => {
            import.changed = changed;
        },
        None => {
            import.imported = 0;
            import.imported_folders = Vec::new();
            assert(markers_fit(read, files@));
            return import;
        },
    }
    if consume {
        let mut i: usize = 0;
        let mut done: usize = 0;
        assert(removed@.take(0) == Seq::<bool>::empty());
        while i < removed.len()
            invariant
                i <= removed@.len(),
                done <= i,
                done == removals(removed@.take(i as int)),
            decreases removed@.len() - i,
        {
            assert(removed@.take(i + 1).drop_last() == removed@.take(i as int));
            if removed[i] {
                done += 1;
            }
            i += 1;
        }
        assert(removed@.take(i as int) == removed@);
        import.consumed = done;
    }
    assert(markers_fit(read, files@));
    import
}

/// Only markers whose pin is stored are removed: each file of a batch is that of
/// a marker with an id.
pub proof fn lemma_only_pinned_markers_are_removed(
    parsed: Seq<ParsedMarker>,
    files: Seq<MarkerFile>,
    folder: Seq<char>,
    k: int,
) -> (at: int)
    requires
        markers_fit(parsed, files),
        0 <= k < files_for(parsed, folder).len(),
    ensures
        0 <= at < files.len(),
        files[at].pins(),
        files[at].path@ == files_for(parsed, folder)[k],
        files[at].marker->0.folder() == folder,
    decreases files.len(),
{
    if files.last().pins() {
        if parsed.last().folder@ == folder && k == files_for(parsed, folder).len() - 1 {
            files.len() - 1
        } else {
            lemma_only_pinned_markers_are_removed(
                parsed.drop_last(),
                files.drop_last(),
                folder,
                k,
            )
        }
    } else {
        lemma_only_pinned_markers_are_removed(parsed, files.drop_last(), folder, k)
    }
}

// ---------------------------------------------------------------------------
// What a marker says, and what becomes of it

/// A file is a marker exactly where its name ends in `.json` and does not begin with a dot,
/// in whatever directory it lies.
pub proof fn lemma_markers_are_named(dir: Seq<char>, name: Seq<char>)
    requires
        paths::is_name(name),
        name != ".."@,
    ensures
        names_marker(paths::joined(dir, name)) <==> name.len() >= 5 && name.skip(name.len() - 5)
            == ".json"@ && name[0] != '.',
{
    reveal_strlit(".json");
    reveal_strlit(".");
    paths::lemma_file_name_of_joined(dir, name);
    assert(paths::file_name(paths::joined(dir, name)) == Some(name));
    let n = name.len() as int;
    if n >= 5 {
        assert(name.skip(n - 5) =~= name.subrange(n - 5, n));
    }
    assert(name.subrange(0, 1)[0] == name[0]);
    assert("."@ =~= seq!['.']);
    if name[0] == '.' {
        assert(name.subrange(0, 1) =~= "."@);
    } else if text::begins(name, "."@) {
        assert(name.subrange(0, 1)[0] == "."@[0]);
    }
}

/// The folder of a marker is the first component of its path, trimmed.
pub proof fn lemma_folder_comes_first(marker: Marker, first: Seq<char>, rest: Seq<char>)
    requires
        !first.contains('/'),
    ensures
        marker.materialized_relative_path@ == first ==> marker.folder() == text::trim(first),
        marker.materialized_relative_path@ == first + seq!['/'] + rest ==> marker.folder()
            == text::trim(first),
{
    text::lemma_split_of_piece(first, '/');
    if marker.materialized_relative_path@ == first + seq!['/'] + rest {
        lemma_first_piece_stays(first, rest);
    }
}

proof fn lemma_first_piece_stays(first: Seq<char>, rest: Seq<char>)
    requires
        !first.contains('/'),
    ensures
        text::split(first + seq!['/'] + rest, '/').len() >= 2,
        text::split(first + seq!['/'] + rest, '/')[0] == first,
    decreases rest.len(),
{
    let whole = first + seq!['/'] + rest;
    if rest.len() == 0 {
        let none = Seq::<char>::empty();
        text::lemma_split_of_piece(first, '/');
        text::lemma_split_grows(first, none, '/');
        assert(first.push('/') + none =~= whole);
    } else {
        lemma_first_piece_stays(first, rest.drop_last());
        assert(whole.drop_last() =~= first + seq!['/'] + rest.drop_last());
    }
}

/// The id of a marker is that of TVDB where it has one, else that of TMDB, and its note is
/// made of what it says of title and torrent.
pub proof fn lemma_marker_says(marker: Marker)
    ensures
        marker.tvdb_id matches Some(n) ==> marker.id() == Some(MediaId::Tvdb(n)),
        marker.tvdb_id is None ==> (marker.tmdb_id matches Some(n) ==> marker.id() == Some(
            MediaId::Tmdb(n),
        )),
        marker.id() is None <==> marker.tvdb_id is None && marker.tmdb_id is None,
        marker.note() is None <==> marker.media_title is None && marker.rd_id is None,
        marker.media_title matches Some(title) ==> text::begins(marker.note()->0, title@),
        marker.media_title is None ==> (marker.rd_id matches Some(rd) ==> marker.note() == Some(
            rd@,
        )),
        marker.media_title is Some && marker.rd_id is Some ==> marker.note() == Some(
            marker.media_title->0@ + " ("@ + marker.rd_id->0@ + ")"@,
        ),
{
    if let Some(title) = marker.media_title {
        assert(marker.note()->0.subrange(0, title@.len() as int) =~= title@);
    }
}

/// A file yields a pin exactly where it could be read, names a folder and has an id; of the
/// others one without a folder is unreadable, and one with a folder lacks its id.
pub proof fn lemma_marker_files_are_sorted(file: MarkerFile)
    ensures
        file.pins() <==> (file.marker matches Some(m) && m.folder().len() > 0 && (m.tvdb_id is Some
            || m.tmdb_id is Some)),
        file.lacks_id() <==> (file.marker matches Some(m) && m.folder().len() > 0 && m.tvdb_id
            is None && m.tmdb_id is None),
        file.unreadable() <==> !(file.marker matches Some(m) && m.folder().len() > 0),
{
}

/// Every file that yields a pin has a marker with its folder, its id and its path.
pub proof fn lemma_pinning_files_are_kept(
    parsed: Seq<ParsedMarker>,
    files: Seq<MarkerFile>,
    i: int,
) -> (k: int)
    requires
        markers_fit(parsed, files),
        0 <= i < files.len(),
        files[i].pins(),
    ensures
        0 <= k < parsed.len(),
        parsed[k].folder@ == files[i].marker->0.folder(),
        Some(parsed[k].media_id) == files[i].marker->0.id(),
        parsed[k].path == files[i].path,
        text::opt(parsed[k].note) == files[i].marker->0.note(),
    decreases files.len(),
{
    let rest = files.drop_last();
    if i == files.len() - 1 {
        parsed.len() - 1
    } else {
        assert(rest[i] == files[i]);
        if files.last().pins() {
            let k = lemma_pinning_files_are_kept(parsed.drop_last(), rest, i);
            assert(parsed.drop_last()[k] == parsed[k]);
            k
        } else {
            lemma_pinning_files_are_kept(parsed, rest, i)
        }
    }
}

/// Of the markers of a folder the last one counts.
pub proof fn lemma_last_marker_counts(parsed: Seq<ParsedMarker>, folder: Seq<char>, i: int)
    requires
        0 <= i < parsed.len(),
        parsed[i].folder@ == folder,
        forall|j: int| i < j < parsed.len() ==> (#[trigger] parsed[j]).folder@ != folder,
    ensures
        last_for(parsed, folder) == Some(parsed[i]),
    decreases parsed.len(),
{
    if i < parsed.len() - 1 {
        assert(parsed[parsed.len() - 1].folder@ != folder);
        let rest = parsed.drop_last();
        assert forall|j: int| i < j < rest.len() implies (#[trigger] rest[j]).folder@
            != folder by {
            assert(rest[j] == parsed[j]);
        }
        lemma_last_marker_counts(rest, folder, i);
    }
}

/// Every marker's folder is pinned, once, and no other is.
pub proof fn lemma_marked_folders_are_pinned(parsed: Seq<ParsedMarker>, folder: Seq<char>)
    ensures
        marker_folders(parsed).contains(folder) <==> exists|i: int|
            0 <= i < parsed.len() && (#[trigger] parsed[i]).folder@ == folder,
        order::ascending::<order::ByText>(marker_folders(parsed)),
{
    let all = parsed.map_values(|p: ParsedMarker| p.folder@);
    let list = marker_folders(parsed);
    order::lemma_distinct::<order::ByText>(all);
    if list.contains(folder) {
        assert(all.contains(folder));
        let i = choose|i: int| 0 <= i < all.len() && all[i] == folder;
        assert(parsed[i].folder@ == folder);
    }
    if exists|i: int| 0 <= i < parsed.len() && (#[trigger] parsed[i]).folder@ == folder {
        let i = choose|i: int| 0 <= i < parsed.len() && (#[trigger] parsed[i]).folder@ == folder;
        assert(order::has_tie::<order::ByText>(list, all[i]));
        let k = choose|k: int|
            0 <= k < list.len() && order::ties::<order::ByText>(#[trigger] list[k], all[i]);
        order::lemma_text_before_total(list[k], all[i]);
        assert(list[k] == folder);
    }
}

/// A row pins its folder to the id of the marker that counts, and says where it comes from.
pub proof fn lemma_rows_pin_folders(
    row: PinRow,
    parsed: Seq<ParsedMarker>,
    folder: Seq<char>,
    i: int,
)
    requires
        row_fits(row, parsed, folder),
        0 <= i < parsed.len(),
        parsed[i].folder@ == folder,
        forall|j: int| i < j < parsed.len() ==> (#[trigger] parsed[j]).folder@ != folder,
    ensures
        row.source_folder@ == folder,
        row.media_id@ == parsed[i].media_id.spelled(),
        row.note == parsed[i].note,
        row.origin@ == "handoff"@,
{
    lemma_last_marker_counts(parsed, folder, i);
}

/// Every marker of a folder that is pinned has its file listed for removal.
pub proof fn lemma_pinned_markers_are_listed(
    parsed: Seq<ParsedMarker>,
    folder: Seq<char>,
    i: int,
)
    requires
        0 <= i < parsed.len(),
        parsed[i].folder@ == folder,
    ensures
        files_for(parsed, folder).contains(parsed[i].path@),
    decreases parsed.len(),
{
    let now = files_for(parsed, folder);
    if i == parsed.len() - 1 {
        assert(now[now.len() - 1] == parsed[i].path@);
    } else {
        let rest = parsed.drop_last();
        assert(rest[i] == parsed[i]);
        lemma_pinned_markers_are_listed(rest, folder, i);
        let before = files_for(rest, folder);
        let k = choose|k: int| 0 <= k < before.len() && before[k] == parsed[i].path@;
        assert(now[k] == parsed[i].path@);
    }
}

/// One removal more is counted exactly where it went well.
pub proof fn lemma_one_removal_more(done: Seq<bool>, went_well: bool)
    ensures
        removals(done.push(went_well)) == removals(done) + (if went_well {
            1nat
        } else {
            0nat
        }),
        removals(Seq::<bool>::empty()) == 0,
{
    assert(done.push(went_well).drop_last() =~= done);
}

/// The line of an import always tells what was imported, and every other count only where
/// there is something to count.
pub proof fn lemma_import_is_told(import: MarkerImport)
    ensures
        ({
            let parts = import.summary_parts();
            let one = |n: usize| if n > 0 { 1int } else { 0int };
            &&& parts[0] == text::decimal(import.imported as nat) + " pin(s) imported"@
            &&& parts.len() == 1 + one(import.changed) + one(import.without_id) + one(
                import.unreadable,
            ) + one(import.consumed)
            &&& import.changed > 0 ==> parts[1] == text::decimal(import.changed as nat) + " new"@
            &&& import.consumed > 0 ==> parts.last() == text::decimal(import.consumed as nat)
                + " consumed"@
        }),
{
}

/// One marker file more is counted by what it says: as unreadable where it names no folder,
/// as lacking its id where it names a folder alone, and as neither where it yields a pin.
pub proof fn lemma_one_marker_file_more(files: Seq<MarkerFile>, file: MarkerFile)
    ensures
        ({
            let named = file.marker matches Some(m) && m.folder().len() > 0;
            let has_id = file.marker matches Some(m) && (m.tvdb_id is Some || m.tmdb_id is Some);
            &&& unreadable_count(files.push(file)) == unreadable_count(files) + (if !named {
                1nat
            } else {
                0nat
            })
            &&& without_id_count(files.push(file)) == without_id_count(files) + (if named && !has_id {
                1nat
            } else {
                0nat
            })
            &&& unreadable_count(Seq::<MarkerFile>::empty()) == 0
            &&& without_id_count(Seq::<MarkerFile>::empty()) == 0
        }),
{
    assert(files.push(file).drop_last() =~= files);
}

/// The files that are listed for removal are those of the folders, one folder after the
/// other.
pub proof fn lemma_files_follow_their_folders(
    parsed: Seq<ParsedMarker>,
    folders: Seq<Seq<char>>,
    folder: Seq<char>,
)
    ensures
        files_of_folders(parsed, folders.push(folder)) == files_of_folders(parsed, folders)
            + files_for(parsed, folder),
        files_of_folders(parsed, Seq::<Seq<char>>::empty()).len() == 0,
{
    assert(folders.push(folder).drop_last() =~= folders);
}

} // verus!
