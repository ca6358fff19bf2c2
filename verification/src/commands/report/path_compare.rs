//! Where the file system, the database and Plex disagree on links.

use vstd::prelude::*;
use crate::models::{LinkRecord, LinkStatus};
use crate::order;
use crate::paths;
use crate::text;

verus! {

/// How many paths a sample shows.
pub const PATH_SAMPLE_LIMIT: usize = 10;

/// A number of paths, and the first of them.
#[derive(Debug, Default, PartialEq, Eq)]
pub struct PathSample {
    pub count: usize,
    pub samples: Vec<String>,
}

/// Whether the list has the path, in whatever spelling.
pub open spec fn has_path(list: Seq<Seq<char>>, path: Seq<char>) -> bool {
    exists|i: int| 0 <= i < list.len() && paths::same(#[trigger] list[i], path)
}

/// The paths of the list, each once, in ascending order.
pub open spec fn path_set(list: Seq<Seq<char>>) -> Seq<Seq<char>> {
    order::distinct::<paths::ByPath>(list)
}

/// The paths of `left` that are, or are not, in `right`.
pub open spec fn those_in(
    left: Seq<Seq<char>>,
    right: Seq<Seq<char>>,
    inside: bool,
) -> Seq<Seq<char>> {
    left.filter(|path: Seq<char>| has_path(right, path) == inside)
}

/// Whether a sample is that of the paths.
pub open spec fn samples(sample: PathSample, list: Seq<Seq<char>>) -> bool {
    let all = path_set(list);
    &&& sample.count == all.len()
    &&& text::views(sample.samples@) == all.take(
        if all.len() <= 10 {
            all.len() as int
        } else {
            10
        },
    )
}

fn holds_path(list: &Vec<String>, path: &str) -> (b: bool)
    ensures
        b == has_path(text::views(list@), path@),
{
    let ghost all = text::views(list@);
    let mut i: usize = 0;
    while i < list.len()
        invariant
            i <= list@.len(),
            all == text::views(list@),
            forall|k: int| 0 <= k < i ==> !paths::same(#[trigger] all[k], path@),
        decreases list@.len() - i,
    {
        if paths::same_path(list[i].as_str(), path) {
            assert(paths::same(all[i as int], path@));
            return true;
        }
        i += 1;
    }
    false
}

fn paths_in(left: &Vec<String>, right: &Vec<String>, inside: bool) -> (out: Vec<String>)
    ensures
        text::views(out@) == those_in(text::views(left@), text::views(right@), inside),
{
    let ghost all = text::views(left@);
    let ghost others = text::views(right@);
    let ghost keep = |path: Seq<char>| has_path(others, path) == inside;
    let mut out: Vec<String> = Vec::new();
    let mut i: usize = 0;
    proof {
        reveal(Seq::filter);
        assert(all.take(0) =~= Seq::<Seq<char>>::empty());
        assert(text::views(out@) =~= all.take(0).filter(keep));
    }
    while i < left.len()
        invariant
            i <= left@.len(),
            all == text::views(left@),
            others == text::views(right@),
            keep == (|path: Seq<char>| has_path(others, path) == inside),
            text::views(out@) == all.take(i as int).filter(keep),
        decreases left@.len() - i,
    {
        proof {
            reveal(Seq::filter);
            assert(all.take(i + 1).drop_last() =~= all.take(i as int));
        }
        if holds_path(right, left[i].as_str()) == inside {
            text::push_text(&mut out, left[i].clone());
        }
        i += 1;
    }
    assert(all.take(i as int) =~= all);
    out
}

fn sample_of(list: Vec<String>) -> (out: PathSample)
    ensures
        samples(out, text::views(list@)),
{
    let mut all = paths::distinct_paths(list);
    let ghost sorted = text::views(all@);
    let count = all.len();
    if count > PATH_SAMPLE_LIMIT {
        all.truncate(PATH_SAMPLE_LIMIT);
    }
    assert(text::views(all@) =~= sorted.take(
        if sorted.len() <= 10 {
            sorted.len() as int
        } else {
            10
        },
    ));
    PathSample { count, samples: all }
}

/// A sample of the paths of `left` that are not in `right`.
pub fn sample_difference(left: &Vec<String>, right: &Vec<String>) -> (out: PathSample)
    ensures
        samples(out, those_in(text::views(left@), text::views(right@), false)),
{
    sample_of(paths_in(left, right, false))
}

/// A sample of the paths that are in both lists.
pub fn sample_intersection(left: &Vec<String>, right: &Vec<String>) -> (out: PathSample)
    ensures
        samples(out, those_in(text::views(left@), text::views(right@), true)),
{
    sample_of(paths_in(left, right, true))
}

/// A sample of the links whose sources could not be reached; `None` where every
/// source root could.
pub fn unreachable_sources_sample(
    unreachable_roots: &Vec<String>,
    unreachable_source_paths: &Vec<String>,
) -> (out: Option<PathSample>)
    ensures
        match out {
            Some(sample) => unreachable_roots@.len() > 0 && samples(
                sample,
                text::views(unreachable_source_paths@),
            ),
            None => unreachable_roots@.len() == 0,
        },
{
    if unreachable_roots.len() == 0 {
        return None;
    }
    let nothing: Vec<String> = Vec::new();
    let ghost all = text::views(unreachable_source_paths@);
    proof {
        lemma_none_left_out(all);
        assert(text::views(nothing@) =~= Seq::<Seq<char>>::empty());
    }
    Some(sample_difference(unreachable_source_paths, &nothing))
}

proof fn lemma_none_left_out(all: Seq<Seq<char>>)
    ensures
        those_in(all, Seq::<Seq<char>>::empty(), false) == all,
    decreases all.len(),
{
    reveal(Seq::filter);
    if all.len() > 0 {
        lemma_none_left_out(all.drop_last());
        assert(!has_path(Seq::<Seq<char>>::empty(), all.last()));
        assert(all.drop_last().push(all.last()) =~= all);
    } else {
        assert(those_in(all, Seq::<Seq<char>>::empty(), false) =~= all);
    }
}

// ---------------------------------------------------------------------------
// What is known of links

/// A recorded link, and whether its source exists.
#[derive(Debug, PartialEq, Eq)]
pub struct LinkFact {
    pub record: LinkRecord,
    /// Means nothing where the source lies below a root that cannot be reached.
    pub source_exists: bool,
}

/// A symlink below a library: what it holds, where that could be read, and whether
/// that exists.
#[derive(Debug, PartialEq, Eq)]
pub struct SymlinkFact {
    pub path: String,
    pub held: Option<String>,
    /// Means nothing where the source lies below a root that cannot be reached.
    pub source_exists: bool,
}

/// A file that Plex knows.
#[derive(Debug, PartialEq, Eq)]
pub struct PlexPathRecord {
    pub path: String,
    /// Whether Plex has it only as deleted.
    pub deleted_only: bool,
}

/// Whether a symlink leads to below one of the roots.
pub open spec fn leads_below(path: Seq<char>, held: Option<String>, roots: Seq<Seq<char>>) -> bool {
    match held {
        Some(target) => paths::under_any(paths::link_destination(path, target@), roots),
        None => false,
    }
}

/// Whether a symlink leads to below one of the roots.
pub fn symlink_target_under_roots(path: &str, held: &Option<String>, roots: &Vec<String>) -> (b:
    bool)
    ensures
        b == leads_below(path@, *held, text::views(roots@)),
{
    if roots.len() == 0 {
        assert(text::views(roots@).len() == 0);
        return false;
    }
    match held {
        Some(target) => {
            let resolved = paths::resolve_link_target(path, target.as_str());
            paths::path_under_roots(resolved.as_str(), roots)
        },
        None => false,
    }
}

/// Whether the source of a symlink is missing: the symlink could be read, and what
/// it leads to does not exist.
pub fn symlink_source_missing(held: &Option<String>, source_exists: bool) -> (b: bool)
    ensures
        b == (held is Some && !source_exists),
{
    match held {
        Some(_) => !source_exists,
        None => false,
    }
}

/// What a comparison is made from.
pub struct CompareInputs {
    pub links: Seq<LinkFact>,
    pub symlinks: Seq<SymlinkFact>,
    pub unreachable: Seq<Seq<char>>,
}

impl CompareInputs {
    /// The targets of the active links.
    pub open spec fn db_paths(&self) -> Seq<Seq<char>> {
        self.links.filter(|l: LinkFact| l.record.status is Active).map_values(
            |l: LinkFact| l.record.target_path@,
        )
    }

    /// The paths of the symlinks.
    pub open spec fn fs_paths(&self) -> Seq<Seq<char>> {
        self.symlinks.map_values(|s: SymlinkFact| s.path@)
    }

    /// Whether the source of a link could not be reached.
    pub open spec fn link_unreachable(&self, l: LinkFact) -> bool {
        l.record.status is Active && paths::under_any(l.record.source_path@, self.unreachable)
    }

    /// Whether the source of a link is known to be missing.
    pub open spec fn link_missing(&self, l: LinkFact) -> bool {
        l.record.status is Active && !self.link_unreachable(l) && !l.source_exists
    }

    /// Whether the source of a symlink could not be reached.
    pub open spec fn symlink_unreachable(&self, s: SymlinkFact) -> bool {
        leads_below(s.path@, s.held, self.unreachable)
    }

    /// Whether the source of a symlink is known to be missing.
    pub open spec fn symlink_missing(&self, s: SymlinkFact) -> bool {
        !self.symlink_unreachable(s) && s.held is Some && !s.source_exists
    }

    /// The links and symlinks whose sources could not be reached.
    pub open spec fn unreachable_paths(&self) -> Seq<Seq<char>> {
        self.links.filter(|l: LinkFact| self.link_unreachable(l)).map_values(
            |l: LinkFact| l.record.target_path@,
        ) + self.symlinks.filter(|s: SymlinkFact| self.symlink_unreachable(s)).map_values(
            |s: SymlinkFact| s.path@,
        )
    }

    /// The links and symlinks whose sources are known to be missing.
    pub open spec fn missing_paths(&self) -> Seq<Seq<char>> {
        self.links.filter(|l: LinkFact| self.link_missing(l)).map_values(
            |l: LinkFact| l.record.target_path@,
        ) + self.symlinks.filter(|s: SymlinkFact| self.symlink_missing(s)).map_values(
            |s: SymlinkFact| s.path@,
        )
    }
}

/// Where the file system, the database and Plex disagree.
#[derive(Debug, Default, PartialEq, Eq)]
pub struct PathCompareOutput {
    pub filesystem_symlinks: usize,
    pub db_active_links: usize,
    pub plex_indexed_files: Option<usize>,
    pub plex_deleted_paths: Option<usize>,
    pub fs_not_in_db: PathSample,
    pub db_not_on_fs: PathSample,
    pub fs_not_in_plex: Option<PathSample>,
    pub db_not_in_plex: Option<PathSample>,
    pub plex_not_on_fs: Option<PathSample>,
    pub plex_deleted_and_known_missing_source: Option<PathSample>,
    pub plex_deleted_without_known_missing_source: Option<PathSample>,
    pub all_three: Option<usize>,
    /// Links whose sources could not be checked because their root could not be
    /// reached; `None` where every root could.
    pub unreachable_sources: Option<PathSample>,
}

/// The paths that Plex knows.
pub open spec fn plex_paths(records: Seq<PlexPathRecord>) -> Seq<Seq<char>> {
    records.map_values(|r: PlexPathRecord| r.path@)
}

/// The paths that Plex has only as deleted.
pub open spec fn plex_deleted(records: Seq<PlexPathRecord>) -> Seq<Seq<char>> {
    records.filter(|r: PlexPathRecord| r.deleted_only).map_values(|r: PlexPathRecord| r.path@)
}

/// Whether an output compares the file system with the database.
pub open spec fn compares_database(out: PathCompareOutput, inputs: CompareInputs) -> bool {
    &&& out.filesystem_symlinks == path_set(inputs.fs_paths()).len()
    &&& out.db_active_links == path_set(inputs.db_paths()).len()
    &&& samples(out.fs_not_in_db, those_in(inputs.fs_paths(), inputs.db_paths(), false))
    &&& samples(out.db_not_on_fs, those_in(inputs.db_paths(), inputs.fs_paths(), false))
    &&& match out.unreachable_sources {
        Some(sample) => inputs.unreachable.len() > 0 && samples(sample, inputs.unreachable_paths()),
        None => inputs.unreachable.len() == 0,
    }
}

/// Whether an output compares Plex with the file system and the database.
pub open spec fn compares_plex(
    out: PathCompareOutput,
    inputs: CompareInputs,
    records: Seq<PlexPathRecord>,
) -> bool {
    let fs = inputs.fs_paths();
    let db = inputs.db_paths();
    let plex = plex_paths(records);
    let deleted = plex_deleted(records);
    let missing = inputs.missing_paths();
    &&& out.plex_indexed_files is Some && out.plex_indexed_files->0 == path_set(plex).len()
    &&& out.plex_deleted_paths is Some && out.plex_deleted_paths->0 == path_set(deleted).len()
    &&& out.fs_not_in_plex is Some && samples(out.fs_not_in_plex->0, those_in(fs, plex, false))
    &&& out.db_not_in_plex is Some && samples(out.db_not_in_plex->0, those_in(db, plex, false))
    &&& out.plex_not_on_fs is Some && samples(out.plex_not_on_fs->0, those_in(plex, fs, false))
    &&& out.plex_deleted_and_known_missing_source is Some && samples(
        out.plex_deleted_and_known_missing_source->0,
        those_in(deleted, missing, true),
    )
    &&& out.plex_deleted_without_known_missing_source is Some && samples(
        out.plex_deleted_without_known_missing_source->0,
        those_in(deleted, missing, false),
    )
    &&& out.all_three is Some && out.all_three->0 == path_set(
        those_in(those_in(fs, db, true), plex, true),
    ).len()
}

/// Whether an output says nothing of Plex.
pub open spec fn leaves_out_plex(out: PathCompareOutput) -> bool {
    &&& out.plex_indexed_files is None
    &&& out.plex_deleted_paths is None
    &&& out.fs_not_in_plex is None
    &&& out.db_not_in_plex is None
    &&& out.plex_not_on_fs is None
    &&& out.plex_deleted_and_known_missing_source is None
    &&& out.plex_deleted_without_known_missing_source is None
    &&& out.all_three is None
}

/// The links that matter to a comparison, by what is known of them.
struct SortedLinks {
    paths: Vec<String>,
    unreachable: Vec<String>,
    missing: Vec<String>,
}

fn sort_links(
    links: &Vec<LinkFact>,
    roots: &Vec<String>,
    Ghost(inputs): Ghost<CompareInputs>,
) -> (out: SortedLinks)
    requires
        inputs.links == links@,
        inputs.unreachable == text::views(roots@),
    ensures
        text::views(out.paths@) == inputs.db_paths(),
        text::views(out.unreachable@) == inputs.links.filter(
            |l: LinkFact| inputs.link_unreachable(l),
        ).map_values(|l: LinkFact| l.record.target_path@),
        text::views(out.missing@) == inputs.links.filter(
            |l: LinkFact| inputs.link_missing(l),
        ).map_values(|l: LinkFact| l.record.target_path@),
{
    let ghost active = |l: LinkFact| l.record.status is Active;
    let ghost cut_off = |l: LinkFact| inputs.link_unreachable(l);
    let ghost gone = |l: LinkFact| inputs.link_missing(l);
    let ghost target = |l: LinkFact| l.record.target_path@;
    let mut all: Vec<String> = Vec::new();
    let mut unreachable: Vec<String> = Vec::new();
    let mut missing: Vec<String> = Vec::new();
    let mut i: usize = 0;
    proof {
        reveal(Seq::filter);
        assert(links@.take(0) =~= Seq::<LinkFact>::empty());
        assert(text::views(all@) =~= links@.take(0).filter(active).map_values(target));
        assert(text::views(unreachable@) =~= links@.take(0).filter(cut_off).map_values(target));
        assert(text::views(missing@) =~= links@.take(0).filter(gone).map_values(target));
    }
    while i < links.len()
        invariant
            i <= links@.len(),
            inputs.links == links@,
            inputs.unreachable == text::views(roots@),
            active == (|l: LinkFact| l.record.status is Active),
            cut_off == (|l: LinkFact| inputs.link_unreachable(l)),
            gone == (|l: LinkFact| inputs.link_missing(l)),
            target == (|l: LinkFact| l.record.target_path@),
            text::views(all@) == links@.take(i as int).filter(active).map_values(target),
            text::views(unreachable@) == links@.take(i as int).filter(cut_off).map_values(target),
            text::views(missing@) == links@.take(i as int).filter(gone).map_values(target),
        decreases links@.len() - i,
    {
        let link = &links[i];
        proof {
            lemma_next(links@, i as int, active, target);
            lemma_next(links@, i as int, cut_off, target);
            lemma_next(links@, i as int, gone, target);
        }
        if link.record.status == LinkStatus::Active {
            text::push_text(&mut all, link.record.target_path.clone());
            if paths::path_under_roots(link.record.source_path.as_str(), roots) {
                text::push_text(&mut unreachable, link.record.target_path.clone());
            } else if !link.source_exists {
                text::push_text(&mut missing, link.record.target_path.clone());
            }
        }
        i += 1;
    }
    assert(links@.take(i as int) =~= links@);
    SortedLinks { paths: all, unreachable, missing }
}

/// What one more item adds to the chosen and mapped items.
proof fn lemma_next<T>(
    items: Seq<T>,
    i: int,
    keep: spec_fn(T) -> bool,
    name: spec_fn(T) -> Seq<char>,
)
    requires
        0 <= i < items.len(),
    ensures
        items.take(i + 1).filter(keep).map_values(name) == if keep(items[i]) {
            items.take(i).filter(keep).map_values(name).push(name(items[i]))
        } else {
            items.take(i).filter(keep).map_values(name)
        },
{
    reveal(Seq::filter);
    assert(items.take(i + 1).drop_last() =~= items.take(i));
    assert(items.take(i + 1).last() == items[i]);
    if keep(items[i]) {
        assert(items.take(i + 1).filter(keep) == items.take(i).filter(keep).push(items[i]));
        assert(items.take(i + 1).filter(keep).map_values(name) =~= items.take(i).filter(
            keep,
        ).map_values(name).push(name(items[i])));
    }
}

fn sort_symlinks(
    symlinks: &Vec<SymlinkFact>,
    roots: &Vec<String>,
    Ghost(inputs): Ghost<CompareInputs>,
) -> (out: SortedLinks)
    requires
        inputs.symlinks == symlinks@,
        inputs.unreachable == text::views(roots@),
    ensures
        text::views(out.paths@) == inputs.fs_paths(),
        text::views(out.unreachable@) == inputs.symlinks.filter(
            |s: SymlinkFact| inputs.symlink_unreachable(s),
        ).map_values(|s: SymlinkFact| s.path@),
        text::views(out.missing@) == inputs.symlinks.filter(
            |s: SymlinkFact| inputs.symlink_missing(s),
        ).map_values(|s: SymlinkFact| s.path@),
{
    let ghost cut_off = |s: SymlinkFact| inputs.symlink_unreachable(s);
    let ghost gone = |s: SymlinkFact| inputs.symlink_missing(s);
    let ghost name = |s: SymlinkFact| s.path@;
    let mut all: Vec<String> = Vec::new();
    let mut unreachable: Vec<String> = Vec::new();
    let mut missing: Vec<String> = Vec::new();
    let mut i: usize = 0;
    proof {
        reveal(Seq::filter);
        assert(symlinks@.take(0) =~= Seq::<SymlinkFact>::empty());
        assert(text::views(all@) =~= symlinks@.take(0).map_values(name));
        assert(text::views(unreachable@) =~= symlinks@.take(0).filter(cut_off).map_values(name));
        assert(text::views(missing@) =~= symlinks@.take(0).filter(gone).map_values(name));
    }
    while i < symlinks.len()
        invariant
            i <= symlinks@.len(),
            inputs.symlinks == symlinks@,
            inputs.unreachable == text::views(roots@),
            cut_off == (|s: SymlinkFact| inputs.symlink_unreachable(s)),
            gone == (|s: SymlinkFact| inputs.symlink_missing(s)),
            name == (|s: SymlinkFact| s.path@),
            text::views(all@) == symlinks@.take(i as int).map_values(name),
            text::views(unreachable@) == symlinks@.take(i as int).filter(cut_off).map_values(name),
            text::views(missing@) == symlinks@.take(i as int).filter(gone).map_values(name),
        decreases symlinks@.len() - i,
    {
        let link = &symlinks[i];
        proof {
            lemma_next(symlinks@, i as int, cut_off, name);
            lemma_next(symlinks@, i as int, gone, name);
            assert(symlinks@.take(i + 1).map_values(name) =~= symlinks@.take(i as int).map_values(
                name,
            ).push(link.path@));
        }
        text::push_text(&mut all, link.path.clone());
        if symlink_target_under_roots(link.path.as_str(), &link.held, roots) {
            text::push_text(&mut unreachable, link.path.clone());
        } else if symlink_source_missing(&link.held, link.source_exists) {
            text::push_text(&mut missing, link.path.clone());
        }
        i += 1;
    }
    assert(symlinks@.take(i as int) =~= symlinks@);
    SortedLinks { paths: all, unreachable, missing }
}

fn append_texts(list: &mut Vec<String>, more: Vec<String>)
    ensures
        text::views(final(list)@) == text::views(old(list)@) + text::views(more@),
{
    let mut more = more;
    let ghost before = list@;
    let ghost fresh = more@;
    list.append(&mut more);
    assert(list@ =~= before + fresh);
    assert(text::views(list@) =~= text::views(before) + text::views(fresh));
}

fn count_paths(list: &Vec<String>) -> (n: usize)
    ensures
        n == path_set(text::views(list@)).len(),
{
    let distinct = paths::distinct_paths(text::copy_texts(list));
    assert(text::views(distinct@).len() == distinct@.len());
    distinct.len()
}

/// Compares the symlinks on the file system, the links in the database, and what
/// Plex knows, where that is given. Sources below a root that cannot be reached are
/// listed, and not taken to be missing.
pub fn build_path_compare(
    links: &Vec<LinkFact>,
    symlinks: &Vec<SymlinkFact>,
    plex: Option<&Vec<PlexPathRecord>>,
    unreachable_roots: &Vec<String>,
) -> (out: PathCompareOutput)
    ensures
        ({
            let inputs = CompareInputs {
                links: links@,
                symlinks: symlinks@,
                unreachable: text::views(unreachable_roots@),
            };
            &&& compares_database(out, inputs)
            &&& match plex {
                Some(records) => compares_plex(out, inputs, records@),
                None => leaves_out_plex(out),
            }
        }),
{
    let ghost inputs = CompareInputs {
        links: links@,
        symlinks: symlinks@,
        unreachable: text::views(unreachable_roots@),
    };
    let db = sort_links(links, unreachable_roots, Ghost(inputs));
    let fs = sort_symlinks(symlinks, unreachable_roots, Ghost(inputs));
    let mut unreachable = db.unreachable;
    append_texts(&mut unreachable, fs.unreachable);
    let mut missing = db.missing;
    append_texts(&mut missing, fs.missing);
    assert(text::views(unreachable@) == inputs.unreachable_paths());
    assert(text::views(missing@) == inputs.missing_paths());
    let mut out = PathCompareOutput {
        filesystem_symlinks: count_paths(&fs.paths),
        db_active_links: count_paths(&db.paths),
        plex_indexed_files: None,
        plex_deleted_paths: None,
        fs_not_in_db: sample_difference(&fs.paths, &db.paths),
        db_not_on_fs: sample_difference(&db.paths, &fs.paths),
        fs_not_in_plex: None,
        db_not_in_plex: None,
        plex_not_on_fs: None,
        plex_deleted_and_known_missing_source: None,
        plex_deleted_without_known_missing_source: None,
        all_three: None,
        unreachable_sources: unreachable_sources_sample(unreachable_roots, &unreachable),
    };
    match plex {
        None => {},
        Some(records) => {
            let (known, deleted) = sort_plex(records);
            out.plex_indexed_files = Some(count_paths(&known));
            out.plex_deleted_paths = Some(count_paths(&deleted));
            out.fs_not_in_plex = Some(sample_difference(&fs.paths, &known));
            out.db_not_in_plex = Some(sample_difference(&db.paths, &known));
            out.plex_not_on_fs = Some(sample_difference(&known, &fs.paths));
            out.plex_deleted_and_known_missing_source = Some(
                sample_intersection(&deleted, &missing),
            );
            out.plex_deleted_without_known_missing_source = Some(
                sample_difference(&deleted, &missing),
            );
            let in_both = paths_in(&fs.paths, &db.paths, true);
            let in_all = paths_in(&in_both, &known, true);
            out.all_three = Some(count_paths(&in_all));
        },
    }
    out
}

fn sort_plex(records: &Vec<PlexPathRecord>) -> (out: (Vec<String>, Vec<String>))
    ensures
        text::views(out.0@) == plex_paths(records@),
        text::views(out.1@) == plex_deleted(records@),
{
    let ghost gone = |r: PlexPathRecord| r.deleted_only;
    let ghost name = |r: PlexPathRecord| r.path@;
    let mut known: Vec<String> = Vec::new();
    let mut deleted: Vec<String> = Vec::new();
    let mut i: usize = 0;
    proof {
        reveal(Seq::filter);
        assert(records@.take(0) =~= Seq::<PlexPathRecord>::empty());
        assert(text::views(known@) =~= records@.take(0).map_values(name));
        assert(text::views(deleted@) =~= records@.take(0).filter(gone).map_values(name));
    }
    while i < records.len()
        invariant
            i <= records@.len(),
            gone == (|r: PlexPathRecord| r.deleted_only),
            name == (|r: PlexPathRecord| r.path@),
            text::views(known@) == records@.take(i as int).map_values(name),
            text::views(deleted@) == records@.take(i as int).filter(gone).map_values(name),
        decreases records@.len() - i,
    {
        proof {
            lemma_next(records@, i as int, gone, name);
            assert(records@.take(i + 1).map_values(name) =~= records@.take(i as int).map_values(
                name,
            ).push(records@[i as int].path@));
        }
        text::push_text(&mut known, records[i].path.clone());
        if records[i].deleted_only {
            text::push_text(&mut deleted, records[i].path.clone());
        }
        i += 1;
    }
    assert(records@.take(i as int) =~= records@);
    (known, deleted)
}

// ---------------------------------------------------------------------------
// Laws

/// The components of the paths of a list.
pub open spec fn component_set(list: Seq<Seq<char>>) -> Set<Seq<Seq<char>>> {
    list.map_values(|path: Seq<char>| paths::components(path)).to_set()
}

proof fn lemma_in_component_set(list: Seq<Seq<char>>, parts: Seq<Seq<char>>)
    ensures
        component_set(list).contains(parts) == exists|i: int|
            0 <= i < list.len() && paths::components(#[trigger] list[i]) == parts,
{
    let mapped = list.map_values(|path: Seq<char>| paths::components(path));
    if component_set(list).contains(parts) {
        assert(mapped.contains(parts));
        let i = choose|i: int| 0 <= i < mapped.len() && mapped[i] == parts;
        assert(paths::components(list[i]) == parts);
    }
    if exists|i: int| 0 <= i < list.len() && paths::components(#[trigger] list[i]) == parts {
        let i = choose|i: int|
            0 <= i < list.len() && paths::components(#[trigger] list[i]) == parts;
        assert(mapped[i] == parts);
    }
}

/// A list of distinct paths has as many entries as there are paths in the list.
proof fn lemma_path_set(list: Seq<Seq<char>>)
    ensures
        path_set(list).len() == component_set(list).len(),
{
    let all = path_set(list);
    let mapped = all.map_values(|path: Seq<char>| paths::components(path));
    order::lemma_distinct::<paths::ByPath>(list);
    assert forall|i: int, j: int| 0 <= i < mapped.len() && 0 <= j < mapped.len() && i != j implies
        mapped[i] != mapped[j] by {
        let (a, b) = if i < j {
            (i, j)
        } else {
            (j, i)
        };
        paths::lemma_path_ties(all[a], all[b]);
        assert(<paths::ByPath as order::TextOrder>::before(all[a], all[b]));
    }
    mapped.unique_seq_to_set();
    assert(mapped.to_set() =~= component_set(list)) by {
        assert forall|parts: Seq<Seq<char>>| #[trigger] mapped.to_set().contains(parts)
            == component_set(list).contains(parts) by {
            lemma_in_component_set(list, parts);
            if mapped.contains(parts) {
                let i = choose|i: int| 0 <= i < mapped.len() && mapped[i] == parts;
                assert(all.contains(all[i]));
                assert(list.contains(all[i]));
                let k = choose|k: int| 0 <= k < list.len() && list[k] == all[i];
                assert(paths::components(list[k]) == parts);
            }
            if component_set(list).contains(parts) {
                let k = choose|k: int|
                    0 <= k < list.len() && paths::components(#[trigger] list[k]) == parts;
                assert(order::has_tie::<paths::ByPath>(all, list[k]));
                let i = choose|i: int|
                    0 <= i < all.len() && order::ties::<paths::ByPath>(#[trigger] all[i], list[k]);
                paths::lemma_path_ties(all[i], list[k]);
                assert(mapped[i] == parts);
            }
        }
    }
}

proof fn lemma_those_in(
    left: Seq<Seq<char>>,
    right: Seq<Seq<char>>,
    inside: bool,
    path: Seq<char>,
)
    ensures
        those_in(left, right, inside).contains(path) == (left.contains(path) && has_path(
            right,
            path,
        ) == inside),
    decreases left.len(),
{
    reveal(Seq::filter);
    let kept = those_in(left, right, inside);
    if left.len() > 0 {
        let rest = left.drop_last();
        let before = those_in(rest, right, inside);
        lemma_those_in(rest, right, inside, path);
        assert(left =~= rest.push(left.last()));
        if left.contains(path) {
            let i = choose|i: int| 0 <= i < left.len() && left[i] == path;
            if i < rest.len() {
                assert(rest[i] == path);
            }
        }
        if rest.contains(path) {
            let i = choose|i: int| 0 <= i < rest.len() && rest[i] == path;
            assert(left[i] == path);
        }
        assert(left[left.len() - 1] == left.last());
        if has_path(right, left.last()) == inside {
            assert(kept == before.push(left.last()));
            if before.contains(path) {
                let i = choose|i: int| 0 <= i < before.len() && before[i] == path;
                assert(kept[i] == path);
            }
            if path == left.last() {
                assert(kept[before.len() as int] == path);
            }
            if kept.contains(path) {
                let i = choose|i: int| 0 <= i < kept.len() && kept[i] == path;
                if i < before.len() {
                    assert(before[i] == path);
                }
            }
        } else {
            assert(kept == before);
        }
    }
}

/// Every path of a list is either in another list or not: the numbers of a difference
/// and of the intersection add up to the number of paths.
pub proof fn lemma_difference_and_intersection_add_up(
    left: Seq<Seq<char>>,
    right: Seq<Seq<char>>,
)
    ensures
        path_set(those_in(left, right, false)).len() + path_set(those_in(left, right, true)).len()
            == path_set(left).len(),
{
    let out = those_in(left, right, false);
    let both = those_in(left, right, true);
    lemma_path_set(left);
    lemma_path_set(out);
    lemma_path_set(both);
    let a = component_set(out);
    let b = component_set(both);
    assert forall|parts: Seq<Seq<char>>| #[trigger] a.contains(parts) implies !b.contains(
        parts,
    ) by {
        lemma_in_component_set(out, parts);
        lemma_in_component_set(both, parts);
        if b.contains(parts) {
            let i = choose|i: int|
                0 <= i < out.len() && paths::components(#[trigger] out[i]) == parts;
            let j = choose|j: int|
                0 <= j < both.len() && paths::components(#[trigger] both[j]) == parts;
            lemma_those_in(left, right, false, out[i]);
            lemma_those_in(left, right, true, both[j]);
            assert(out.contains(out[i]) && both.contains(both[j]));
            assert(has_path(right, both[j]));
            let k = choose|k: int| 0 <= k < right.len() && paths::same(#[trigger] right[k], both[j]);
            assert(paths::same(right[k], out[i]));
        }
    }
    assert(a.disjoint(b));
    assert(a + b =~= component_set(left)) by {
        assert forall|parts: Seq<Seq<char>>| #[trigger] (a + b).contains(parts) == component_set(
            left,
        ).contains(parts) by {
            lemma_in_component_set(left, parts);
            lemma_in_component_set(out, parts);
            lemma_in_component_set(both, parts);
            if component_set(left).contains(parts) {
                let i = choose|i: int|
                    0 <= i < left.len() && paths::components(#[trigger] left[i]) == parts;
                assert(left.contains(left[i]));
                if has_path(right, left[i]) {
                    lemma_those_in(left, right, true, left[i]);
                    let j = choose|j: int| 0 <= j < both.len() && both[j] == left[i];
                    assert(paths::components(both[j]) == parts);
                } else {
                    lemma_those_in(left, right, false, left[i]);
                    let j = choose|j: int| 0 <= j < out.len() && out[j] == left[i];
                    assert(paths::components(out[j]) == parts);
                }
            }
            if a.contains(parts) {
                let j = choose|j: int|
                    0 <= j < out.len() && paths::components(#[trigger] out[j]) == parts;
                lemma_those_in(left, right, false, out[j]);
                assert(out.contains(out[j]));
                let i = choose|i: int| 0 <= i < left.len() && left[i] == out[j];
                assert(paths::components(left[i]) == parts);
            }
            if b.contains(parts) {
                let j = choose|j: int|
                    0 <= j < both.len() && paths::components(#[trigger] both[j]) == parts;
                lemma_those_in(left, right, true, both[j]);
                assert(both.contains(both[j]));
                let i = choose|i: int| 0 <= i < left.len() && left[i] == both[j];
                assert(paths::components(left[i]) == parts);
            }
        }
    }
    vstd::set_lib::lemma_set_disjoint_lens(a, b);
}

/// What cannot be checked is not called missing: neither a link nor a symlink whose
/// source lies below a root that cannot be reached counts as one without a source.
pub proof fn lemma_unreachable_is_not_missing(
    inputs: CompareInputs,
    link: LinkFact,
    symlink: SymlinkFact,
)
    ensures
        inputs.link_unreachable(link) ==> !inputs.link_missing(link),
        inputs.symlink_unreachable(symlink) ==> !inputs.symlink_missing(symlink),
{
}

/// What is chosen and mapped comes from an item that is chosen, and every such item is in it.
proof fn lemma_chosen<T>(
    items: Seq<T>,
    keep: spec_fn(T) -> bool,
    name: spec_fn(T) -> Seq<char>,
    path: Seq<char>,
)
    ensures
        items.filter(keep).map_values(name).contains(path) <==> exists|i: int|
            #![trigger items[i]]
            0 <= i < items.len() && keep(items[i]) && name(items[i]) == path,
    decreases items.len(),
{
    reveal(Seq::filter);
    if items.len() > 0 {
        let rest = items.drop_last();
        let n = items.len() - 1;
        lemma_chosen(rest, keep, name, path);
        let before = rest.filter(keep).map_values(name);
        let now = items.filter(keep).map_values(name);
        if keep(items[n]) {
            assert(now =~= before.push(name(items[n])));
        } else {
            assert(now =~= before);
        }
        if now.contains(path) {
            let k = choose|k: int| 0 <= k < now.len() && now[k] == path;
            if k < before.len() {
                assert(before[k] == path);
                assert(before.contains(path));
                let i = choose|i: int|
                    #![trigger rest[i]]
                    0 <= i < rest.len() && keep(rest[i]) && name(rest[i]) == path;
                assert(items[i] == rest[i]);
            } else {
                assert(keep(items[n]) && name(items[n]) == path);
            }
        }
        if exists|i: int|
            #![trigger items[i]]
            0 <= i < items.len() && keep(items[i]) && name(items[i]) == path {
            let i = choose|i: int|
                #![trigger items[i]]
                0 <= i < items.len() && keep(items[i]) && name(items[i]) == path;
            if i < n {
                assert(rest[i] == items[i]);
                assert(before.contains(path));
                let k = choose|k: int| 0 <= k < before.len() && before[k] == path;
                assert(now[k] == path);
            } else {
                assert(now[before.len() as int] == path);
            }
        }
    }
}

/// The database has the targets of active links only, and every one of them.
pub proof fn lemma_active_links_are_compared(inputs: CompareInputs, path: Seq<char>)
    ensures
        inputs.db_paths().contains(path) <==> exists|i: int|
            #![trigger inputs.links[i]]
            0 <= i < inputs.links.len() && inputs.links[i].record.status is Active
                && inputs.links[i].record.target_path@ == path,
        inputs.fs_paths().contains(path) <==> exists|i: int|
            #![trigger inputs.symlinks[i]]
            0 <= i < inputs.symlinks.len() && inputs.symlinks[i].path@ == path,
{
    lemma_chosen(
        inputs.links,
        |l: LinkFact| l.record.status is Active,
        |l: LinkFact| l.record.target_path@,
        path,
    );
    let fs = inputs.fs_paths();
    if fs.contains(path) {
        let i = choose|i: int| 0 <= i < fs.len() && fs[i] == path;
        assert(inputs.symlinks[i].path@ == path);
    }
    if exists|i: int|
        #![trigger inputs.symlinks[i]]
        0 <= i < inputs.symlinks.len() && inputs.symlinks[i].path@ == path {
        let i = choose|i: int|
            #![trigger inputs.symlinks[i]]
            0 <= i < inputs.symlinks.len() && inputs.symlinks[i].path@ == path;
        assert(fs[i] == path);
    }
}

/// A source is known to be missing exactly where its root can be reached and it does not
/// exist, be it that of an active link or that of a symlink that could be read.
pub proof fn lemma_missing_sources_are_known(inputs: CompareInputs, path: Seq<char>)
    ensures
        inputs.missing_paths().contains(path) <==> (exists|i: int|
            #![trigger inputs.links[i]]
            0 <= i < inputs.links.len() && inputs.links[i].record.target_path@ == path
                && inputs.links[i].record.status is Active && !inputs.links[i].source_exists
                && !paths::under_any(inputs.links[i].record.source_path@, inputs.unreachable)) || (
        exists|i: int|
            #![trigger inputs.symlinks[i]]
            0 <= i < inputs.symlinks.len() && inputs.symlinks[i].path@ == path && (
            inputs.symlinks[i].held matches Some(held) && !inputs.symlinks[i].source_exists
                && !paths::under_any(
                paths::link_destination(path, held@),
                inputs.unreachable,
            ))),
{
    let left = inputs.links.filter(|l: LinkFact| inputs.link_missing(l)).map_values(
        |l: LinkFact| l.record.target_path@,
    );
    let right = inputs.symlinks.filter(|s: SymlinkFact| inputs.symlink_missing(s)).map_values(
        |s: SymlinkFact| s.path@,
    );
    lemma_chosen(
        inputs.links,
        |l: LinkFact| inputs.link_missing(l),
        |l: LinkFact| l.record.target_path@,
        path,
    );
    lemma_chosen(
        inputs.symlinks,
        |s: SymlinkFact| inputs.symlink_missing(s),
        |s: SymlinkFact| s.path@,
        path,
    );
    lemma_either(left, right, path);
}

/// A source could not be reached exactly where it lies below a root that cannot be.
pub proof fn lemma_unreachable_sources_are_listed(inputs: CompareInputs, path: Seq<char>)
    ensures
        inputs.unreachable_paths().contains(path) <==> (exists|i: int|
            #![trigger inputs.links[i]]
            0 <= i < inputs.links.len() && inputs.links[i].record.target_path@ == path
                && inputs.links[i].record.status is Active && paths::under_any(
                inputs.links[i].record.source_path@,
                inputs.unreachable,
            )) || (exists|i: int|
            #![trigger inputs.symlinks[i]]
            0 <= i < inputs.symlinks.len() && inputs.symlinks[i].path@ == path && (
            inputs.symlinks[i].held matches Some(held) && paths::under_any(
                paths::link_destination(path, held@),
                inputs.unreachable,
            ))),
{
    let left = inputs.links.filter(|l: LinkFact| inputs.link_unreachable(l)).map_values(
        |l: LinkFact| l.record.target_path@,
    );
    let right = inputs.symlinks.filter(|s: SymlinkFact| inputs.symlink_unreachable(s)).map_values(
        |s: SymlinkFact| s.path@,
    );
    lemma_chosen(
        inputs.links,
        |l: LinkFact| inputs.link_unreachable(l),
        |l: LinkFact| l.record.target_path@,
        path,
    );
    lemma_chosen(
        inputs.symlinks,
        |s: SymlinkFact| inputs.symlink_unreachable(s),
        |s: SymlinkFact| s.path@,
        path,
    );
    lemma_either(left, right, path);
}

proof fn lemma_either(left: Seq<Seq<char>>, right: Seq<Seq<char>>, path: Seq<char>)
    ensures
        (left + right).contains(path) <==> left.contains(path) || right.contains(path),
{
    let both = left + right;
    if left.contains(path) {
        let i = choose|i: int| 0 <= i < left.len() && left[i] == path;
        assert(both[i] == path);
    }
    if right.contains(path) {
        let i = choose|i: int| 0 <= i < right.len() && right[i] == path;
        assert(both[left.len() + i] == path);
    }
    if both.contains(path) {
        let i = choose|i: int| 0 <= i < both.len() && both[i] == path;
        if i < left.len() {
            assert(left[i] == path);
        } else {
            assert(right[i - left.len()] == path);
        }
    }
}

/// A sample of a list is empty exactly where the list is, shows ten paths at most and all
/// where there are no more, each of the list, in ascending order.
pub proof fn lemma_samples_show_the_first(sample: PathSample, list: Seq<Seq<char>>)
    requires
        samples(sample, list),
    ensures
        sample.count == 0 <==> list.len() == 0,
        sample.count <= 10 ==> sample.samples@.len() == sample.count,
        sample.count > 10 ==> sample.samples@.len() == 10,
        forall|i: int|
            #![trigger sample.samples@[i]]
            0 <= i < sample.samples@.len() ==> list.contains(sample.samples@[i]@),
        order::ascending::<paths::ByPath>(path_set(list)),
        text::views(sample.samples@).is_prefix_of(path_set(list)),
{
    let all = path_set(list);
    order::lemma_distinct::<paths::ByPath>(list);
    if list.len() > 0 {
        assert(order::has_tie::<paths::ByPath>(all, list[0]));
    } else if all.len() > 0 {
        assert(all.contains(all[0]));
        assert(list.contains(all[0]));
    }
    let shown = text::views(sample.samples@);
    assert(shown.len() == sample.samples@.len());
    assert forall|i: int| #![trigger sample.samples@[i]] 0 <= i
        < sample.samples@.len() implies list.contains(sample.samples@[i]@) by {
        assert(shown[i] == sample.samples@[i]@);
        assert(all[i] == shown[i]);
        assert(all.contains(all[i]));
    }
}

proof fn lemma_none_outside(left: Seq<Seq<char>>, right: Seq<Seq<char>>, inside: bool)
    ensures
        those_in(left, right, inside).len() == 0 <==> forall|i: int|
            #![trigger left[i]]
            0 <= i < left.len() ==> has_path(right, left[i]) != inside,
{
    let kept = those_in(left, right, inside);
    if kept.len() == 0 {
        assert forall|i: int| #![trigger left[i]] 0 <= i < left.len() implies has_path(
            right,
            left[i],
        ) != inside by {
            lemma_those_in(left, right, inside, left[i]);
            assert(left.contains(left[i]));
            if has_path(right, left[i]) == inside {
                assert(kept.contains(left[i]));
            }
        }
    } else {
        let path = kept[0];
        assert(kept.contains(path));
        lemma_those_in(left, right, inside, path);
        let i = choose|i: int| 0 <= i < left.len() && left[i] == path;
        assert(has_path(right, left[i]) == inside);
    }
}

/// A comparison with the database shows nothing exactly where both agree: no symlink is
/// shown as not on record where each is the target of an active link, and no link as not on
/// the file system where each active one has its symlink.
pub proof fn lemma_agreement_shows_nothing(out: PathCompareOutput, inputs: CompareInputs)
    requires
        compares_database(out, inputs),
    ensures
        out.fs_not_in_db.count == 0 <==> forall|i: int|
            #![trigger inputs.fs_paths()[i]]
            0 <= i < inputs.fs_paths().len() ==> has_path(inputs.db_paths(), inputs.fs_paths()[i]),
        out.db_not_on_fs.count == 0 <==> forall|i: int|
            #![trigger inputs.db_paths()[i]]
            0 <= i < inputs.db_paths().len() ==> has_path(inputs.fs_paths(), inputs.db_paths()[i]),
        out.unreachable_sources is Some <==> inputs.unreachable.len() > 0,
        out.filesystem_symlinks == 0 <==> inputs.symlinks.len() == 0,
        out.filesystem_symlinks == component_set(inputs.fs_paths()).len(),
        out.db_active_links == component_set(inputs.db_paths()).len(),
{
    let fs = inputs.fs_paths();
    let db = inputs.db_paths();
    lemma_path_set(fs);
    lemma_path_set(db);
    lemma_samples_show_the_first(out.fs_not_in_db, those_in(fs, db, false));
    lemma_samples_show_the_first(out.db_not_on_fs, those_in(db, fs, false));
    lemma_none_outside(fs, db, false);
    lemma_none_outside(db, fs, false);
    order::lemma_distinct::<paths::ByPath>(fs);
    if fs.len() > 0 {
        assert(order::has_tie::<paths::ByPath>(path_set(fs), fs[0]));
    } else if path_set(fs).len() > 0 {
        assert(path_set(fs).contains(path_set(fs)[0]));
    }
}

/// A comparison with Plex shows nothing exactly where it agrees: with the file system, with
/// the database and the other way round; and of the files that it has as deleted, those
/// whose source is known to be missing are told apart from the others.
pub proof fn lemma_agreement_with_plex_shows_nothing(
    out: PathCompareOutput,
    inputs: CompareInputs,
    records: Seq<PlexPathRecord>,
)
    requires
        compares_plex(out, inputs, records),
    ensures
        out.fs_not_in_plex->0.count == 0 <==> forall|i: int|
            #![trigger inputs.fs_paths()[i]]
            0 <= i < inputs.fs_paths().len() ==> has_path(
                plex_paths(records),
                inputs.fs_paths()[i],
            ),
        out.db_not_in_plex->0.count == 0 <==> forall|i: int|
            #![trigger inputs.db_paths()[i]]
            0 <= i < inputs.db_paths().len() ==> has_path(
                plex_paths(records),
                inputs.db_paths()[i],
            ),
        out.plex_not_on_fs->0.count == 0 <==> forall|i: int|
            #![trigger plex_paths(records)[i]]
            0 <= i < plex_paths(records).len() ==> has_path(
                inputs.fs_paths(),
                plex_paths(records)[i],
            ),
        out.plex_deleted_and_known_missing_source->0.count == 0 <==> forall|i: int|
            #![trigger plex_deleted(records)[i]]
            0 <= i < plex_deleted(records).len() ==> !has_path(
                inputs.missing_paths(),
                plex_deleted(records)[i],
            ),
        out.plex_deleted_without_known_missing_source->0.count == 0 <==> forall|i: int|
            #![trigger plex_deleted(records)[i]]
            0 <= i < plex_deleted(records).len() ==> has_path(
                inputs.missing_paths(),
                plex_deleted(records)[i],
            ),
        out.plex_deleted_and_known_missing_source->0.count
            + out.plex_deleted_without_known_missing_source->0.count == out.plex_deleted_paths->0,
        out.plex_indexed_files->0 == component_set(plex_paths(records)).len(),
        out.plex_deleted_paths->0 == component_set(plex_deleted(records)).len(),
        out.all_three->0 == 0 <==> forall|i: int|
            #![trigger inputs.fs_paths()[i]]
            0 <= i < inputs.fs_paths().len() ==> !(has_path(
                inputs.db_paths(),
                inputs.fs_paths()[i],
            ) && has_path(plex_paths(records), inputs.fs_paths()[i])),
{
    let fs = inputs.fs_paths();
    let db = inputs.db_paths();
    let plex = plex_paths(records);
    let deleted = plex_deleted(records);
    let missing = inputs.missing_paths();
    lemma_samples_show_the_first(out.fs_not_in_plex->0, those_in(fs, plex, false));
    lemma_samples_show_the_first(out.db_not_in_plex->0, those_in(db, plex, false));
    lemma_samples_show_the_first(out.plex_not_on_fs->0, those_in(plex, fs, false));
    lemma_samples_show_the_first(
        out.plex_deleted_and_known_missing_source->0,
        those_in(deleted, missing, true),
    );
    lemma_samples_show_the_first(
        out.plex_deleted_without_known_missing_source->0,
        those_in(deleted, missing, false),
    );
    lemma_none_outside(fs, plex, false);
    lemma_none_outside(db, plex, false);
    lemma_none_outside(plex, fs, false);
    lemma_none_outside(deleted, missing, true);
    lemma_none_outside(deleted, missing, false);
    lemma_difference_and_intersection_add_up(deleted, missing);
    lemma_path_set(plex);
    lemma_path_set(deleted);
    let both = those_in(fs, db, true);
    let all = those_in(both, plex, true);
    order::lemma_distinct::<paths::ByPath>(all);
    if all.len() > 0 {
        assert(order::has_tie::<paths::ByPath>(path_set(all), all[0]));
        assert(all.contains(all[0]));
        lemma_in_all_three(inputs, records, all[0]);
        let i = choose|i: int| 0 <= i < fs.len() && fs[i] == all[0];
        assert(has_path(db, fs[i]) && has_path(plex, fs[i]));
    } else {
        if path_set(all).len() > 0 {
            assert(path_set(all).contains(path_set(all)[0]));
        }
        assert forall|i: int| #![trigger fs[i]] 0 <= i < fs.len() implies !(has_path(db, fs[i])
            && has_path(plex, fs[i])) by {
            lemma_in_all_three(inputs, records, fs[i]);
            assert(fs.contains(fs[i]));
        }
    }
}

/// Plex has a file as deleted exactly where it says so, and knows every file it tells of.
pub proof fn lemma_deleted_files_are_known(records: Seq<PlexPathRecord>, path: Seq<char>)
    ensures
        plex_deleted(records).contains(path) <==> exists|i: int|
            #![trigger records[i]]
            0 <= i < records.len() && records[i].deleted_only && records[i].path@ == path,
        plex_paths(records).len() == records.len(),
        forall|i: int|
            #![trigger records[i]]
            0 <= i < records.len() ==> plex_paths(records)[i] == records[i].path@,
{
    lemma_chosen(
        records,
        |r: PlexPathRecord| r.deleted_only,
        |r: PlexPathRecord| r.path@,
        path,
    );
}

/// A path is in all three exactly where a symlink, an active link and Plex have it.
pub proof fn lemma_in_all_three(
    inputs: CompareInputs,
    records: Seq<PlexPathRecord>,
    path: Seq<char>,
)
    ensures
        those_in(
            those_in(inputs.fs_paths(), inputs.db_paths(), true),
            plex_paths(records),
            true,
        ).contains(path) <==> inputs.fs_paths().contains(path) && has_path(inputs.db_paths(), path)
            && has_path(plex_paths(records), path),
{
    lemma_those_in(inputs.fs_paths(), inputs.db_paths(), true, path);
    lemma_those_in(
        those_in(inputs.fs_paths(), inputs.db_paths(), true),
        plex_paths(records),
        true,
        path,
    );
}

/// A comparison without Plex says nothing of it.
pub proof fn lemma_comparison_without_plex(out: PathCompareOutput)
    requires
        leaves_out_plex(out),
    ensures
        out.plex_indexed_files is None && out.plex_deleted_paths is None && out.fs_not_in_plex
            is None && out.db_not_in_plex is None && out.plex_not_on_fs is None && out.all_three
            is None,
{
}

} // verus!
