//! A scan: find what is in the libraries and the sources, match, and link.

use vstd::prelude::*;
use crate::commands;
use crate::commands::scan::telemetry::{
    AutoAcquireBatchSummary, LibraryRefreshTelemetry, ScanTelemetry, SourceInventoryTelemetry,
};
use crate::config::{Config, MatchingMode};
use crate::db::types::{AcquisitionRelinkKind, ScanRunOrigin, ScanRunRecord};
use crate::linker::readiness;
use crate::linker::sweep;
use crate::linker::sweep::SweepOutcome;
use crate::linker::writing;
use crate::linker::writing::MatchOutcome;
use crate::linker::{DeadLinkSummary, LinkProcessSummary, Linker};
use crate::models::{LibraryItem, MatchResult, MediaId, MediaType, SourceItem};
use crate::paths;
use crate::text;

pub mod telemetry;

verus! {

// ---------------------------------------------------------------------------
// What a scan does

/// Whether a scan changes nothing: it was asked to, or the configuration says so.
pub fn effective_dry_run(cfg: &Config, dry_run: bool) -> (b: bool)
    ensures
        b == (dry_run || cfg.symlink.dry_run),
{
    dry_run || cfg.symlink.dry_run
}

/// The linker of a scan: it changes nothing where the scan changes nothing, and probes
/// sources where the configuration calls for that.
pub fn scan_linker(cfg: &Config, dry_run: bool) -> (out: Linker)
    ensures
        out.dry_run == (dry_run || cfg.symlink.dry_run),
        out.strict_mode == (cfg.matching.mode == MatchingMode::Strict),
        out.reconcile_links == cfg.features.reconcile_links,
        out.naming_template@ == cfg.symlink.naming_template@,
        readiness::gate_fits(out.source_readiness_gate, *cfg),
{
    let linker = Linker::new_with_options(
        effective_dry_run(cfg, dry_run),
        cfg.matching.mode.is_strict(),
        cfg.symlink.naming_template.as_str(),
        cfg.features.reconcile_links,
    );
    linker.with_source_readiness_from_config(cfg)
}

/// The steps of a scan, in the order in which they come; those in which something is only
/// done under a condition are left out where it does not hold.
#[derive(Debug, Clone, Copy, PartialEq, Eq, Structural)]
pub enum ScanStep {
    /// Refuse to go on where a library or a source cannot be relied on.
    CheckDirectories,
    /// Find the folders of the libraries.
    ScanLibraries,
    /// Find the files of the sources.
    ListSources,
    /// Match files with folders.
    Match,
    /// Look up the titles of episodes.
    EnrichTitles,
    /// Make the links.
    Link,
    /// Have subtitles searched for.
    TriggerBazarr,
    /// Have the library of Plex refreshed.
    RefreshPlex,
    /// Count the scan.
    RecordScan,
    /// Refuse to go on where a source cannot be relied on.
    CheckSources,
    /// Mark and remove links that lead nowhere.
    SweepDeadLinks,
    /// Tell what was counted.
    ShowTelemetry,
    /// Acquire what is missing, or say why not.
    Acquire,
    /// Record all that was counted.
    RecordRun,
    /// Nothing is left to do.
    Finished,
}

/// The step that follows a step.
pub open spec fn step_after(
    cfg: Config,
    effective_dry_run: bool,
    search_missing: bool,
    linked_total: nat,
    step: ScanStep,
) -> ScanStep {
    let tell = linked_total > 0 && !effective_dry_run;
    match step {
        ScanStep::CheckDirectories => ScanStep::ScanLibraries,
        ScanStep::ScanLibraries => ScanStep::ListSources,
        ScanStep::ListSources => ScanStep::Match,
        ScanStep::Match => ScanStep::EnrichTitles,
        ScanStep::EnrichTitles => ScanStep::Link,
        ScanStep::Link => if tell && has_bazarr(cfg) {
            ScanStep::TriggerBazarr
        } else if tell && has_plex(cfg) {
            ScanStep::RefreshPlex
        } else {
            ScanStep::RecordScan
        },
        ScanStep::TriggerBazarr => if tell && has_plex(cfg) {
            ScanStep::RefreshPlex
        } else {
            ScanStep::RecordScan
        },
        ScanStep::RefreshPlex => ScanStep::RecordScan,
        ScanStep::RecordScan => if search_missing {
            ScanStep::CheckSources
        } else {
            ScanStep::ShowTelemetry
        },
        ScanStep::CheckSources => ScanStep::SweepDeadLinks,
        ScanStep::SweepDeadLinks => ScanStep::ShowTelemetry,
        ScanStep::ShowTelemetry => if search_missing {
            ScanStep::Acquire
        } else {
            ScanStep::RecordRun
        },
        ScanStep::Acquire => ScanStep::RecordRun,
        ScanStep::RecordRun => ScanStep::Finished,
        ScanStep::Finished => ScanStep::Finished,
    }
}

/// Runs a scan: tells which step follows the one that was done. The first is to check the
/// directories; `linked_total` is what linking made or changed, which counts from then on.
pub fn run_scan(
    cfg: &Config,
    effective_dry_run: bool,
    search_missing: bool,
    linked_total: u64,
    done: ScanStep,
) -> (next: ScanStep)
    ensures
        next == step_after(*cfg, effective_dry_run, search_missing, linked_total as nat, done),
{
    let tell = linked_total > 0 && !effective_dry_run;
    match done {
        ScanStep::CheckDirectories => ScanStep::ScanLibraries,
        ScanStep::ScanLibraries => ScanStep::ListSources,
        ScanStep::ListSources => ScanStep::Match,
        ScanStep::Match => ScanStep::EnrichTitles,
        ScanStep::EnrichTitles => ScanStep::Link,
        ScanStep::Link => if tell && cfg.has_bazarr() {
            ScanStep::TriggerBazarr
        } else if tell && cfg.has_plex() {
            ScanStep::RefreshPlex
        } else {
            ScanStep::RecordScan
        },
        ScanStep::TriggerBazarr => if tell && cfg.has_plex() {
            ScanStep::RefreshPlex
        } else {
            ScanStep::RecordScan
        },
        ScanStep::RefreshPlex => ScanStep::RecordScan,
        ScanStep::RecordScan => if search_missing {
            ScanStep::CheckSources
        } else {
            ScanStep::ShowTelemetry
        },
        ScanStep::CheckSources => ScanStep::SweepDeadLinks,
        ScanStep::SweepDeadLinks => ScanStep::ShowTelemetry,
        ScanStep::ShowTelemetry => if search_missing {
            ScanStep::Acquire
        } else {
            ScanStep::RecordRun
        },
        ScanStep::Acquire => ScanStep::RecordRun,
        ScanStep::RecordRun => ScanStep::Finished,
        ScanStep::Finished => ScanStep::Finished,
    }
}

/// The steps of a scan up to the `n`th.
pub open spec fn steps(
    cfg: Config,
    effective_dry_run: bool,
    search_missing: bool,
    linked_total: nat,
    n: nat,
) -> ScanStep
    decreases n,
{
    if n == 0 {
        ScanStep::CheckDirectories
    } else {
        step_after(
            cfg,
            effective_dry_run,
            search_missing,
            linked_total,
            steps(cfg, effective_dry_run, search_missing, linked_total, (n - 1) as nat),
        )
    }
}

/// A dry run has nobody told of links; nor has a scan that made none.
pub proof fn lemma_nobody_is_told(
    cfg: Config,
    effective_dry_run: bool,
    search_missing: bool,
    linked_total: nat,
    n: nat,
)
    requires
        effective_dry_run || linked_total == 0,
    ensures
        !(steps(cfg, effective_dry_run, search_missing, linked_total, n) is TriggerBazarr),
        !(steps(cfg, effective_dry_run, search_missing, linked_total, n) is RefreshPlex),
    decreases n,
{
    if n > 0 {
        lemma_nobody_is_told(
            cfg,
            effective_dry_run,
            search_missing,
            linked_total,
            (n - 1) as nat,
        );
    }
}

/// Links are only swept, and downloads only started, where missing media is asked for; and
/// the sources are checked right before a sweep.
pub proof fn lemma_sweep_is_asked_for(
    cfg: Config,
    effective_dry_run: bool,
    search_missing: bool,
    linked_total: nat,
    n: nat,
)
    ensures
        !search_missing ==> !(steps(
            cfg,
            effective_dry_run,
            search_missing,
            linked_total,
            n,
        ) is SweepDeadLinks) && !(steps(
            cfg,
            effective_dry_run,
            search_missing,
            linked_total,
            n,
        ) is CheckSources) && !(steps(
            cfg,
            effective_dry_run,
            search_missing,
            linked_total,
            n,
        ) is Acquire),
        steps(cfg, effective_dry_run, search_missing, linked_total, n) is SweepDeadLinks ==> n > 0
            && steps(
            cfg,
            effective_dry_run,
            search_missing,
            linked_total,
            (n - 1) as nat,
        ) is CheckSources,
    decreases n,
{
    if n > 0 {
        lemma_sweep_is_asked_for(
            cfg,
            effective_dry_run,
            search_missing,
            linked_total,
            (n - 1) as nat,
        );
    }
}

/// The place of a step.
pub open spec fn rank(step: ScanStep) -> nat {
    match step {
        ScanStep::CheckDirectories => 0,
        ScanStep::ScanLibraries => 1,
        ScanStep::ListSources => 2,
        ScanStep::Match => 3,
        ScanStep::EnrichTitles => 4,
        ScanStep::Link => 5,
        ScanStep::TriggerBazarr => 6,
        ScanStep::RefreshPlex => 7,
        ScanStep::RecordScan => 8,
        ScanStep::CheckSources => 9,
        ScanStep::SweepDeadLinks => 10,
        ScanStep::ShowTelemetry => 11,
        ScanStep::Acquire => 12,
        ScanStep::RecordRun => 13,
        ScanStep::Finished => 14,
    }
}

/// A scan comes to an end, does no step twice, and records its run before it ends.
pub proof fn lemma_scan_ends(
    cfg: Config,
    effective_dry_run: bool,
    search_missing: bool,
    linked_total: nat,
    step: ScanStep,
)
    ensures
        rank(step_after(cfg, effective_dry_run, search_missing, linked_total, step)) > rank(step)
            || step is Finished,
        step_after(cfg, effective_dry_run, search_missing, linked_total, step) is Finished ==> step
            is RecordRun || step is Finished,
{
}

/// Whether Bazarr is configured.
pub open spec fn has_bazarr(cfg: Config) -> bool {
    cfg.bazarr.url@.len() > 0 && cfg.bazarr.api_key@.len() > 0
}

/// Whether Plex is configured.
pub open spec fn has_plex(cfg: Config) -> bool {
    cfg.plex.url@.len() > 0 && cfg.plex.token@.len() > 0
}

/// Whether there is somewhere to search.
pub open spec fn has_indexer(cfg: Config) -> bool {
    (cfg.prowlarr.url@.len() > 0 && cfg.prowlarr.api_key@.len() > 0) || (cfg.dmm.url@.len() > 0)
}

/// Whether there is something to download with.
pub open spec fn has_downloader(cfg: Config) -> bool {
    cfg.decypharr.url@.len() > 0
}

/// What a scan does about media that is missing.
#[derive(Debug, Clone, Copy, PartialEq, Eq, Structural)]
pub enum AcquireGate {
    /// It was not asked to do anything.
    NotAsked,
    /// It acquires what is missing.
    Acquire,
    /// It was asked, and there is nowhere to search.
    NoIndexer,
    /// It was asked, and there is nothing to download with.
    NoDownloader,
}

/// What a scan does about media that is missing.
pub fn acquire_gate(cfg: &Config, search_missing: bool) -> (out: AcquireGate)
    ensures
        out == (if !search_missing {
            AcquireGate::NotAsked
        } else if !has_indexer(*cfg) {
            AcquireGate::NoIndexer
        } else if !has_downloader(*cfg) {
            AcquireGate::NoDownloader
        } else {
            AcquireGate::Acquire
        }),
{
    if !search_missing {
        AcquireGate::NotAsked
    } else if !cfg.has_prowlarr() && !cfg.has_dmm() {
        AcquireGate::NoIndexer
    } else if !cfg.has_decypharr() {
        AcquireGate::NoDownloader
    } else {
        AcquireGate::Acquire
    }
}

impl AcquireGate {
    /// What is said of it, where anything is: a warning that downloads are about to be
    /// started, which a dry run does not do, or what is missing.
    pub fn warning(self, effective_dry_run: bool) -> (out: Option<String>)
        ensures
            text::opt(out) == (match self {
                AcquireGate::NotAsked => None,
                AcquireGate::Acquire => if effective_dry_run {
                    None
                } else {
                    Some(
                        "\n   ⚠️  --search-missing triggers external grabs. Ensure you intended side effects."@,
                    )
                },
                AcquireGate::NoIndexer => Some(
                    "\n   ⚠️  --search-missing specified but neither Prowlarr nor DMM is configured"@,
                ),
                AcquireGate::NoDownloader => Some(
                    "\n   ⚠️  --search-missing specified but Decypharr not configured"@,
                ),
            }),
    {
        match self {
            AcquireGate::NotAsked => None,
            AcquireGate::Acquire => if effective_dry_run {
                None
            } else {
                Some(
                    "\n   ⚠️  --search-missing triggers external grabs. Ensure you intended side effects.".to_owned(),
                )
            },
            AcquireGate::NoIndexer => Some(
                "\n   ⚠️  --search-missing specified but neither Prowlarr nor DMM is configured".to_owned(),
            ),
            AcquireGate::NoDownloader => Some(
                "\n   ⚠️  --search-missing specified but Decypharr not configured".to_owned(),
            ),
        }
    }
}

// ---------------------------------------------------------------------------
// Where source items come from

/// Whether enough of the torrents are cached for the cache to stand in for the file
/// system: four fifths of those that are downloaded.
pub open spec fn cache_covers(cached: int, total: int) -> bool {
    total > 0 && 5 * cached >= 4 * total
}

/// Where the items of a source came from, and how many.
#[derive(Debug, Clone, Copy, PartialEq, Eq, Structural)]
pub enum SourceScan {
    Cached(usize),
    Filesystem(usize),
}

/// The sources that were read from the cache.
pub open spec fn cached_sources(scans: Seq<SourceScan>) -> nat
    decreases scans.len(),
{
    if scans.len() == 0 {
        0
    } else {
        cached_sources(scans.drop_last()) + if scans.last() is Cached {
            1nat
        } else {
            0nat
        }
    }
}

/// The items that came from the cache.
pub open spec fn cached_items(scans: Seq<SourceScan>) -> nat
    decreases scans.len(),
{
    if scans.len() == 0 {
        0
    } else {
        cached_items(scans.drop_last()) + match scans.last() {
            SourceScan::Cached(n) => n as nat,
            SourceScan::Filesystem(_) => 0nat,
        }
    }
}

/// The items that came from the file system.
pub open spec fn filesystem_items(scans: Seq<SourceScan>) -> nat
    decreases scans.len(),
{
    if scans.len() == 0 {
        0
    } else {
        filesystem_items(scans.drop_last()) + match scans.last() {
            SourceScan::Cached(_) => 0nat,
            SourceScan::Filesystem(n) => n as nat,
        }
    }
}

/// What is known of the cache: nothing where it is not configured or could not be asked.
#[derive(Debug, Clone, Copy, PartialEq, Eq, Structural)]
pub struct CacheCounts {
    pub cached: i64,
    pub total: i64,
}

/// Whether the cache stands in for the file system.
pub fn cache_available(counts: Option<CacheCounts>) -> (b: bool)
    ensures
        b == (match counts {
            Some(c) => cache_covers(c.cached as int, c.total as int),
            None => false,
        }),
{
    match counts {
        Some(c) => c.total > 0 && 5 * (c.cached as i128) >= 4 * (c.total as i128),
        None => false,
    }
}

proof fn lemma_items_grow(scans: Seq<SourceScan>, n: int)
    requires
        0 <= n <= scans.len(),
    ensures
        cached_items(scans.take(n)) <= cached_items(scans),
        filesystem_items(scans.take(n)) <= filesystem_items(scans),
    decreases scans.len() - n,
{
    if n < scans.len() {
        lemma_items_grow(scans, n + 1);
        assert(scans.take(n + 1).drop_last() =~= scans.take(n));
    } else {
        assert(scans.take(n) =~= scans);
    }
}

/// What an inventory of the sources counted, from what is known of the cache and where
/// the items of each source came from.
pub fn collect_source_items(counts: Option<CacheCounts>, scans: &Vec<SourceScan>) -> (out:
    SourceInventoryTelemetry)
    requires
        cached_items(scans@) <= usize::MAX,
        filesystem_items(scans@) <= usize::MAX,
    ensures
        out.cache_enabled == (match counts {
            Some(c) => cache_covers(c.cached as int, c.total as int),
            None => false,
        }),
        out.cache_downloaded_torrents == (match counts {
            Some(c) => Some(c.cached as usize),
            None => None,
        }),
        out.cache_total_torrents == (match counts {
            Some(c) => Some(c.total as usize),
            None => None,
        }),
        out.cached_sources == cached_sources(scans@),
        out.filesystem_sources == scans@.len() - cached_sources(scans@),
        out.cached_items == cached_items(scans@),
        out.filesystem_items == filesystem_items(scans@),
{
    let mut out = SourceInventoryTelemetry::default();
    out.cache_enabled = cache_available(counts);
    match counts {
        Some(c) => {
            out.cache_downloaded_torrents = Some(c.cached as usize);
            out.cache_total_torrents = Some(c.total as usize);
        },
        None => {},
    }
    let mut i: usize = 0;
    assert(scans@.take(0) =~= Seq::<SourceScan>::empty());
    let mut cached: usize = 0;
    let mut in_cache: usize = 0;
    let mut on_disk: usize = 0;
    while i < scans.len()
        invariant
            i <= scans@.len(),
            cached_items(scans@) <= usize::MAX,
            filesystem_items(scans@) <= usize::MAX,
            cached <= i,
            cached == cached_sources(scans@.take(i as int)),
            in_cache == cached_items(scans@.take(i as int)),
            on_disk == filesystem_items(scans@.take(i as int)),
        decreases scans@.len() - i,
    {
        proof {
            assert(scans@.take(i + 1).drop_last() =~= scans@.take(i as int));
            lemma_items_grow(scans@, i + 1);
        }
        match scans[i] {
            SourceScan::Cached(n) => {
                cached += 1;
                in_cache += n;
            },
            SourceScan::Filesystem(n) => {
                on_disk += n;
            },
        }
        i += 1;
    }
    assert(scans@.take(i as int) =~= scans@);
    out.cached_sources = cached;
    out.filesystem_sources = scans.len() - cached;
    out.cached_items = in_cache;
    out.filesystem_items = on_disk;
    out
}

/// Whether a file is to be looked at in a scan of one folder of a source: it lies in that
/// folder. Without a folder all files are.
pub fn in_target_folder(path: &str, root: &str, folder: Option<&str>) -> (b: bool)
    ensures
        b == (folder is Some ==> paths::below(path@, paths::joined(root@, folder->0@))),
{
    match folder {
        Some(name) => paths::is_below(path, paths::join(root, name).as_str()),
        None => true,
    }
}

/// The items that lie in the folder of a source, in order; all where no folder is given.
pub open spec fn items_in_folder(
    items: Seq<SourceItem>,
    root: Seq<char>,
    folder: Option<Seq<char>>,
) -> Seq<SourceItem> {
    items.filter(
        |item: SourceItem|
            folder is Some ==> paths::below(item.path@, paths::joined(root, folder->0)),
    )
}

/// Restricts what was found in a source to a folder of it.
pub fn restrict_to_folder(items: Vec<SourceItem>, root: &str, folder: Option<&str>) -> (out: Vec<
    SourceItem,
>)
    ensures
        out@ == items_in_folder(
            items@,
            root@,
            match folder {
                Some(name) => Some(name@),
                None => None,
            },
        ),
{
    let ghost wanted: Option<Seq<char>> = match folder {
        Some(name) => Some(name@),
        None => None,
    };
    let ghost kept = |item: SourceItem|
        wanted is Some ==> paths::below(item.path@, paths::joined(root@, wanted->0));
    let mut out: Vec<SourceItem> = Vec::new();
    let mut i: usize = 0;
    assert(items@.take(0).filter(kept) =~= Seq::<SourceItem>::empty()) by {
        assert(items@.take(0) =~= Seq::<SourceItem>::empty());
        reveal(Seq::filter);
    }
    while i < items.len()
        invariant
            i <= items@.len(),
            wanted == (match folder {
                Some(name) => Some(name@),
                None => None,
            }),
            kept == (|item: SourceItem|
                wanted is Some ==> paths::below(item.path@, paths::joined(root@, wanted->0))),
            out@ == items@.take(i as int).filter(kept),
        decreases items@.len() - i,
    {
        proof {
            assert(items@.take(i + 1).drop_last() =~= items@.take(i as int));
            reveal(Seq::filter);
        }
        if in_target_folder(items[i].path.as_str(), root, folder) {
            out.push(items[i].clone());
        }
        i += 1;
    }
    assert(items@.take(i as int) =~= items@);
    out
}

// ---------------------------------------------------------------------------
// What is asked for

/// Whether one of the matches is of the id.
pub open spec fn is_matched(matches: Seq<MatchResult>, id: MediaId) -> bool {
    exists|k: int| 0 <= k < matches.len() && (#[trigger] matches[k]).library_item.id == id
}

/// The items that no match is of, in order.
pub open spec fn unmatched(items: Seq<LibraryItem>, matches: Seq<MatchResult>) -> Seq<LibraryItem>
    decreases items.len(),
{
    if items.len() == 0 {
        items
    } else if is_matched(matches, items.last().id) {
        unmatched(items.drop_last(), matches)
    } else {
        unmatched(items.drop_last(), matches).push(items.last())
    }
}

/// The items that no match is of.
pub fn unmatched_items(items: &Vec<LibraryItem>, matches: &Vec<MatchResult>) -> (out: Vec<
    LibraryItem,
>)
    ensures
        out@ == unmatched(items@, matches@),
{
    let mut out: Vec<LibraryItem> = Vec::new();
    let mut i: usize = 0;
    assert(items@.take(0) =~= Seq::<LibraryItem>::empty());
    while i < items.len()
        invariant
            i <= items@.len(),
            out@ == unmatched(items@.take(i as int), matches@),
        decreases items@.len() - i,
    {
        assert(items@.take(i + 1).drop_last() =~= items@.take(i as int));
        let mut k: usize = 0;
        while k < matches.len() && matches[k].library_item.id != items[i].id
            invariant
                i < items@.len(),
                k <= matches@.len(),
                forall|j: int|
                    0 <= j < k ==> (#[trigger] matches@[j]).library_item.id != items@[i as int].id,
            decreases matches@.len() - k,
        {
            k += 1;
        }
        if k == matches.len() {
            out.push(items[i].clone());
        } else {
            assert(matches@[k as int].library_item.id == items@[i as int].id);
        }
        i += 1;
    }
    assert(items@.take(i as int) =~= items@);
    out
}

/// The query for an item: the title of a movie, where that says enough.
pub open spec fn search_query(item: LibraryItem) -> Option<Seq<char>> {
    if item.media_type is Tv || !commands::is_safe_query(text::trim(item.title@)) {
        None
    } else {
        Some(text::trim(item.title@))
    }
}

/// The query for an item that is missing.
pub fn build_missing_search_query(item: &LibraryItem) -> (out: Option<String>)
    ensures
        text::opt(out) == search_query(*item),
{
    match item.media_type {
        MediaType::Tv => None,
        MediaType::Movie => {
            let query = text::trimmed(item.title.as_str());
            if commands::is_safe_auto_acquire_query(query.as_str()) {
                Some(query)
            } else {
                None
            }
        },
    }
}

/// Something to acquire.
#[derive(Debug, PartialEq, Eq)]
pub struct AutoAcquireRequest {
    pub label: String,
    pub query: String,
    pub query_hints: Vec<String>,
    pub imdb_id: Option<String>,
    pub categories: Vec<i32>,
    pub arr: String,
    pub library_filter: Option<String>,
    pub relink_kind: AcquisitionRelinkKind,
    pub relink_value: String,
}

/// Whether a request is for an item; its IMDb id is not known yet.
pub open spec fn request_fits(request: AutoAcquireRequest, item: LibraryItem, cfg: Config) -> bool {
    &&& request.label == item.title
    &&& search_query(item) == Some(request.query@)
    &&& request.query_hints@.len() == 0
    &&& request.imdb_id is None
    &&& request.categories@ == (if item.media_type is Movie {
        seq![2000i32]
    } else if item.content_type is Anime {
        seq![5070i32]
    } else {
        seq![5000i32]
    })
    &&& request.arr == commands::arr_name(cfg, item.media_type, item.content_type)
    &&& request.library_filter == Some(item.library_name)
    &&& request.relink_kind is MediaId
    &&& request.relink_value@ == item.id.spelled()
}

/// Whether one of the items at the places has the query.
pub open spec fn asked_already(items: Seq<LibraryItem>, places: Seq<int>, query: Seq<char>) -> bool {
    exists|k: int|
        0 <= k < places.len() && search_query(items[#[trigger] places[k]]) == Some(query)
}

/// The places of the items that are asked for: the first ones up to the limit, each query
/// once.
pub open spec fn asked(items: Seq<LibraryItem>, n: int, limit: nat) -> Seq<int>
    decreases n,
{
    if n <= 0 {
        Seq::<int>::empty()
    } else {
        let before = asked(items, n - 1, limit);
        if before.len() >= limit {
            before
        } else {
            match search_query(items[n - 1]) {
                None => before,
                Some(query) => if asked_already(items, before, query) {
                    before
                } else {
                    before.push(n - 1)
                },
            }
        }
    }
}

/// What is said while the requests are put together.
pub open spec fn asking_notes(items: Seq<LibraryItem>, n: int, limit: nat) -> Seq<Seq<char>>
    decreases n,
{
    if n <= 0 {
        Seq::<Seq<char>>::empty()
    } else {
        let before = asking_notes(items, n - 1, limit);
        if asked(items, n - 1, limit).len() >= limit {
            if n >= 2 && asked(items, n - 2, limit).len() >= limit {
                before
            } else {
                before.push(limit_note(limit))
            }
        } else if items[n - 1].media_type is Movie && search_query(items[n - 1]) is None {
            before.push(
                "      ⚠️  '"@ + items[n - 1].title@ + "' → skipped auto-grab (query too ambiguous)"@,
            )
        } else {
            before
        }
    }
}

/// What is said where the limit is reached.
pub open spec fn limit_note(limit: nat) -> Seq<char> {
    "\n   ⚠️  Auto-acquire: reached safety limit of "@ + text::decimal(limit)
        + " requests. Stopping queue build."@
}

/// Whether the requests are for the items at the places.
pub open spec fn requests_fit(
    requests: Seq<AutoAcquireRequest>,
    items: Seq<LibraryItem>,
    places: Seq<int>,
    cfg: Config,
) -> bool {
    requests.len() == places.len() && forall|k: int|
        0 <= k < places.len() ==> request_fits(#[trigger] requests[k], items[places[k]], cfg)
}

proof fn lemma_asked_places(items: Seq<LibraryItem>, n: int, limit: nat)
    requires
        0 <= n <= items.len(),
    ensures
        forall|k: int|
            0 <= k < asked(items, n, limit).len() ==> 0 <= #[trigger] asked(items, n, limit)[k] < n,
        asked(items, n, limit).len() <= limit,
    decreases n,
{
    if n > 0 {
        lemma_asked_places(items, n - 1, limit);
    }
}

proof fn lemma_asked_stops(items: Seq<LibraryItem>, n: int, m: int, limit: nat)
    requires
        0 <= n <= m,
        asked(items, n, limit).len() >= limit,
    ensures
        asked(items, m, limit) == asked(items, n, limit),
        m > n ==> asking_notes(items, m, limit) == asking_notes(items, n + 1, limit),
    decreases m,
{
    if n < m {
        lemma_asked_stops(items, n, m - 1, limit);
        if m > n + 1 {
            assert(asked(items, m - 2, limit).len() >= limit) by {
                lemma_asked_stops(items, n, m - 2, limit);
            }
        }
    }
}

/// Requests, and what to say of them.
#[derive(Debug, PartialEq, Eq)]
pub struct RequestQueue {
    pub requests: Vec<AutoAcquireRequest>,
    pub notes: Vec<String>,
}

/// Puts together the requests for the items that are missing: for movies whose title says
/// enough, up to the limit, and no query twice.
pub fn build_request_queue(cfg: &Config, items: &Vec<LibraryItem>, max_grabs: usize) -> (out:
    RequestQueue)
    ensures
        requests_fit(
            out.requests@,
            items@,
            asked(items@, items@.len() as int, max_grabs as nat),
            *cfg,
        ),
        out.requests@.len() <= max_grabs,
        text::views(out.notes@) == asking_notes(items@, items@.len() as int, max_grabs as nat),
{
    let ghost limit = max_grabs as nat;
    let mut requests: Vec<AutoAcquireRequest> = Vec::new();
    let mut notes: Vec<String> = Vec::new();
    let mut i: usize = 0;
    assert(text::views(notes@) =~= asking_notes(items@, 0, limit));
    while i < items.len()
        invariant
            i <= items@.len(),
            limit == max_grabs,
            requests_fit(requests@, items@, asked(items@, i as int, limit), *cfg),
            text::views(notes@) == asking_notes(items@, i as int, limit),
            i > 0 ==> asked(items@, i - 1, limit).len() < limit,
        decreases items@.len() - i,
    {
        let item = &items[i];
        let ghost places = asked(items@, i as int, limit);
        proof {
            lemma_asked_places(items@, i as int, limit);
        }
        if requests.len() >= max_grabs {
            text::push_text(
                &mut notes,
                text::concat3(
                    "\n   ⚠️  Auto-acquire: reached safety limit of ",
                    text::decimal_text(max_grabs as u64).as_str(),
                    " requests. Stopping queue build.",
                ),
            );
            proof {
                lemma_asked_stops(items@, i as int, items@.len() as int, limit);
            }
            return RequestQueue { requests, notes };
        }
        match item.media_type {
            MediaType::Tv => {},
            MediaType::Movie => {
                match build_missing_search_query(item) {
                    None => {
                        text::push_text(
                            &mut notes,
                            text::concat3(
                                "      ⚠️  '",
                                item.title.as_str(),
                                "' → skipped auto-grab (query too ambiguous)",
                            ),
                        );
                    },
                    Some(query) => {
                        let mut k: usize = 0;
                        while k < requests.len() && !text::text_eq(
                            requests[k].query.as_str(),
                            query.as_str(),
                        )
                            invariant
                                k <= requests@.len(),
                                requests_fit(requests@, items@, places, *cfg),
                                forall|j: int|
                                    0 <= j < k ==> search_query(items@[#[trigger] places[j]])
                                        != Some(query@),
                            decreases requests@.len() - k,
                        {
                            assert(request_fits(
                                requests@[k as int],
                                items@[places[k as int]],
                                *cfg,
                            ));
                            k += 1;
                        }
                        if k == requests.len() {
                            let ghost before = requests@;
                            requests.push(
                                AutoAcquireRequest {
                                    label: item.title.clone(),
                                    query,
                                    query_hints: Vec::new(),
                                    imdb_id: None,
                                    categories: commands::prowlarr_categories(
                                        item.media_type,
                                        item.content_type,
                                    ),
                                    arr: commands::decypharr_arr_name(
                                        cfg,
                                        item.media_type,
                                        item.content_type,
                                    ),
                                    library_filter: Some(item.library_name.clone()),
                                    relink_kind: AcquisitionRelinkKind::MediaId,
                                    relink_value: item.id.label(),
                                },
                            );
                            proof {
                                assert(!asked_already(items@, places, search_query(*item)->0));
                                let now = asked(items@, i + 1, limit);
                                assert(now == places.push(i as int));
                                assert forall|j: int| 0 <= j < now.len() implies request_fits(
                                    #[trigger] requests@[j],
                                    items@[now[j]],
                                    *cfg,
                                ) by {
                                    if j < before.len() {
                                        assert(requests@[j] == before[j]);
                                        assert(now[j] == places[j]);
                                    }
                                }
                            }
                        } else {
                            assert(request_fits(
                                requests@[k as int],
                                items@[places[k as int]],
                                *cfg,
                            ));
                            assert(asked_already(items@, places, search_query(*item)->0));
                        }
                    },
                }
            },
        }
        i += 1;
    }
    proof {
        lemma_asked_places(items@, items@.len() as int, limit);
    }
    RequestQueue { requests, notes }
}

/// No query is asked for twice.
pub proof fn lemma_no_query_twice(items: Seq<LibraryItem>, n: int, limit: nat, i: int, j: int)
    requires
        0 <= n <= items.len(),
        0 <= i < j < asked(items, n, limit).len(),
    ensures
        search_query(items[asked(items, n, limit)[i]]) is Some,
        search_query(items[asked(items, n, limit)[i]]) != search_query(
            items[asked(items, n, limit)[j]],
        ),
    decreases n,
{
    let before = asked(items, n - 1, limit);
    let now = asked(items, n, limit);
    if j < before.len() {
        lemma_no_query_twice(items, n - 1, limit, i, j);
    } else {
        assert(now == before.push(n - 1));
        assert(now[i] == before[i]);
        let query = search_query(items[n - 1])->0;
        assert(!asked_already(items, before, query));
        assert(search_query(items[before[i]]) != Some(query));
        lemma_asked_have_queries(items, n - 1, limit, i);
    }
}

proof fn lemma_asked_have_queries(items: Seq<LibraryItem>, n: int, limit: nat, i: int)
    requires
        0 <= n,
        0 <= i < asked(items, n, limit).len(),
    ensures
        search_query(items[asked(items, n, limit)[i]]) is Some,
    decreases n,
{
    if n > 0 {
        let before = asked(items, n - 1, limit);
        if i < before.len() {
            lemma_asked_have_queries(items, n - 1, limit, i);
            assert(asked(items, n, limit)[i] == before[i]);
        }
    }
}

/// How many more requests there may be for episodes that are missing: all that are left
/// below the limit, or the larger half where at least four are.
pub open spec fn missing_allowed(max_grabs: nat, queued: nat) -> nat {
    if queued >= max_grabs {
        0
    } else if max_grabs - queued >= 4 {
        (max_grabs - queued - (max_grabs - queued) / 2) as nat
    } else {
        (max_grabs - queued) as nat
    }
}

/// How many more requests there may be for episodes that could be better: all that are
/// left below the limit.
pub open spec fn cutoff_allowed(max_grabs: nat, queued: nat) -> nat {
    if queued >= max_grabs {
        0
    } else {
        (max_grabs - queued) as nat
    }
}

/// A run asks for no more than the limit: the queue of a scan, and behind it as many
/// requests for episodes that are missing, and then for ones that could be better, as
/// each time may be.
pub proof fn lemma_run_stays_under_limit(
    max_grabs: nat,
    queued: nat,
    missing: nat,
    cutoff: nat,
)
    requires
        queued <= max_grabs,
        missing <= missing_allowed(max_grabs, queued),
        cutoff <= cutoff_allowed(max_grabs, queued + missing),
    ensures
        queued + missing + cutoff <= max_grabs,
{
}

/// How many more requests there may be for episodes that are missing, so that some are
/// left for those that could be better; `None` where the limit is reached.
pub fn missing_budget(max_grabs: usize, queued: usize) -> (out: Option<usize>)
    ensures
        out == (if queued >= max_grabs {
            None
        } else {
            Some(missing_allowed(max_grabs as nat, queued as nat) as usize)
        }),
{
    if queued >= max_grabs {
        return None;
    }
    let remaining: usize = max_grabs - queued;
    let kept: usize = if remaining >= 4 {
        remaining / 2
    } else {
        0
    };
    Some(remaining - kept)
}

/// How many more requests there may be for episodes that could be better; `None` where the
/// limit is reached.
pub fn cutoff_budget(max_grabs: usize, queued: usize) -> (out: Option<usize>)
    ensures
        out == (if queued >= max_grabs {
            None
        } else {
            Some(cutoff_allowed(max_grabs as nat, queued as nat) as usize)
        }),
{
    if queued >= max_grabs {
        None
    } else {
        Some(max_grabs - queued)
    }
}

/// Where the IMDb id of an item is looked up.
#[derive(Debug, Clone, Copy, PartialEq, Eq, Structural)]
pub enum ImdbLookup {
    Movie(u64),
    Tv(u64),
}

/// Where the IMDb id of an item is looked up: by its TMDB id, where it has one and there
/// is a client to ask.
pub fn lookup_item_imdb_id(has_client: bool, item: &LibraryItem) -> (out: Option<ImdbLookup>)
    ensures
        out == (match item.id {
            MediaId::Tmdb(id) if has_client => if item.media_type is Movie {
                Some(ImdbLookup::Movie(id))
            } else {
                Some(ImdbLookup::Tv(id))
            },
            _ => None,
        }),
{
    if !has_client {
        return None;
    }
    match item.id {
        MediaId::Tmdb(id) => match item.media_type {
            MediaType::Movie => Some(ImdbLookup::Movie(id)),
            MediaType::Tv => Some(ImdbLookup::Tv(id)),
        },
        _ => None,
    }
}

/// What is said before the requests are put together, where anything is missing.
pub fn evaluating_note(unmatched: usize) -> (out: Option<String>)
    ensures
        text::opt(out) == (if unmatched == 0 {
            None
        } else {
            Some(
                "
   🔍 Auto-acquire: evaluating "@ + text::decimal(unmatched as nat)
                    + " unmatched library items..."@,
            )
        }),
{
    if unmatched == 0 {
        None
    } else {
        Some(
            text::concat3(
                "
   🔍 Auto-acquire: evaluating ",
                text::decimal_text(unmatched as u64).as_str(),
                " unmatched library items...",
            ),
        )
    }
}

/// The parts of what is said of the requests in the end.
pub open spec fn acquired_parts(summary: AutoAcquireBatchSummary) -> Seq<Seq<char>> {
    seq![
        "
   📡 Auto-acquire summary: submitted="@,
        text::decimal(summary.submitted as nat),
        ", linked="@,
        text::decimal(summary.completed_linked as nat),
        ", completed_unlinked="@,
        text::decimal(summary.completed_unlinked as nat),
        ", no_result="@,
        text::decimal(summary.no_result as nat),
        ", blocked="@,
        text::decimal(summary.blocked as nat),
        ", failed="@,
        text::decimal(summary.failed as nat),
    ]
}

/// What is said of the requests in the end, where there were any.
pub fn acquired_note(summary: &AutoAcquireBatchSummary) -> (out: Option<String>)
    ensures
        text::opt(out) == (if summary.total == 0 {
            None
        } else {
            Some(text::glued(acquired_parts(*summary)))
        }),
{
    if summary.total == 0 {
        return None;
    }
    let submitted = text::decimal_text(summary.submitted as u64);
    let linked = text::decimal_text(summary.completed_linked as u64);
    let unlinked = text::decimal_text(summary.completed_unlinked as u64);
    let no_result = text::decimal_text(summary.no_result as u64);
    let blocked = text::decimal_text(summary.blocked as u64);
    let failed = text::decimal_text(summary.failed as u64);
    let parts: [&str; 12] = [
        "
   📡 Auto-acquire summary: submitted=",
        submitted.as_str(),
        ", linked=",
        linked.as_str(),
        ", completed_unlinked=",
        unlinked.as_str(),
        ", no_result=",
        no_result.as_str(),
        ", blocked=",
        blocked.as_str(),
        ", failed=",
        failed.as_str(),
    ];
    assert(text::strs(parts@) =~= acquired_parts(*summary));
    Some(text::glue(&parts))
}

// ---------------------------------------------------------------------------
// Refreshing the library of Plex

/// One refresh of a path in a section.
#[derive(Debug, PartialEq, Eq)]
pub struct PlexRefreshBatch {
    pub section_key: String,
    pub section_title: String,
    pub refresh_path: String,
    pub covered_paths: usize,
    pub coalesced_to_root: bool,
}

/// The refreshes to make.
#[derive(Debug, PartialEq, Eq)]
pub struct PlexRefreshPlan {
    pub batches: Vec<PlexRefreshBatch>,
    pub unique_paths: usize,
    pub coalesced_batches: usize,
    pub coalesced_paths: usize,
    pub unresolved_paths: Vec<String>,
}

impl Default for PlexRefreshPlan {
    fn default() -> (out: Self)
        ensures
            out.batches@.len() == 0,
            out.unique_paths == 0,
            out.coalesced_batches == 0,
            out.coalesced_paths == 0,
            out.unresolved_paths@.len() == 0,
    {
        PlexRefreshPlan {
            batches: Vec::new(),
            unique_paths: 0,
            coalesced_batches: 0,
            coalesced_paths: 0,
            unresolved_paths: Vec::new(),
        }
    }
}

/// How many batches of a plan are over a limit; a limit of zero is none.
pub open spec fn over_limit(batches: nat, max_batches: nat) -> nat {
    if max_batches == 0 || batches <= max_batches {
        0
    } else {
        (batches - max_batches) as nat
    }
}

/// No more requests are made than the limit allows, where there is one, and none is lost
/// that it allows.
pub proof fn lemma_refresh_is_capped(batches: nat, max_batches: nat)
    ensures
        over_limit(batches, max_batches) <= batches,
        max_batches > 0 ==> batches - over_limit(batches, max_batches) <= max_batches,
        over_limit(batches, max_batches) > 0 ==> batches - over_limit(batches, max_batches)
            == max_batches,
{
}

/// Keeps the first batches of a plan, up to a limit, and tells how many were dropped.
pub fn enforce_refresh_batch_limit(plan: PlexRefreshPlan, max_batches: usize) -> (out: (
    PlexRefreshPlan,
    usize,
))
    ensures
        out.1 == over_limit(plan.batches@.len(), max_batches as nat),
        out.0.batches@ == plan.batches@.take(plan.batches@.len() - out.1),
        out.0.unique_paths == plan.unique_paths,
        out.0.coalesced_batches == plan.coalesced_batches,
        out.0.coalesced_paths == plan.coalesced_paths,
        out.0.unresolved_paths == plan.unresolved_paths,
{
    let mut plan = plan;
    let ghost all = plan.batches@;
    let count = plan.batches.len();
    if max_batches == 0 || count <= max_batches {
        assert(plan.batches@ =~= all.take(all.len() as int));
        return (plan, 0);
    }
    let mut kept = plan.batches;
    kept.truncate(max_batches);
    assert(kept@ =~= all.take(max_batches as int));
    plan.batches = kept;
    (plan, count - max_batches)
}

/// Whether a plan is given up: it is over the limit, and the configuration says so.
pub open spec fn is_aborted(batches: nat, max_batches: nat, abort_when_capped: bool) -> bool {
    abort_when_capped && over_limit(batches, max_batches) > 0
}

/// What is counted before the first refresh.
pub open spec fn counts_plan(
    out: LibraryRefreshTelemetry,
    requested: nat,
    plan: PlexRefreshPlan,
    max_batches: nat,
    abort_when_capped: bool,
) -> bool {
    let batches = plan.batches@.len();
    let dropped = over_limit(batches, max_batches);
    let aborted = is_aborted(batches, max_batches, abort_when_capped);
    &&& out.requested_paths == requested
    &&& out.unique_paths == plan.unique_paths
    &&& out.planned_batches == batches
    &&& out.coalesced_batches == plan.coalesced_batches
    &&& out.coalesced_paths == plan.coalesced_paths
    &&& out.refreshed_batches == 0
    &&& out.refreshed_paths_covered == 0
    &&& out.unresolved_paths == plan.unresolved_paths@.len()
    &&& out.capped_batches == dropped
    &&& out.skipped_batches == plan.unresolved_paths@.len() + (if aborted {
        batches
    } else {
        dropped
    })
    &&& out.aborted_due_to_cap == aborted
    &&& !out.deferred_due_to_lock
    &&& out.failed_batches == 0
}

/// Whether there is a refresh at all: there are paths, and refreshing is configured.
pub fn wants_plex_refresh(cfg: &Config, requested_paths: usize) -> (b: bool)
    ensures
        b == (requested_paths > 0 && cfg.plex.url@.len() > 0 && cfg.plex.token@.len() > 0 && cfg.plex.refresh_enabled),
{
    requested_paths > 0 && cfg.has_plex_refresh()
}

/// What a refresh counted that was not wanted.
pub fn no_plex_refresh(requested_paths: usize) -> (out: LibraryRefreshTelemetry)
    ensures
        out == (LibraryRefreshTelemetry { requested_paths, ..no_refresh() }),
{
    let mut out = LibraryRefreshTelemetry::default();
    out.requested_paths = requested_paths;
    out
}

/// What a refresh counted that could not begin.
pub fn failed_plex_refresh(requested_paths: usize) -> (out: LibraryRefreshTelemetry)
    ensures
        out == (LibraryRefreshTelemetry { requested_paths, skipped_batches: 1, ..no_refresh() }),
{
    let mut out = LibraryRefreshTelemetry::default();
    out.requested_paths = requested_paths;
    out.skipped_batches = 1;
    out
}

/// The counts of a refresh of which there was none.
pub open spec fn no_refresh() -> LibraryRefreshTelemetry {
    LibraryRefreshTelemetry {
        requested_paths: 0,
        unique_paths: 0,
        planned_batches: 0,
        coalesced_batches: 0,
        coalesced_paths: 0,
        refreshed_batches: 0,
        refreshed_paths_covered: 0,
        skipped_batches: 0,
        unresolved_paths: 0,
        capped_batches: 0,
        aborted_due_to_cap: false,
        deferred_due_to_lock: false,
        failed_batches: 0,
    }
}

/// Whether there is a pause after the `index`th of the batches: between two of them, where
/// one is configured.
pub fn pauses_after(cfg: &Config, index: usize, batches: usize) -> (b: bool)
    ensures
        b == (cfg.plex.refresh_delay_ms > 0 && index + 1 < batches),
{
    cfg.plex.refresh_delay_ms > 0 && index < batches && batches - index > 1
}

/// Begins a refresh: the batches to make, of which there are none where the plan is given
/// up, and what is counted so far.
pub fn trigger_plex_refresh(cfg: &Config, requested_paths: usize, plan: PlexRefreshPlan) -> (out: (
    Vec<PlexRefreshBatch>,
    LibraryRefreshTelemetry,
))
    requires
        plan.batches@.len() + plan.unresolved_paths@.len() <= usize::MAX,
    ensures
        counts_plan(
            out.1,
            requested_paths as nat,
            plan,
            cfg.plex.max_refresh_batches_per_run as nat,
            cfg.plex.abort_refresh_when_capped,
        ),
        out.0@ == (if out.1.aborted_due_to_cap {
            Seq::<PlexRefreshBatch>::empty()
        } else {
            plan.batches@.take(plan.batches@.len() - out.1.capped_batches)
        }),
{
    let planned = plan.batches.len();
    let mut out = LibraryRefreshTelemetry::default();
    out.requested_paths = requested_paths;
    out.unique_paths = plan.unique_paths;
    out.planned_batches = planned;
    out.coalesced_batches = plan.coalesced_batches;
    out.coalesced_paths = plan.coalesced_paths;
    out.unresolved_paths = plan.unresolved_paths.len();
    let (kept, dropped) = enforce_refresh_batch_limit(plan, cfg.plex.max_refresh_batches_per_run);
    out.capped_batches = dropped;
    if dropped > 0 && cfg.plex.abort_refresh_when_capped {
        out.aborted_due_to_cap = true;
        out.skipped_batches = kept.unresolved_paths.len() + planned;
        let nothing: Vec<PlexRefreshBatch> = Vec::new();
        assert(nothing@ =~= Seq::<PlexRefreshBatch>::empty());
        return (nothing, out);
    }
    out.skipped_batches = kept.unresolved_paths.len() + dropped;
    (kept.batches, out)
}

/// The number of refreshes that went well.
pub open spec fn refreshed(done: Seq<bool>) -> nat
    decreases done.len(),
{
    if done.len() == 0 {
        0
    } else {
        refreshed(done.drop_last()) + if done.last() {
            1nat
        } else {
            0nat
        }
    }
}

/// The paths that the refreshes that went well cover.
pub open spec fn covered(batches: Seq<PlexRefreshBatch>, done: Seq<bool>) -> nat
    decreases done.len(),
{
    if done.len() == 0 {
        0
    } else {
        covered(batches, done.drop_last()) + if done.last() {
            batches[done.len() - 1].covered_paths as nat
        } else {
            0nat
        }
    }
}

proof fn lemma_covered_grows(batches: Seq<PlexRefreshBatch>, done: Seq<bool>, n: int)
    requires
        0 <= n <= done.len(),
    ensures
        covered(batches, done.take(n)) <= covered(batches, done),
    decreases done.len() - n,
{
    if n < done.len() {
        lemma_covered_grows(batches, done, n + 1);
        assert(done.take(n + 1).drop_last() =~= done.take(n));
    } else {
        assert(done.take(n) =~= done);
    }
}

/// What a refresh counted in the end: `done` tells of each batch whether it went well.
pub fn finish_plex_refresh(
    begun: LibraryRefreshTelemetry,
    batches: &Vec<PlexRefreshBatch>,
    done: &Vec<bool>,
) -> (out: LibraryRefreshTelemetry)
    requires
        done@.len() == batches@.len(),
        begun.refreshed_batches == 0 && begun.refreshed_paths_covered == 0 && begun.failed_batches
            == 0,
        covered(batches@, done@) <= usize::MAX,
        begun.skipped_batches + batches@.len() <= usize::MAX,
    ensures
        out == (LibraryRefreshTelemetry {
            refreshed_batches: refreshed(done@) as usize,
            refreshed_paths_covered: covered(batches@, done@) as usize,
            failed_batches: (done@.len() - refreshed(done@)) as usize,
            skipped_batches: (begun.skipped_batches + done@.len() - refreshed(done@)) as usize,
            ..begun
        }),
{
    let mut well: usize = 0;
    let mut paths: usize = 0;
    let mut i: usize = 0;
    assert(done@.take(0) =~= Seq::<bool>::empty());
    while i < done.len()
        invariant
            i <= done@.len() == batches@.len(),
            well <= i,
            well == refreshed(done@.take(i as int)),
            paths == covered(batches@, done@.take(i as int)),
            covered(batches@, done@) <= usize::MAX,
        decreases done@.len() - i,
    {
        proof {
            assert(done@.take(i + 1).drop_last() =~= done@.take(i as int));
            lemma_covered_grows(batches@, done@, i + 1);
        }
        if done[i] {
            well += 1;
            paths += batches[i].covered_paths;
        }
        i += 1;
    }
    assert(done@.take(i as int) =~= done@);
    let mut out = begun;
    out.refreshed_batches = well;
    out.refreshed_paths_covered = paths;
    out.failed_batches = done.len() - well;
    out.skipped_batches = begun.skipped_batches + (done.len() - well);
    out
}

/// Each planned batch is accounted for: it was refreshed, it failed, or it was left out,
/// and failed and left-out batches count as skipped.
pub proof fn lemma_every_batch_is_counted(
    begun: LibraryRefreshTelemetry,
    requested: nat,
    plan: PlexRefreshPlan,
    max_batches: nat,
    abort_when_capped: bool,
    done: Seq<bool>,
)
    requires
        counts_plan(begun, requested, plan, max_batches, abort_when_capped),
        done.len() == (if begun.aborted_due_to_cap {
            0
        } else {
            plan.batches@.len() - begun.capped_batches
        }),
    ensures
        refreshed(done) + (begun.skipped_batches - plan.unresolved_paths@.len()) + (done.len()
            - refreshed(done)) == plan.batches@.len(),
{
}

/// What is said of a refresh before it begins.
pub open spec fn plan_notes(
    unresolved: Seq<Seq<char>>,
    begun: LibraryRefreshTelemetry,
    max_batches: nat,
) -> Seq<Seq<char>> {
    unresolved.map_values(
        |path: Seq<char>| "   ⚠️  Plex: no matching library section found for "@ + path,
    ) + text::when(
        begun.aborted_due_to_cap,
        "   ⚠️  Plex: aborted refresh, "@ + text::decimal(begun.planned_batches as nat)
            + " planned request(s) exceed the limit of "@ + text::decimal(max_batches),
    ) + text::when(
        begun.capped_batches > 0 && !begun.aborted_due_to_cap,
        "   ⚠️  Plex: capped refresh plan at "@ + text::decimal(max_batches) + " request(s); "@
            + text::decimal(begun.capped_batches as nat)
            + " request(s) skipped to reduce load"@,
    )
}

/// What is said of a refresh before it begins.
pub fn plan_note_lines(
    unresolved: &Vec<String>,
    begun: &LibraryRefreshTelemetry,
    max_batches: usize,
) -> (lines: Vec<String>)
    ensures
        text::views(lines@) == plan_notes(text::views(unresolved@), *begun, max_batches as nat),
{
    let ghost all = text::views(unresolved@);
    let ghost wanted = all.map_values(
        |path: Seq<char>| "   ⚠️  Plex: no matching library section found for "@ + path,
    );
    let mut lines: Vec<String> = Vec::new();
    let mut i: usize = 0;
    assert(text::views(lines@) =~= wanted.take(0));
    while i < unresolved.len()
        invariant
            i <= unresolved@.len(),
            all == text::views(unresolved@),
            wanted == all.map_values(
                |path: Seq<char>| "   ⚠️  Plex: no matching library section found for "@ + path,
            ),
            text::views(lines@) == wanted.take(i as int),
        decreases unresolved@.len() - i,
    {
        text::push_text(
            &mut lines,
            text::concat2(
                "   ⚠️  Plex: no matching library section found for ",
                unresolved[i].as_str(),
            ),
        );
        assert(text::views(lines@) =~= wanted.take(i + 1));
        i += 1;
    }
    assert(wanted.take(i as int) =~= wanted);
    let note = text::concat5(
        "   ⚠️  Plex: capped refresh plan at ",
        text::decimal_text(max_batches as u64).as_str(),
        " request(s); ",
        text::decimal_text(begun.capped_batches as u64).as_str(),
        " request(s) skipped to reduce load",
    );
    let aborted = text::concat4(
        "   ⚠️  Plex: aborted refresh, ",
        text::decimal_text(begun.planned_batches as u64).as_str(),
        " planned request(s) exceed the limit of ",
        text::decimal_text(max_batches as u64).as_str(),
    );
    text::note_when(&mut lines, begun.aborted_due_to_cap, aborted.as_str());
    text::note_when(
        &mut lines,
        begun.capped_batches > 0 && !begun.aborted_due_to_cap,
        note.as_str(),
    );
    lines
}

/// What is said of a batch that failed.
pub fn failed_batch_note(batch: &PlexRefreshBatch, error: &str) -> (out: String)
    ensures
        out@ == "   ⚠️  Plex: refresh failed for "@ + batch.refresh_path@ + " (section '"@
            + batch.section_title@ + "'): "@ + error@,
{
    text::concat6(
        "   ⚠️  Plex: refresh failed for ",
        batch.refresh_path.as_str(),
        " (section '",
        batch.section_title.as_str(),
        "'): ",
        error,
    )
}

/// What is said of a refresh in the end.
pub open spec fn refresh_notes(out: LibraryRefreshTelemetry) -> Seq<Seq<char>> {
    text::when(
        out.refreshed_batches > 0,
        "   📺 Plex: targeted refresh queued for "@ + text::decimal(out.refreshed_batches as nat)
            + " request(s) covering "@ + text::decimal(out.refreshed_paths_covered as nat)
            + " path(s)"@,
    ) + text::when(
        out.coalesced_batches > 0,
        "   📺 Plex: coalesced "@ + text::decimal(out.coalesced_paths as nat) + " path(s) into "@
            + text::decimal(out.coalesced_batches as nat) + " library-root refresh(es)"@,
    ) + text::when(
        out.skipped_batches > 0,
        "   ⚠️  Plex: "@ + text::decimal(out.skipped_batches as nat)
            + " refresh request(s) were not queued"@,
    )
}

/// What is said of a refresh in the end.
pub fn refresh_note_lines(out: &LibraryRefreshTelemetry) -> (lines: Vec<String>)
    ensures
        text::views(lines@) == refresh_notes(*out),
{
    let mut lines: Vec<String> = Vec::new();
    assert(text::views(lines@) =~= Seq::<Seq<char>>::empty());
    let refreshed = text::concat5(
        "   📺 Plex: targeted refresh queued for ",
        text::decimal_text(out.refreshed_batches as u64).as_str(),
        " request(s) covering ",
        text::decimal_text(out.refreshed_paths_covered as u64).as_str(),
        " path(s)",
    );
    text::note_when(&mut lines, out.refreshed_batches > 0, refreshed.as_str());
    let coalesced = text::concat5(
        "   📺 Plex: coalesced ",
        text::decimal_text(out.coalesced_paths as u64).as_str(),
        " path(s) into ",
        text::decimal_text(out.coalesced_batches as u64).as_str(),
        " library-root refresh(es)",
    );
    text::note_when(&mut lines, out.coalesced_batches > 0, coalesced.as_str());
    let skipped = text::concat3(
        "   ⚠️  Plex: ",
        text::decimal_text(out.skipped_batches as u64).as_str(),
        " refresh request(s) were not queued",
    );
    text::note_when(&mut lines, out.skipped_batches > 0, skipped.as_str());
    assert(text::views(lines@) =~= refresh_notes(*out));
    lines
}

// ---------------------------------------------------------------------------
// What is recorded

/// All that a scan found and did.
#[derive(Debug)]
pub struct ScanOutcome {
    pub origin: ScanRunOrigin,
    pub dry_run: bool,
    pub library_filter: Option<String>,
    pub run_token: Option<String>,
    pub search_missing: bool,
    pub library_items: usize,
    pub source_items: usize,
    pub matches: usize,
    pub links: LinkProcessSummary,
    pub dead: DeadLinkSummary,
    pub telemetry: ScanTelemetry,
    pub acquired: AutoAcquireBatchSummary,
    pub missing_requests: usize,
    pub cutoff_requests: usize,
    pub skip_reason_json: Option<String>,
    pub media_server_refresh_json: Option<String>,
    /// The part of the items that came from the cache, as the bits of a double.
    pub cache_hit_ratio: Option<u64>,
}

/// Milliseconds as they are recorded.
pub open spec fn recorded_ms(milliseconds: u128) -> int {
    if milliseconds <= i64::MAX {
        milliseconds as int
    } else {
        i64::MAX as int
    }
}

/// Whether a record tells of a scan.
pub open spec fn record_fits(record: ScanRunRecord, outcome: ScanOutcome) -> bool {
    &&& record.origin == outcome.origin
    &&& record.dry_run == outcome.dry_run
    &&& record.library_filter == outcome.library_filter
    &&& record.run_token == outcome.run_token
    &&& record.search_missing == outcome.search_missing
    &&& record.library_items_found == outcome.library_items as i64
    &&& record.source_items_found == outcome.source_items as i64
    &&& record.matches_found == outcome.matches as i64
    &&& record.links_created == outcome.links.created as i64
    &&& record.links_updated == outcome.links.updated as i64
    &&& record.dead_marked == outcome.dead.dead_marked as i64
    &&& record.links_removed == outcome.dead.removed as i64
    &&& record.links_skipped == (outcome.links.skipped + outcome.dead.skipped) as i64
    &&& record.ambiguous_skipped == outcome.telemetry.match_stats.ambiguous_skipped as i64
    &&& record.skip_reason_json == outcome.skip_reason_json
    &&& record.runtime_checks_ms == recorded_ms(outcome.telemetry.runtime_checks)
    &&& record.library_scan_ms == recorded_ms(outcome.telemetry.library_scan)
    &&& record.source_inventory_ms == recorded_ms(outcome.telemetry.source_inventory)
    &&& record.matching_ms == recorded_ms(outcome.telemetry.match_total)
    &&& record.title_enrichment_ms == recorded_ms(outcome.telemetry.episode_title_enrichment)
    &&& record.linking_ms == recorded_ms(outcome.telemetry.linking)
    &&& record.plex_refresh_ms == recorded_ms(outcome.telemetry.plex_refresh)
    &&& record.plex_refresh_requested_paths == outcome.telemetry.plex_refresh_stats.requested_paths as i64
    &&& record.plex_refresh_unique_paths == outcome.telemetry.plex_refresh_stats.unique_paths as i64
    &&& record.plex_refresh_planned_batches == outcome.telemetry.plex_refresh_stats.planned_batches as i64
    &&& record.plex_refresh_coalesced_batches == outcome.telemetry.plex_refresh_stats.coalesced_batches as i64
    &&& record.plex_refresh_coalesced_paths == outcome.telemetry.plex_refresh_stats.coalesced_paths as i64
    &&& record.plex_refresh_refreshed_batches == outcome.telemetry.plex_refresh_stats.refreshed_batches as i64
    &&& record.plex_refresh_refreshed_paths_covered == outcome.telemetry.plex_refresh_stats.refreshed_paths_covered as i64
    &&& record.plex_refresh_skipped_batches == outcome.telemetry.plex_refresh_stats.skipped_batches as i64
    &&& record.plex_refresh_unresolved_paths == outcome.telemetry.plex_refresh_stats.unresolved_paths as i64
    &&& record.plex_refresh_capped_batches == outcome.telemetry.plex_refresh_stats.capped_batches as i64
    &&& record.plex_refresh_aborted_due_to_cap == outcome.telemetry.plex_refresh_stats.aborted_due_to_cap
    &&& record.plex_refresh_failed_batches == outcome.telemetry.plex_refresh_stats.failed_batches as i64
    &&& record.media_server_refresh_json == outcome.media_server_refresh_json
    &&& record.dead_link_sweep_ms == recorded_ms(outcome.telemetry.dead_link_sweep)
    &&& record.cache_hit_ratio == outcome.cache_hit_ratio
    &&& record.candidate_slots == outcome.telemetry.match_stats.prefiltered_library_candidates as i64
    &&& record.scored_candidates == outcome.telemetry.match_stats.scored_candidates as i64
    &&& record.exact_id_hits == outcome.telemetry.match_stats.exact_id_hits as i64
    &&& record.auto_acquire_requests == outcome.acquired.total as i64
    &&& record.auto_acquire_missing_requests == outcome.missing_requests as i64
    &&& record.auto_acquire_cutoff_requests == outcome.cutoff_requests as i64
    &&& record.auto_acquire_dry_run_hits == outcome.acquired.dry_run as i64
    &&& record.auto_acquire_submitted == outcome.acquired.submitted as i64
    &&& record.auto_acquire_no_result == outcome.acquired.no_result as i64
    &&& record.auto_acquire_blocked == outcome.acquired.blocked as i64
    &&& record.auto_acquire_failed == outcome.acquired.failed as i64
    &&& record.auto_acquire_completed_linked == outcome.acquired.completed_linked as i64
    &&& record.auto_acquire_completed_unlinked == outcome.acquired.completed_unlinked as i64
}

/// What is recorded of a scan.
pub fn scan_run_record(outcome: &ScanOutcome) -> (record: ScanRunRecord)
    requires
        outcome.links.skipped + outcome.dead.skipped <= u64::MAX,
    ensures
        record_fits(record, *outcome),
{
    ScanRunRecord {
        origin: outcome.origin,
        dry_run: outcome.dry_run,
        library_filter: outcome.library_filter.clone(),
        run_token: outcome.run_token.clone(),
        search_missing: outcome.search_missing,
        library_items_found: outcome.library_items as i64,
        source_items_found: outcome.source_items as i64,
        matches_found: outcome.matches as i64,
        links_created: outcome.links.created as i64,
        links_updated: outcome.links.updated as i64,
        dead_marked: outcome.dead.dead_marked as i64,
        links_removed: outcome.dead.removed as i64,
        links_skipped: (outcome.links.skipped + outcome.dead.skipped) as i64,
        ambiguous_skipped: outcome.telemetry.match_stats.ambiguous_skipped as i64,
        skip_reason_json: outcome.skip_reason_json.clone(),
        runtime_checks_ms: telemetry::duration_ms_i64(outcome.telemetry.runtime_checks),
        library_scan_ms: telemetry::duration_ms_i64(outcome.telemetry.library_scan),
        source_inventory_ms: telemetry::duration_ms_i64(outcome.telemetry.source_inventory),
        matching_ms: telemetry::duration_ms_i64(outcome.telemetry.match_total),
        title_enrichment_ms: telemetry::duration_ms_i64(outcome.telemetry.episode_title_enrichment),
        linking_ms: telemetry::duration_ms_i64(outcome.telemetry.linking),
        plex_refresh_ms: telemetry::duration_ms_i64(outcome.telemetry.plex_refresh),
        plex_refresh_requested_paths: outcome.telemetry.plex_refresh_stats.requested_paths as i64,
        plex_refresh_unique_paths: outcome.telemetry.plex_refresh_stats.unique_paths as i64,
        plex_refresh_planned_batches: outcome.telemetry.plex_refresh_stats.planned_batches as i64,
        plex_refresh_coalesced_batches: outcome.telemetry.plex_refresh_stats.coalesced_batches as i64,
        plex_refresh_coalesced_paths: outcome.telemetry.plex_refresh_stats.coalesced_paths as i64,
        plex_refresh_refreshed_batches: outcome.telemetry.plex_refresh_stats.refreshed_batches as i64,
        plex_refresh_refreshed_paths_covered: outcome.telemetry.plex_refresh_stats.refreshed_paths_covered as i64,
        plex_refresh_skipped_batches: outcome.telemetry.plex_refresh_stats.skipped_batches as i64,
        plex_refresh_unresolved_paths: outcome.telemetry.plex_refresh_stats.unresolved_paths as i64,
        plex_refresh_capped_batches: outcome.telemetry.plex_refresh_stats.capped_batches as i64,
        plex_refresh_aborted_due_to_cap: outcome.telemetry.plex_refresh_stats.aborted_due_to_cap,
        plex_refresh_failed_batches: outcome.telemetry.plex_refresh_stats.failed_batches as i64,
        media_server_refresh_json: outcome.media_server_refresh_json.clone(),
        dead_link_sweep_ms: telemetry::duration_ms_i64(outcome.telemetry.dead_link_sweep),
        cache_hit_ratio: outcome.cache_hit_ratio,
        candidate_slots: outcome.telemetry.match_stats.prefiltered_library_candidates as i64,
        scored_candidates: outcome.telemetry.match_stats.scored_candidates as i64,
        exact_id_hits: outcome.telemetry.match_stats.exact_id_hits as i64,
        auto_acquire_requests: outcome.acquired.total as i64,
        auto_acquire_missing_requests: outcome.missing_requests as i64,
        auto_acquire_cutoff_requests: outcome.cutoff_requests as i64,
        auto_acquire_dry_run_hits: outcome.acquired.dry_run as i64,
        auto_acquire_submitted: outcome.acquired.submitted as i64,
        auto_acquire_no_result: outcome.acquired.no_result as i64,
        auto_acquire_blocked: outcome.acquired.blocked as i64,
        auto_acquire_failed: outcome.acquired.failed as i64,
        auto_acquire_completed_linked: outcome.acquired.completed_linked as i64,
        auto_acquire_completed_unlinked: outcome.acquired.completed_unlinked as i64,
    }
}

/// What a scan amounts to: the links that it made or changed, and those that it removed.
pub open spec fn amounts_to(outcome: ScanOutcome) -> (i64, i64) {
    ((outcome.links.created + outcome.links.updated) as i64, outcome.dead.removed as i64)
}

/// What a scan reports: how many links it made or changed, and how many it removed.
pub fn scan_result(outcome: &ScanOutcome) -> (out: (i64, i64))
    requires
        outcome.links.created + outcome.links.updated <= u64::MAX,
    ensures
        out == amounts_to(*outcome),
{
    ((outcome.links.created + outcome.links.updated) as i64, outcome.dead.removed as i64)
}

/// A scan that changes nothing removes no link and has no folder refreshed: with the
/// linker of such a scan, whatever its sweep and its run over the matches came to.
pub proof fn lemma_dry_run_removes_nothing(
    cfg: Config,
    dry_run: bool,
    linker: Linker,
    swept: Seq<SweepOutcome>,
    linked: Seq<MatchOutcome>,
    outcome: ScanOutcome,
)
    requires
        dry_run || cfg.symlink.dry_run,
        linker.dry_run == (dry_run || cfg.symlink.dry_run),
        swept.len() <= u64::MAX,
        linked.len() <= u64::MAX,
        forall|i: int| 0 <= i < swept.len() ==> sweep::is_swept(linker, #[trigger] swept[i]),
        forall|i: int| 0 <= i < linked.len() ==> writing::is_reached(linker, #[trigger] linked[i]),
        sweep::sweep_fits(outcome.dead, swept),
        writing::summary_fits(outcome.links, linked),
    ensures
        amounts_to(outcome).1 == 0,
        outcome.links.refresh_paths@.len() == 0,
{
    sweep::lemma_sweep_adds_up(linker, swept, outcome.dead);
    writing::lemma_run_adds_up(linker, linked, outcome.links);
}

// ---------------------------------------------------------------------------
// What a scan does, and what it counts

/// Who is told of links and what is done about missing media is decided by what was linked
/// and by what was asked: services are told only of links that were made, and only those
/// that are configured; links are swept, and media acquired, exactly where missing media is
/// asked for.
pub proof fn lemma_scan_does_what_is_asked(
    cfg: Config,
    effective_dry_run: bool,
    search_missing: bool,
    linked_total: nat,
)
    ensures
        ({
            let tell = linked_total > 0 && !effective_dry_run;
            let bazarr = tell && cfg.bazarr.url@.len() > 0 && cfg.bazarr.api_key@.len() > 0;
            let plex = tell && cfg.plex.url@.len() > 0 && cfg.plex.token@.len() > 0;
            let at = |n: nat| steps(cfg, effective_dry_run, search_missing, linked_total, n);
            let linked: nat = 5;
            let told: nat = linked + (if bazarr {
                1nat
            } else {
                0nat
            }) + (if plex {
                1nat
            } else {
                0nat
            });
            &&& at(0) is CheckDirectories
            &&& at(1) is ScanLibraries
            &&& at(2) is ListSources
            &&& at(3) is Match
            &&& at(4) is EnrichTitles
            &&& at(linked) is Link
            &&& bazarr ==> at(linked + 1) is TriggerBazarr
            &&& plex ==> at(told) is RefreshPlex
            &&& at(told + 1) is RecordScan
            &&& search_missing ==> at(told + 2) is CheckSources && at(told + 3) is SweepDeadLinks
                && at(told + 4) is ShowTelemetry && at(told + 5) is Acquire && at(told + 6)
                is RecordRun && at(told + 7) is Finished
            &&& !search_missing ==> at(told + 2) is ShowTelemetry && at(told + 3) is RecordRun
                && at(told + 4) is Finished
        }),
{
    reveal_with_fuel(steps, 16);
}

/// What is configured can be asked: each needs its URL, and its key where it has one.
pub proof fn lemma_services_are_configured(cfg: Config)
    ensures
        has_indexer(cfg) <==> cfg.dmm.url@.len() > 0 || cfg.prowlarr.url@.len() > 0
            && cfg.prowlarr.api_key@.len() > 0,
        has_downloader(cfg) <==> cfg.decypharr.url@.len() > 0,
        has_bazarr(cfg) <==> cfg.bazarr.url@.len() > 0 && cfg.bazarr.api_key@.len() > 0,
        has_plex(cfg) <==> cfg.plex.url@.len() > 0 && cfg.plex.token@.len() > 0,
{
}

/// The cache stands in where four of five torrents are cached, and not below that; never
/// where there are none.
pub proof fn lemma_four_of_five_are_enough(cached: int, total: int, more: int)
    ensures
        total > 0 && cached * 5 >= total * 4 ==> cache_covers(cached, total),
        total > 0 && cached * 5 < total * 4 ==> !cache_covers(cached, total),
        total <= 0 ==> !cache_covers(cached, total),
        cache_covers(cached, total) && more >= cached ==> cache_covers(more, total),
{
}

/// One source more is counted where its items came from, with all of them.
pub proof fn lemma_one_source_more(scans: Seq<SourceScan>, scan: SourceScan)
    ensures
        scan matches SourceScan::Cached(n) ==> cached_sources(scans.push(scan)) == cached_sources(
            scans,
        ) + 1 && cached_items(scans.push(scan)) == cached_items(scans) + n && filesystem_items(
            scans.push(scan),
        ) == filesystem_items(scans),
        scan matches SourceScan::Filesystem(n) ==> cached_sources(scans.push(scan))
            == cached_sources(scans) && cached_items(scans.push(scan)) == cached_items(scans)
            && filesystem_items(scans.push(scan)) == filesystem_items(scans) + n,
        cached_sources(Seq::<SourceScan>::empty()) == 0,
{
    assert(scans.push(scan).drop_last() =~= scans);
}

/// A file is kept exactly where it lies in the folder, or no folder is given.
pub proof fn lemma_items_of_the_folder_are_kept(
    items: Seq<SourceItem>,
    root: Seq<char>,
    folder: Option<Seq<char>>,
    item: SourceItem,
)
    ensures
        items_in_folder(items, root, folder).contains(item) <==> items.contains(item) && (
        folder matches Some(name) ==> paths::below(item.path@, paths::joined(root, name))),
    decreases items.len(),
{
    reveal(Seq::filter);
    if items.len() > 0 {
        let rest = items.drop_last();
        lemma_items_of_the_folder_are_kept(rest, root, folder, item);
        let kept = items_in_folder(rest, root, folder);
        let last = items.last();
        assert(items.contains(item) <==> rest.contains(item) || item == last) by {
            if rest.contains(item) {
                let i = choose|i: int| 0 <= i < rest.len() && rest[i] == item;
                assert(items[i] == item);
            }
            if item == last {
                assert(items[items.len() - 1] == item);
            }
            if items.contains(item) && item != last {
                let i = choose|i: int| 0 <= i < items.len() && items[i] == item;
                assert(rest[i] == item);
            }
        }
        assert(kept.push(last).contains(item) <==> kept.contains(item) || item == last) by {
            if kept.contains(item) {
                let i = choose|i: int| 0 <= i < kept.len() && kept[i] == item;
                assert(kept.push(last)[i] == item);
            }
            if item == last {
                assert(kept.push(last)[kept.len() as int] == item);
            }
            if kept.push(last).contains(item) && item != last {
                let i = choose|i: int| 0 <= i < kept.push(last).len() && kept.push(last)[i] == item;
                assert(kept[i] == item);
            }
        }
    }
}

/// An item counts as missing exactly where no match is of its id.
pub proof fn lemma_unmatched_items_are_missing(
    items: Seq<LibraryItem>,
    matches: Seq<MatchResult>,
    item: LibraryItem,
)
    ensures
        unmatched(items, matches).contains(item) <==> items.contains(item) && forall|k: int|
            0 <= k < matches.len() ==> (#[trigger] matches[k]).library_item.id != item.id,
    decreases items.len(),
{
    if items.len() > 0 {
        let rest = items.drop_last();
        lemma_unmatched_items_are_missing(rest, matches, item);
        let before = unmatched(rest, matches);
        let now = unmatched(items, matches);
        let last = items.last();
        assert(items.contains(item) <==> rest.contains(item) || item == last) by {
            if rest.contains(item) {
                let i = choose|i: int| 0 <= i < rest.len() && rest[i] == item;
                assert(items[i] == item);
            }
            if item == last {
                assert(items[items.len() - 1] == item);
            }
            if items.contains(item) && item != last {
                let i = choose|i: int| 0 <= i < items.len() && items[i] == item;
                assert(rest[i] == item);
            }
        }
        if !is_matched(matches, last.id) {
            assert(now.contains(item) <==> before.contains(item) || item == last) by {
                if before.contains(item) {
                    let i = choose|i: int| 0 <= i < before.len() && before[i] == item;
                    assert(now[i] == item);
                }
                if item == last {
                    assert(now[now.len() - 1] == item);
                }
                if now.contains(item) && item != last {
                    let i = choose|i: int| 0 <= i < now.len() && now[i] == item;
                    assert(before[i] == item);
                }
            }
        }
    }
}

/// A movie is searched for by its trimmed title, where that has more than one word; a
/// series never is.
pub proof fn lemma_movies_are_searched_for(item: LibraryItem)
    ensures
        search_query(item) is Some <==> item.media_type == MediaType::Movie
            && commands::is_safe_query(text::trim(item.title@)),
        search_query(item) matches Some(query) ==> query == text::trim(item.title@),
{
}

/// Every movie that can be searched for is asked for, unless the limit was reached or its
/// query is asked for already, and nothing else is asked for.
pub proof fn lemma_movies_are_asked_for(items: Seq<LibraryItem>, n: int, limit: nat, i: int)
    requires
        0 <= i < n <= items.len(),
    ensures
        search_query(items[i]) is Some && asked(items, n, limit).len() < limit ==> asked_already(
            items,
            asked(items, n, limit),
            search_query(items[i])->0,
        ),
        asked(items, n, limit).contains(i) ==> search_query(items[i]) is Some,
    decreases n,
{
    let before = asked(items, n - 1, limit);
    let now = asked(items, n, limit);
    lemma_asked_places(items, n - 1, limit);
    if i < n - 1 {
        lemma_movies_are_asked_for(items, n - 1, limit, i);
        if search_query(items[i]) is Some && now.len() < limit {
            let query = search_query(items[i])->0;
            let k = choose|k: int|
                0 <= k < before.len() && search_query(items[#[trigger] before[k]]) == Some(query);
            assert(now[k] == before[k]);
        }
        if now.contains(i) {
            let k = choose|k: int| 0 <= k < now.len() && now[k] == i;
            if k < before.len() {
                assert(before[k] == i);
                assert(before.contains(i));
            }
        }
    } else {
        if search_query(items[i]) is Some && now.len() < limit {
            let query = search_query(items[i])->0;
            if asked_already(items, before, query) {
                assert(now == before);
            } else {
                assert(now[before.len() as int] == i);
            }
        }
        if now.contains(i) {
            let k = choose|k: int| 0 <= k < now.len() && now[k] == i;
            if k < before.len() {
                assert(before[k] == i);
            }
        }
    }
}

/// A request is for its item: it is labelled by the title, queued under the name for its
/// kind of media, limited to its library, and linked again by its id.
pub proof fn lemma_requests_are_for_their_items(
    request: AutoAcquireRequest,
    item: LibraryItem,
    cfg: Config,
)
    requires
        request_fits(request, item, cfg),
    ensures
        request.label@ == item.title@,
        request.query@ == text::trim(item.title@),
        request.library_filter matches Some(name) && name@ == item.library_name@,
        request.relink_kind is MediaId,
        request.relink_value@ == item.id.spelled(),
        item.media_type == MediaType::Movie,
        request.categories@ == seq![2000i32],
        request.arr@ == cfg.decypharr.arr_name_movie@,
{
}

/// Of what is left below the limit, missing episodes may take the larger half where there
/// are four or more, so that something is left; else all. What could be better may take
/// all that is left.
pub proof fn lemma_budget_is_shared(max_grabs: nat, queued: nat)
    ensures
        ({
            let left = max_grabs - queued;
            let missing = missing_allowed(max_grabs, queued);
            &&& left <= 0 ==> missing == 0 && cutoff_allowed(max_grabs, queued) == 0
            &&& 0 < left < 4 ==> missing == left
            &&& left >= 4 ==> missing < left && 2 * missing >= left && 2 * missing <= left + 1
            &&& left > 0 ==> cutoff_allowed(max_grabs, queued) == left
        }),
{
}

/// Without a limit no batch is dropped, and a plan is given up only where batches would be
/// dropped and the configuration says so.
pub proof fn lemma_no_limit_drops_nothing(batches: nat, max_batches: nat, abort_when_capped: bool)
    ensures
        over_limit(batches, 0) == 0,
        batches <= max_batches ==> over_limit(batches, max_batches) == 0,
        0 < max_batches < batches ==> over_limit(batches, max_batches) == batches - max_batches,
        is_aborted(batches, max_batches, abort_when_capped) <==> abort_when_capped && 0
            < max_batches < batches,
{
}

/// What is counted before the first refresh tells of the plan: what was asked for, what is
/// planned, what was put together, what has no section and what is over the limit.
pub proof fn lemma_plan_is_counted(
    begun: LibraryRefreshTelemetry,
    requested: nat,
    plan: PlexRefreshPlan,
    max_batches: nat,
    abort_when_capped: bool,
)
    requires
        counts_plan(begun, requested, plan, max_batches, abort_when_capped),
    ensures
        begun.requested_paths == requested,
        begun.unique_paths == plan.unique_paths,
        begun.planned_batches == plan.batches@.len(),
        begun.coalesced_batches == plan.coalesced_batches,
        begun.coalesced_paths == plan.coalesced_paths,
        begun.unresolved_paths == plan.unresolved_paths@.len(),
        begun.refreshed_batches == 0 && begun.failed_batches == 0 && begun.refreshed_paths_covered
            == 0,
        begun.aborted_due_to_cap <==> abort_when_capped && 0 < max_batches < plan.batches@.len(),
        begun.aborted_due_to_cap ==> begun.skipped_batches == plan.unresolved_paths@.len()
            + plan.batches@.len(),
        !begun.aborted_due_to_cap ==> begun.skipped_batches == plan.unresolved_paths@.len()
            + begun.capped_batches,
{
}

/// One batch more is counted with the paths that it covers where it went well, and not
/// otherwise.
pub proof fn lemma_one_batch_more(
    batches: Seq<PlexRefreshBatch>,
    done: Seq<bool>,
    went_well: bool,
)
    ensures
        refreshed(done.push(went_well)) == refreshed(done) + (if went_well {
            1nat
        } else {
            0nat
        }),
        covered(batches, done.push(went_well)) == covered(batches, done) + (if went_well {
            batches[done.len() as int].covered_paths as nat
        } else {
            0nat
        }),
        refreshed(Seq::<bool>::empty()) == 0 && covered(batches, Seq::<bool>::empty()) == 0,
{
    assert(done.push(went_well).drop_last() =~= done);
}

/// Times are recorded as they are, up to the largest number that can be.
pub proof fn lemma_times_are_recorded(a: u128, b: u128)
    ensures
        a <= i64::MAX ==> recorded_ms(a) == a,
        a > i64::MAX ==> recorded_ms(a) == i64::MAX,
        a <= b ==> recorded_ms(a) <= recorded_ms(b),
{
}

/// What is recorded of a scan is what it did: what was created, updated, marked, removed
/// and skipped, by linking and by the sweep, and what was found, asked for and acquired.
pub proof fn lemma_record_tells_the_scan(record: ScanRunRecord, outcome: ScanOutcome)
    requires
        record_fits(record, outcome),
        outcome.links.skipped + outcome.dead.skipped <= i64::MAX,
        outcome.links.created <= i64::MAX,
        outcome.links.updated <= i64::MAX,
        outcome.dead.dead_marked <= i64::MAX,
        outcome.dead.removed <= i64::MAX,
        outcome.library_items <= i64::MAX,
        outcome.source_items <= i64::MAX,
        outcome.matches <= i64::MAX,
    ensures
        record.origin == outcome.origin,
        record.dry_run == outcome.dry_run,
        record.search_missing == outcome.search_missing,
        record.links_created == outcome.links.created,
        record.links_updated == outcome.links.updated,
        record.dead_marked == outcome.dead.dead_marked,
        record.links_removed == outcome.dead.removed,
        record.links_skipped == outcome.links.skipped + outcome.dead.skipped,
        record.library_items_found == outcome.library_items,
        record.source_items_found == outcome.source_items,
        record.matches_found == outcome.matches,
        (
            record.runtime_checks_ms as int,
            record.library_scan_ms as int,
            record.source_inventory_ms as int,
            record.matching_ms as int,
        ) == (
            recorded_ms(outcome.telemetry.runtime_checks),
            recorded_ms(outcome.telemetry.library_scan),
            recorded_ms(outcome.telemetry.source_inventory),
            recorded_ms(outcome.telemetry.match_total),
        ),
        (
            record.title_enrichment_ms as int,
            record.linking_ms as int,
            record.plex_refresh_ms as int,
            record.dead_link_sweep_ms as int,
        ) == (
            recorded_ms(outcome.telemetry.episode_title_enrichment),
            recorded_ms(outcome.telemetry.linking),
            recorded_ms(outcome.telemetry.plex_refresh),
            recorded_ms(outcome.telemetry.dead_link_sweep),
        ),
        record.plex_refresh_aborted_due_to_cap
            == outcome.telemetry.plex_refresh_stats.aborted_due_to_cap,
        record.skip_reason_json == outcome.skip_reason_json,
        record.media_server_refresh_json == outcome.media_server_refresh_json,
        record.cache_hit_ratio == outcome.cache_hit_ratio,
        record.library_filter == outcome.library_filter,
        record.run_token == outcome.run_token,
        outcome.telemetry.plex_refresh_stats.requested_paths <= i64::MAX ==> record.plex_refresh_requested_paths
            == outcome.telemetry.plex_refresh_stats.requested_paths,
        outcome.telemetry.plex_refresh_stats.unique_paths <= i64::MAX ==> record.plex_refresh_unique_paths
            == outcome.telemetry.plex_refresh_stats.unique_paths,
        outcome.telemetry.plex_refresh_stats.planned_batches <= i64::MAX ==> record.plex_refresh_planned_batches
            == outcome.telemetry.plex_refresh_stats.planned_batches,
        outcome.telemetry.plex_refresh_stats.coalesced_batches <= i64::MAX ==> record.plex_refresh_coalesced_batches
            == outcome.telemetry.plex_refresh_stats.coalesced_batches,
        outcome.telemetry.plex_refresh_stats.coalesced_paths <= i64::MAX ==> record.plex_refresh_coalesced_paths
            == outcome.telemetry.plex_refresh_stats.coalesced_paths,
        outcome.telemetry.plex_refresh_stats.refreshed_batches <= i64::MAX ==> record.plex_refresh_refreshed_batches
            == outcome.telemetry.plex_refresh_stats.refreshed_batches,
        outcome.telemetry.plex_refresh_stats.refreshed_paths_covered <= i64::MAX ==> record.plex_refresh_refreshed_paths_covered
            == outcome.telemetry.plex_refresh_stats.refreshed_paths_covered,
        outcome.telemetry.plex_refresh_stats.skipped_batches <= i64::MAX ==> record.plex_refresh_skipped_batches
            == outcome.telemetry.plex_refresh_stats.skipped_batches,
        outcome.telemetry.plex_refresh_stats.unresolved_paths <= i64::MAX ==> record.plex_refresh_unresolved_paths
            == outcome.telemetry.plex_refresh_stats.unresolved_paths,
        outcome.telemetry.plex_refresh_stats.capped_batches <= i64::MAX ==> record.plex_refresh_capped_batches
            == outcome.telemetry.plex_refresh_stats.capped_batches,
        outcome.telemetry.plex_refresh_stats.failed_batches <= i64::MAX ==> record.plex_refresh_failed_batches
            == outcome.telemetry.plex_refresh_stats.failed_batches,
        outcome.telemetry.match_stats.ambiguous_skipped <= i64::MAX ==> record.ambiguous_skipped
            == outcome.telemetry.match_stats.ambiguous_skipped,
        outcome.telemetry.match_stats.prefiltered_library_candidates <= i64::MAX ==> record.candidate_slots
            == outcome.telemetry.match_stats.prefiltered_library_candidates,
        outcome.telemetry.match_stats.scored_candidates <= i64::MAX ==> record.scored_candidates
            == outcome.telemetry.match_stats.scored_candidates,
        outcome.telemetry.match_stats.exact_id_hits <= i64::MAX ==> record.exact_id_hits
            == outcome.telemetry.match_stats.exact_id_hits,
        outcome.acquired.total <= i64::MAX ==> record.auto_acquire_requests
            == outcome.acquired.total,
        outcome.acquired.dry_run <= i64::MAX ==> record.auto_acquire_dry_run_hits
            == outcome.acquired.dry_run,
        outcome.acquired.submitted <= i64::MAX ==> record.auto_acquire_submitted
            == outcome.acquired.submitted,
        outcome.acquired.no_result <= i64::MAX ==> record.auto_acquire_no_result
            == outcome.acquired.no_result,
        outcome.acquired.blocked <= i64::MAX ==> record.auto_acquire_blocked
            == outcome.acquired.blocked,
        outcome.acquired.failed <= i64::MAX ==> record.auto_acquire_failed
            == outcome.acquired.failed,
        outcome.acquired.completed_linked <= i64::MAX ==> record.auto_acquire_completed_linked
            == outcome.acquired.completed_linked,
        outcome.acquired.completed_unlinked <= i64::MAX ==> record.auto_acquire_completed_unlinked
            == outcome.acquired.completed_unlinked,
        outcome.missing_requests <= i64::MAX ==> record.auto_acquire_missing_requests
            == outcome.missing_requests,
        outcome.cutoff_requests <= i64::MAX ==> record.auto_acquire_cutoff_requests
            == outcome.cutoff_requests,
{
}

/// A scan amounts to the links that it made or changed and to those that it removed.
pub proof fn lemma_scan_amounts_to(outcome: ScanOutcome)
    requires
        outcome.links.created + outcome.links.updated <= i64::MAX,
        outcome.dead.removed <= i64::MAX,
    ensures
        amounts_to(outcome) == (
            (outcome.links.created + outcome.links.updated) as i64,
            outcome.dead.removed as i64,
        ),
{
}

/// The requests of a queue are for the items at their places, in order.
pub proof fn lemma_queue_is_for_its_items(
    requests: Seq<AutoAcquireRequest>,
    items: Seq<LibraryItem>,
    places: Seq<int>,
    cfg: Config,
    k: int,
)
    requires
        requests_fit(requests, items, places, cfg),
        0 <= k < places.len(),
    ensures
        requests.len() == places.len(),
        requests[k].label@ == items[places[k]].title@,
        requests[k].relink_value@ == items[places[k]].id.spelled(),
        requests[k].query@ == text::trim(items[places[k]].title@),
{
    assert(request_fits(requests[k], items[places[k]], cfg));
}

/// A movie whose title says too little is told of, and so is a limit, where it stops the
/// queue.
pub proof fn lemma_skipped_movies_are_told(items: Seq<LibraryItem>, n: int, limit: nat)
    requires
        0 < n <= items.len(),
        asked(items, n - 1, limit).len() < limit,
    ensures
        items[n - 1].media_type == MediaType::Movie && search_query(items[n - 1]) is None
            ==> asking_notes(items, n, limit) == asking_notes(items, n - 1, limit).push(
            "      ⚠️  '"@ + items[n - 1].title@ + "' → skipped auto-grab (query too ambiguous)"@,
        ),
        search_query(items[n - 1]) is Some ==> asking_notes(items, n, limit) == asking_notes(
            items,
            n - 1,
            limit,
        ),
        items[n - 1].media_type == MediaType::Tv ==> asking_notes(items, n, limit) == asking_notes(
            items,
            n - 1,
            limit,
        ),
        limit_note(limit) == "\n   ⚠️  Auto-acquire: reached safety limit of "@ + text::decimal(
            limit,
        ) + " requests. Stopping queue build."@,
{
}

/// The limit is told of once, where it stops the queue before the last item.
pub proof fn lemma_limit_is_told_once(items: Seq<LibraryItem>, n: int, m: int, limit: nat)
    requires
        0 < n < m <= items.len(),
        asked(items, n, limit).len() >= limit,
        asked(items, n - 1, limit).len() < limit,
    ensures
        asking_notes(items, m, limit) == asking_notes(items, n, limit).push(limit_note(limit)),
{
    lemma_asked_stops(items, n, m, limit);
}

/// What is said of the requests names each number before it.
pub proof fn lemma_acquired_numbers_are_named(summary: AutoAcquireBatchSummary)
    ensures
        ({
            let parts = acquired_parts(summary);
            &&& parts.len() == 12
            &&& parts[1] == text::decimal(summary.submitted as nat)
            &&& parts[2] == ", linked="@ && parts[3] == text::decimal(
                summary.completed_linked as nat,
            )
            &&& parts[4] == ", completed_unlinked="@ && parts[5] == text::decimal(
                summary.completed_unlinked as nat,
            )
            &&& parts[6] == ", no_result="@ && parts[7] == text::decimal(summary.no_result as nat)
            &&& parts[8] == ", blocked="@ && parts[9] == text::decimal(summary.blocked as nat)
            &&& parts[10] == ", failed="@ && parts[11] == text::decimal(summary.failed as nat)
        }),
{
}

/// A refresh of which there was none counts nothing.
pub proof fn lemma_no_refresh_counts_nothing()
    ensures
        no_refresh().is_blank(),
        no_refresh().requested_paths == 0 && no_refresh().refreshed_batches == 0
            && no_refresh().skipped_batches == 0 && no_refresh().failed_batches == 0,
{
}

/// Before a refresh each path without a section is told of, and a plan that was given up or
/// cut; after it what was queued, what was put together and what was not queued, each only
/// where there is something to tell.
pub proof fn lemma_refresh_is_told(
    unresolved: Seq<Seq<char>>,
    begun: LibraryRefreshTelemetry,
    max_batches: nat,
    i: int,
)
    ensures
        ({
            let notes = plan_notes(unresolved, begun, max_batches);
            &&& notes.len() == unresolved.len() + (if begun.aborted_due_to_cap
                || begun.capped_batches > 0 {
                1int
            } else {
                0
            })
            &&& 0 <= i < unresolved.len() ==> notes[i]
                == "   ⚠️  Plex: no matching library section found for "@ + unresolved[i]
            &&& begun.aborted_due_to_cap ==> text::begins(
                notes.last(),
                "   ⚠️  Plex: aborted refresh, "@ + text::decimal(begun.planned_batches as nat),
            )
            &&& !begun.aborted_due_to_cap && begun.capped_batches > 0 ==> text::begins(
                notes.last(),
                "   ⚠️  Plex: capped refresh plan at "@ + text::decimal(max_batches),
            )
        }),
        refresh_notes(begun).len() == (if begun.refreshed_batches > 0 {
            1int
        } else {
            0
        }) + (if begun.coalesced_batches > 0 {
            1int
        } else {
            0
        }) + (if begun.skipped_batches > 0 {
            1int
        } else {
            0
        }),
        begun.refreshed_batches > 0 ==> text::begins(
            refresh_notes(begun)[0],
            "   📺 Plex: targeted refresh queued for "@ + text::decimal(
                begun.refreshed_batches as nat,
            ),
        ),
        begun.skipped_batches > 0 ==> text::begins(
            refresh_notes(begun).last(),
            "   ⚠️  Plex: "@ + text::decimal(begun.skipped_batches as nat),
        ),
{
    let notes = plan_notes(unresolved, begun, max_batches);
    if begun.aborted_due_to_cap {
        let head = "   ⚠️  Plex: aborted refresh, "@ + text::decimal(begun.planned_batches as nat);
        assert(notes.last().subrange(0, head.len() as int) =~= head);
    } else if begun.capped_batches > 0 {
        let head = "   ⚠️  Plex: capped refresh plan at "@ + text::decimal(max_batches);
        assert(notes.last().subrange(0, head.len() as int) =~= head);
    }
    let told = refresh_notes(begun);
    if begun.refreshed_batches > 0 {
        let head = "   📺 Plex: targeted refresh queued for "@ + text::decimal(
            begun.refreshed_batches as nat,
        );
        assert(told[0].subrange(0, head.len() as int) =~= head);
    }
    if begun.skipped_batches > 0 {
        let head = "   ⚠️  Plex: "@ + text::decimal(begun.skipped_batches as nat);
        assert(told.last().subrange(0, head.len() as int) =~= head);
    }
}

/// What was put together is told with the numbers of paths and of requests, behind what was
/// queued and before what was not.
pub proof fn lemma_coalesced_refresh_is_told(out: LibraryRefreshTelemetry)
    ensures
        out.refreshed_batches > 0 ==> refresh_notes(out)[0]
            == "   📺 Plex: targeted refresh queued for "@ + text::decimal(
            out.refreshed_batches as nat,
        ) + " request(s) covering "@ + text::decimal(out.refreshed_paths_covered as nat)
            + " path(s)"@,
        out.coalesced_batches > 0 ==> refresh_notes(out)[if out.refreshed_batches > 0 {
            1
        } else {
            0
        }] == "   📺 Plex: coalesced "@ + text::decimal(out.coalesced_paths as nat)
            + " path(s) into "@ + text::decimal(out.coalesced_batches as nat)
            + " library-root refresh(es)"@,
        out.skipped_batches > 0 ==> refresh_notes(out).last() == "   ⚠️  Plex: "@
            + text::decimal(out.skipped_batches as nat) + " refresh request(s) were not queued"@,
{
}

} // verus!
