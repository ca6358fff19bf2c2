//! What a scan counted and how it says so.

use vstd::prelude::*;
use crate::json;
use crate::linker::{DeadLinkSummary, LinkProcessSummary};
use crate::order;
use crate::tables::TextMap;
use crate::text;

verus! {

/// What came from the cache and what from the file system.
#[derive(Debug, Clone, Copy, PartialEq, Eq, Structural)]
pub struct SourceInventoryTelemetry {
    pub cache_enabled: bool,
    pub cache_downloaded_torrents: Option<usize>,
    pub cache_total_torrents: Option<usize>,
    pub cached_sources: usize,
    pub filesystem_sources: usize,
    pub cached_items: usize,
    pub filesystem_items: usize,
}

impl SourceInventoryTelemetry {
    /// Whether nothing is counted yet.
    pub open spec fn is_blank(&self) -> bool {
        &&& !self.cache_enabled
        &&& self.cache_downloaded_torrents is None
        &&& self.cache_total_torrents is None
        &&& self.cached_sources == 0
        &&& self.filesystem_sources == 0
        &&& self.cached_items == 0
        &&& self.filesystem_items == 0
    }
}

impl Default for SourceInventoryTelemetry {
    fn default() -> (out: Self)
        ensures
            out.is_blank(),
    {
        SourceInventoryTelemetry {
            cache_enabled: false,
            cache_downloaded_torrents: None,
            cache_total_torrents: None,
            cached_sources: 0,
            filesystem_sources: 0,
            cached_items: 0,
            filesystem_items: 0,
        }
    }
}

impl SourceInventoryTelemetry {
    /// The part of the items that came from the cache, as that number and the number of
    /// all items; `None` where there are no items.
    pub fn cache_hit_ratio(&self) -> (out: Option<(u128, u128)>)
        ensures
            match out {
                Some((hits, all)) => hits == self.cached_items && all == self.cached_items
                    + self.filesystem_items && all > 0,
                None => self.cached_items == 0 && self.filesystem_items == 0,
            },
    {
        let all: u128 = self.cached_items as u128 + self.filesystem_items as u128;
        if all > 0 {
            Some((self.cached_items as u128, all))
        } else {
            None
        }
    }
}

/// What matching counted; times in milliseconds.
#[derive(Debug, Clone)]
pub struct MatchTelemetry {
    pub metadata_alias_prep: u128,
    pub candidate_scan: u128,
    pub destination_reduce: u128,
    pub metadata_errors: usize,
    pub worker_count: usize,
    pub prefiltered_library_candidates: usize,
    pub scored_candidates: usize,
    pub exact_id_hits: usize,
    pub ambiguous_skipped: usize,
    pub skip_reasons: TextMap<u64>,
}

impl MatchTelemetry {
    /// Whether nothing is counted yet.
    pub open spec fn is_blank(&self) -> bool {
        &&& self.metadata_alias_prep == 0
        &&& self.candidate_scan == 0
        &&& self.destination_reduce == 0
        &&& self.metadata_errors == 0
        &&& self.worker_count == 0
        &&& self.prefiltered_library_candidates == 0
        &&& self.scored_candidates == 0
        &&& self.exact_id_hits == 0
        &&& self.ambiguous_skipped == 0
        &&& self.skip_reasons.wf()
        &&& self.skip_reasons@ == Map::<Seq<char>, u64>::empty()
    }
}

impl Default for MatchTelemetry {
    fn default() -> (out: Self)
        ensures
            out.is_blank(),
    {
        MatchTelemetry {
            metadata_alias_prep: 0,
            candidate_scan: 0,
            destination_reduce: 0,
            metadata_errors: 0,
            worker_count: 0,
            prefiltered_library_candidates: 0,
            scored_candidates: 0,
            exact_id_hits: 0,
            ambiguous_skipped: 0,
            skip_reasons: TextMap::new(),
        }
    }
}

/// What refreshing the media server's library counted.
#[derive(Debug, Clone, Copy, PartialEq, Eq, Structural)]
pub struct LibraryRefreshTelemetry {
    pub requested_paths: usize,
    pub unique_paths: usize,
    pub planned_batches: usize,
    pub coalesced_batches: usize,
    pub coalesced_paths: usize,
    pub refreshed_batches: usize,
    pub refreshed_paths_covered: usize,
    pub skipped_batches: usize,
    pub unresolved_paths: usize,
    pub capped_batches: usize,
    pub aborted_due_to_cap: bool,
    pub deferred_due_to_lock: bool,
    pub failed_batches: usize,
}

impl LibraryRefreshTelemetry {
    /// Whether nothing is counted yet.
    pub open spec fn is_blank(&self) -> bool {
        &&& self.requested_paths == 0
        &&& self.unique_paths == 0
        &&& self.planned_batches == 0
        &&& self.coalesced_batches == 0
        &&& self.coalesced_paths == 0
        &&& self.refreshed_batches == 0
        &&& self.refreshed_paths_covered == 0
        &&& self.skipped_batches == 0
        &&& self.unresolved_paths == 0
        &&& self.capped_batches == 0
        &&& !self.aborted_due_to_cap
        &&& !self.deferred_due_to_lock
        &&& self.failed_batches == 0
    }
}

impl Default for LibraryRefreshTelemetry {
    fn default() -> (out: Self)
        ensures
            out.is_blank(),
    {
        LibraryRefreshTelemetry {
            requested_paths: 0,
            unique_paths: 0,
            planned_batches: 0,
            coalesced_batches: 0,
            coalesced_paths: 0,
            refreshed_batches: 0,
            refreshed_paths_covered: 0,
            skipped_batches: 0,
            unresolved_paths: 0,
            capped_batches: 0,
            aborted_due_to_cap: false,
            deferred_due_to_lock: false,
            failed_batches: 0,
        }
    }
}

/// What a scan counted; times in milliseconds.
#[derive(Debug, Clone)]
pub struct ScanTelemetry {
    pub runtime_checks: u128,
    pub library_scan: u128,
    pub source_inventory: u128,
    pub source_inventory_stats: SourceInventoryTelemetry,
    pub match_total: u128,
    pub match_stats: MatchTelemetry,
    pub episode_title_enrichment: u128,
    pub linking: u128,
    pub plex_refresh: u128,
    pub plex_refresh_stats: LibraryRefreshTelemetry,
    pub dead_link_sweep: u128,
}

impl Default for ScanTelemetry {
    fn default() -> (out: Self)
        ensures
            out.runtime_checks == 0,
            out.library_scan == 0,
            out.source_inventory == 0,
            out.source_inventory_stats.is_blank(),
            out.match_total == 0,
            out.match_stats.is_blank(),
            out.episode_title_enrichment == 0,
            out.linking == 0,
            out.plex_refresh == 0,
            out.plex_refresh_stats.is_blank(),
            out.dead_link_sweep == 0,
    {
        ScanTelemetry {
            runtime_checks: 0,
            library_scan: 0,
            source_inventory: 0,
            source_inventory_stats: SourceInventoryTelemetry::default(),
            match_total: 0,
            match_stats: MatchTelemetry::default(),
            episode_title_enrichment: 0,
            linking: 0,
            plex_refresh: 0,
            plex_refresh_stats: LibraryRefreshTelemetry::default(),
            dead_link_sweep: 0,
        }
    }
}

/// What acquiring missing media counted.
#[derive(Debug)]
pub struct AutoAcquireBatchSummary {
    pub total: usize,
    pub dry_run: usize,
    pub submitted: usize,
    pub no_result: usize,
    pub blocked: usize,
    pub failed: usize,
    pub completed_linked: usize,
    pub completed_unlinked: usize,
    pub reason_counts: TextMap<u64>,
}

impl Default for AutoAcquireBatchSummary {
    fn default() -> (out: Self)
        ensures
            out.total == 0,
            out.dry_run == 0,
            out.submitted == 0,
            out.no_result == 0,
            out.blocked == 0,
            out.failed == 0,
            out.completed_linked == 0,
            out.completed_unlinked == 0,
            out.reason_counts.wf(),
            out.reason_counts@ == Map::<Seq<char>, u64>::empty(),
    {
        AutoAcquireBatchSummary {
            total: 0,
            dry_run: 0,
            submitted: 0,
            no_result: 0,
            blocked: 0,
            failed: 0,
            completed_linked: 0,
            completed_unlinked: 0,
            reason_counts: TextMap::new(),
        }
    }
}

// ---------------------------------------------------------------------------
// Why things were skipped

/// The count of a reason.
pub open spec fn count_of(counts: Map<Seq<char>, u64>, reason: Seq<char>) -> nat {
    if counts.contains_key(reason) {
        counts[reason] as nat
    } else {
        0
    }
}

/// The sum for a reason.
pub open spec fn sum_of(sums: Map<Seq<char>, i64>, reason: Seq<char>) -> int {
    if sums.contains_key(reason) {
        sums[reason] as int
    } else {
        0
    }
}

/// Whether the sums stay in range where counts are added to them.
pub open spec fn has_room(sums: Map<Seq<char>, i64>, counts: Map<Seq<char>, u64>) -> bool {
    forall|reason: Seq<char>|
        #![trigger count_of(counts, reason)]
        sum_of(sums, reason) >= 0 && sum_of(sums, reason) + count_of(counts, reason) <= i64::MAX
}

/// Whether sums with counts added to them are other sums.
pub open spec fn adds(
    before: Map<Seq<char>, i64>,
    counts: Map<Seq<char>, u64>,
    after: Map<Seq<char>, i64>,
) -> bool {
    forall|reason: Seq<char>|
        #![trigger after.contains_key(reason)]
        after.contains_key(reason) == (before.contains_key(reason) || counts.contains_key(reason))
            && sum_of(after, reason) == sum_of(before, reason) + count_of(counts, reason)
}

/// The entries of a table before `n`, as a table.
spec fn counted_before(counts: TextMap<u64>, n: int) -> Map<Seq<char>, u64>
    decreases n,
{
    if n <= 0 {
        Map::empty()
    } else {
        counted_before(counts, n - 1).insert(
            counts.listed()[n - 1].0@,
            counts.listed()[n - 1].1,
        )
    }
}

proof fn lemma_counted_before(counts: TextMap<u64>, n: int)
    requires
        counts.wf(),
        0 <= n <= counts.listed().len(),
    ensures
        forall|reason: Seq<char>| #[trigger]
            counted_before(counts, n).contains_key(reason) ==> exists|i: int|
                0 <= i < n && (#[trigger] counts.listed()[i]).0@ == reason,
        forall|i: int|
            #![trigger counts.listed()[i]]
            0 <= i < n ==> counted_before(counts, n).contains_key(counts.listed()[i].0@)
                && counted_before(counts, n)[counts.listed()[i].0@] == counts.listed()[i].1,
    decreases n,
{
    if n > 0 {
        lemma_counted_before(counts, n - 1);
        let last = counts.listed()[n - 1];
        assert forall|i: int|
            #![trigger counts.listed()[i]]
            0 <= i < n implies counted_before(counts, n).contains_key(counts.listed()[i].0@)
            && counted_before(counts, n)[counts.listed()[i].0@] == counts.listed()[i].1 by {
            if i < n - 1 {
                assert(order::text_before(counts.listed()[i].0@, counts.listed()[n - 1].0@));
                order::lemma_text_before_irreflexive(last.0@);
            }
        }
        assert forall|reason: Seq<char>| #[trigger]
            counted_before(counts, n).contains_key(reason) implies exists|i: int|
            0 <= i < n && (#[trigger] counts.listed()[i]).0@ == reason by {
            if reason == last.0@ {
                assert(counts.listed()[n - 1].0@ == reason);
            } else {
                assert(counted_before(counts, n - 1).contains_key(reason));
            }
        }
    }
}

proof fn lemma_all_counted(counts: TextMap<u64>)
    requires
        counts.wf(),
    ensures
        counted_before(counts, counts.listed().len() as int) == counts@,
{
    let n = counts.listed().len() as int;
    let all = counted_before(counts, n);
    lemma_counted_before(counts, n);
    assert forall|reason: Seq<char>| #[trigger] all.contains_key(reason) == counts@.contains_key(
        reason,
    ) && (all.contains_key(reason) ==> all[reason] == counts@[reason]) by {
        if all.contains_key(reason) {
            let i = choose|i: int| 0 <= i < n && (#[trigger] counts.listed()[i]).0@ == reason;
            counts.lemma_entry(i);
        }
        if counts@.contains_key(reason) {
            let i = choose|i: int|
                0 <= i < counts.listed().len() && (#[trigger] counts.listed()[i]).0@ == reason;
            assert(all.contains_key(counts.listed()[i].0@));
        }
    }
    assert(all =~= counts@);
}

fn add_counts(sums: &mut TextMap<i64>, counts: &TextMap<u64>)
    requires
        old(sums).wf(),
        counts.wf(),
        has_room(old(sums)@, counts@),
    ensures
        final(sums).wf(),
        adds(old(sums)@, counts@, final(sums)@),
{
    let ghost before = sums@;
    let n = counts.len();
    let mut i: usize = 0;
    assert(adds(before, counted_before(*counts, 0), sums@));
    while i < n
        invariant
            i <= n == counts.listed().len(),
            sums.wf(),
            counts.wf(),
            has_room(before, counts@),
            adds(before, counted_before(*counts, i as int), sums@),
        decreases n - i,
    {
        let entry = counts.entry(i);
        let reason = entry.0.as_str();
        let count: u64 = entry.1;
        let ghost so_far = sums@;
        proof {
            counts.lemma_entry(i as int);
            lemma_counted_before(*counts, i as int);
            if counted_before(*counts, i as int).contains_key(reason@) {
                let k = choose|k: int|
                    0 <= k < i && (#[trigger] counts.listed()[k]).0@ == reason@;
                assert(order::text_before(counts.listed()[k].0@, counts.listed()[i as int].0@));
                order::lemma_text_before_irreflexive(reason@);
            }
            assert(so_far.contains_key(reason@) == before.contains_key(reason@));
            assert(sum_of(so_far, reason@) == sum_of(before, reason@));
            assert(count_of(counts@, reason@) == count);
        }
        let sum: i64 = match sums.get(reason) {
            Some(s) => *s,
            None => 0,
        };
        sums.insert(reason, sum + count as i64);
        proof {
            let seen = counted_before(*counts, i as int);
            let now = counted_before(*counts, i + 1);
            assert(now == seen.insert(reason@, count));
            assert forall|r: Seq<char>|
                #![trigger sums@.contains_key(r)]
                sums@.contains_key(r) == (before.contains_key(r) || now.contains_key(r)) && sum_of(
                    sums@,
                    r,
                ) == sum_of(before, r) + count_of(now, r) by {
                if r != reason@ {
                    assert(so_far.contains_key(r) == (before.contains_key(r) || seen.contains_key(
                        r,
                    )));
                }
            }
        }
        i += 1;
    }
    proof {
        lemma_all_counted(*counts);
    }
}

/// The counts of the reasons for which something was skipped, by who skipped it.
pub struct SkipCounts {
    pub matching: Map<Seq<char>, u64>,
    pub linking: Map<Seq<char>, u64>,
    pub sweep: Map<Seq<char>, u64>,
    pub acquiring: Map<Seq<char>, u64>,
}

impl SkipCounts {
    /// How often something was skipped for a reason.
    pub open spec fn total(&self, reason: Seq<char>) -> nat {
        count_of(self.matching, reason) + count_of(self.linking, reason) + count_of(
            self.sweep,
            reason,
        ) + count_of(self.acquiring, reason)
    }

    /// Whether a reason was given.
    pub open spec fn given(&self, reason: Seq<char>) -> bool {
        self.matching.contains_key(reason) || self.linking.contains_key(reason)
            || self.sweep.contains_key(reason) || self.acquiring.contains_key(reason)
    }
}

impl SkipCounts {
    /// The tables of counts in the order in which they are added up.
    spec fn table(&self, n: int) -> Map<Seq<char>, u64> {
        if n == 0 {
            self.matching
        } else if n == 1 {
            self.linking
        } else if n == 2 {
            self.sweep
        } else {
            self.acquiring
        }
    }

    /// The count of a reason in the first `n` tables.
    spec fn part(&self, n: int, reason: Seq<char>) -> nat
        decreases n,
    {
        if n <= 0 {
            0
        } else {
            self.part(n - 1, reason) + count_of(self.table(n - 1), reason)
        }
    }

    /// Whether one of the first `n` tables has a reason.
    spec fn given_in(&self, n: int, reason: Seq<char>) -> bool
        decreases n,
    {
        n > 0 && (self.given_in(n - 1, reason) || self.table(n - 1).contains_key(reason))
    }

    /// Whether sums are those of the first `n` tables.
    spec fn summed(&self, n: int, sums: Map<Seq<char>, i64>) -> bool {
        forall|reason: Seq<char>|
            #![trigger sums.contains_key(reason)]
            sums.contains_key(reason) == self.given_in(n, reason) && sum_of(sums, reason)
                == self.part(n, reason)
    }
}

proof fn lemma_table_added(
    counts: SkipCounts,
    n: int,
    before: Map<Seq<char>, i64>,
    after: Map<Seq<char>, i64>,
)
    requires
        0 <= n,
        counts.summed(n, before),
        adds(before, counts.table(n), after),
    ensures
        counts.summed(n + 1, after),
{
    assert forall|reason: Seq<char>|
        #![trigger after.contains_key(reason)]
        after.contains_key(reason) == counts.given_in(n + 1, reason) && sum_of(after, reason)
            == counts.part(n + 1, reason) by {
        assert(before.contains_key(reason) == counts.given_in(n, reason));
    }
}

proof fn lemma_table_fits(counts: SkipCounts, n: int, sums: Map<Seq<char>, i64>)
    requires
        0 <= n < 4,
        counts.summed(n, sums),
        forall|reason: Seq<char>| #[trigger] counts.total(reason) <= i64::MAX,
    ensures
        has_room(sums, counts.table(n)),
{
    reveal_with_fuel(SkipCounts::part, 4);
    assert forall|reason: Seq<char>|
        #![trigger count_of(counts.table(n), reason)]
        sum_of(sums, reason) >= 0 && sum_of(sums, reason) + count_of(counts.table(n), reason)
            <= i64::MAX by {
        assert(sums.contains_key(reason) == counts.given_in(n, reason));
        assert(counts.total(reason) <= i64::MAX);
    }
}

/// Adds up, for each reason, how often something was skipped for it.
pub fn aggregate_skip_reasons(
    telemetry: &ScanTelemetry,
    link_summary: &LinkProcessSummary,
    dead_summary: &DeadLinkSummary,
    auto_acquire_summary: &AutoAcquireBatchSummary,
) -> (reasons: TextMap<i64>)
    requires
        telemetry.match_stats.skip_reasons.wf(),
        link_summary.skip_reasons.wf(),
        dead_summary.skip_reasons.wf(),
        auto_acquire_summary.reason_counts.wf(),
        forall|reason: Seq<char>| (#[trigger] skip_counts(
            *telemetry,
            *link_summary,
            *dead_summary,
            *auto_acquire_summary,
        ).total(reason)) <= i64::MAX,
    ensures
        reasons.wf(),
        is_total(
            reasons,
            skip_counts(*telemetry, *link_summary, *dead_summary, *auto_acquire_summary),
        ),
{
    let ghost counts = skip_counts(*telemetry, *link_summary, *dead_summary, *auto_acquire_summary);
    let mut reasons: TextMap<i64> = TextMap::new();
    proof {
        assert(counts.summed(0, reasons@));
        lemma_table_fits(counts, 0, reasons@);
    }
    let ghost start = reasons@;
    add_counts(&mut reasons, &telemetry.match_stats.skip_reasons);
    let ghost first = reasons@;
    proof {
        lemma_table_added(counts, 0, start, first);
        lemma_table_fits(counts, 1, first);
    }
    add_counts(&mut reasons, &link_summary.skip_reasons);
    let ghost second = reasons@;
    proof {
        lemma_table_added(counts, 1, first, second);
        lemma_table_fits(counts, 2, second);
    }
    add_counts(&mut reasons, &dead_summary.skip_reasons);
    let ghost third = reasons@;
    proof {
        lemma_table_added(counts, 2, second, third);
        lemma_table_fits(counts, 3, third);
    }
    add_counts(&mut reasons, &auto_acquire_summary.reason_counts);
    proof {
        lemma_table_added(counts, 3, third, reasons@);
        reveal_with_fuel(SkipCounts::part, 5);
        reveal_with_fuel(SkipCounts::given_in, 5);
        assert forall|reason: Seq<char>|
            #![trigger reasons@.contains_key(reason)]
            reasons@.contains_key(reason) == counts.given(reason) && sum_of(reasons@, reason)
                == counts.total(reason) by {
            assert(reasons@.contains_key(reason) == counts.given_in(4, reason));
        }
    }
    reasons
}

/// The counts of the reasons for which something was skipped.
pub open spec fn skip_counts(
    telemetry: ScanTelemetry,
    link_summary: LinkProcessSummary,
    dead_summary: DeadLinkSummary,
    auto_acquire_summary: AutoAcquireBatchSummary,
) -> SkipCounts {
    SkipCounts {
        matching: telemetry.match_stats.skip_reasons@,
        linking: link_summary.skip_reasons@,
        sweep: dead_summary.skip_reasons@,
        acquiring: auto_acquire_summary.reason_counts@,
    }
}

/// The reasons of a table, in JSON; `None` where there are none.
pub fn skip_reason_json(reasons: &TextMap<i64>) -> (out: Option<String>)
    requires
        reasons.wf(),
    ensures
        match out {
            Some(t) => reasons.listed().len() > 0 && t@ == json::json_of_counts(
                json::entry_views(reasons.listed()),
            ),
            None => reasons.listed().len() == 0,
        },
{
    if reasons.is_empty() {
        return None;
    }
    let mut entries: Vec<(String, i64)> = Vec::new();
    let mut i: usize = 0;
    while i < reasons.len()
        invariant
            i <= reasons.listed().len(),
            entries@ == reasons.listed().take(i as int),
        decreases reasons.listed().len() - i,
    {
        let entry = reasons.entry(i);
        entries.push((entry.0.clone(), entry.1));
        assert(entries@ =~= reasons.listed().take(i + 1));
        i += 1;
    }
    assert(entries@ =~= reasons.listed());
    assert forall|a: int, b: int|
        #![trigger entries@[a], entries@[b]]
        0 <= a < b < entries@.len() implies order::text_before(entries@[a].0@, entries@[b].0@) by {
        assert(order::text_before(reasons.listed()[a].0@, reasons.listed()[b].0@));
    }
    Some(json::write_counts(&entries))
}

/// Whether a table adds up the counts.
pub open spec fn is_total(reasons: TextMap<i64>, counts: SkipCounts) -> bool {
    reasons.wf() && forall|reason: Seq<char>|
        #![trigger reasons@.contains_key(reason)]
        reasons@.contains_key(reason) == counts.given(reason) && sum_of(reasons@, reason)
            == counts.total(reason)
}

/// Why things were skipped, in JSON; `None` where nothing was.
pub fn build_skip_reason_json(
    telemetry: &ScanTelemetry,
    link_summary: &LinkProcessSummary,
    dead_summary: &DeadLinkSummary,
    auto_acquire_summary: &AutoAcquireBatchSummary,
) -> (out: Option<String>)
    requires
        telemetry.match_stats.skip_reasons.wf(),
        link_summary.skip_reasons.wf(),
        dead_summary.skip_reasons.wf(),
        auto_acquire_summary.reason_counts.wf(),
        forall|reason: Seq<char>| (#[trigger] skip_counts(
            *telemetry,
            *link_summary,
            *dead_summary,
            *auto_acquire_summary,
        ).total(reason)) <= i64::MAX,
    ensures
        exists|reasons: TextMap<i64>|
            #![trigger reasons.listed()]
            is_total(
                reasons,
                skip_counts(*telemetry, *link_summary, *dead_summary, *auto_acquire_summary),
            ) && match out {
                Some(t) => reasons.listed().len() > 0 && t@ == json::json_of_counts(
                    json::entry_views(reasons.listed()),
                ),
                None => reasons.listed().len() == 0,
            },
{
    let reasons = aggregate_skip_reasons(
        telemetry,
        link_summary,
        dead_summary,
        auto_acquire_summary,
    );
    let out = skip_reason_json(&reasons);
    assert(is_total(
        reasons,
        skip_counts(*telemetry, *link_summary, *dead_summary, *auto_acquire_summary),
    ));
    assert(reasons.listed().len() >= 0);
    out
}

// ---------------------------------------------------------------------------
// What is shown

/// A word for a flag that is set.
pub open spec fn flag_text(flag: bool, word: Seq<char>) -> Seq<char> {
    if flag {
        word
    } else {
        ""@
    }
}

/// The parts of the line that sums a scan up.
pub open spec fn details_line(
    telemetry: ScanTelemetry,
    matches: usize,
    link_summary: LinkProcessSummary,
    cache_hit: Seq<char>,
) -> Seq<Seq<char>> {
    seq![
        "   📊 Scan details: matches="@,
        text::decimal(matches as nat),
        " created="@,
        text::decimal(link_summary.created as nat),
        " updated="@,
        text::decimal(link_summary.updated as nat),
        " skipped="@,
        text::decimal(link_summary.skipped as nat),
        " ambiguous="@,
        text::decimal(telemetry.match_stats.ambiguous_skipped as nat),
        " candidates="@,
        text::decimal(telemetry.match_stats.prefiltered_library_candidates as nat),
        " scored="@,
        text::decimal(telemetry.match_stats.scored_candidates as nat),
        " exact-id="@,
        text::decimal(telemetry.match_stats.exact_id_hits as nat),
        " cache-hit="@,
        cache_hit,
        " refresh="@,
        text::decimal(telemetry.plex_refresh_stats.refreshed_batches as nat),
        "/"@,
        text::decimal(telemetry.plex_refresh_stats.planned_batches as nat),
        " skipped="@,
        text::decimal(telemetry.plex_refresh_stats.skipped_batches as nat),
        " capped="@,
        text::decimal(telemetry.plex_refresh_stats.capped_batches as nat),
        flag_text(telemetry.plex_refresh_stats.aborted_due_to_cap, " aborted"@),
        flag_text(telemetry.plex_refresh_stats.deferred_due_to_lock, " deferred"@),
    ]
}

/// The line that sums a scan up; `cache_hit` is the part of the items that came from the
/// cache, as it is shown.
pub fn format_scan_details_line(
    telemetry: &ScanTelemetry,
    matches: usize,
    link_summary: &LinkProcessSummary,
    cache_hit: &str,
) -> (out: String)
    ensures
        out@ == text::glued(details_line(*telemetry, matches, *link_summary, cache_hit@)),
{
    let found = text::decimal_text(matches as u64);
    let created = text::decimal_text(link_summary.created as u64);
    let updated = text::decimal_text(link_summary.updated as u64);
    let skipped = text::decimal_text(link_summary.skipped as u64);
    let ambiguous = text::decimal_text(telemetry.match_stats.ambiguous_skipped as u64);
    let candidates = text::decimal_text(telemetry.match_stats.prefiltered_library_candidates as u64);
    let scored = text::decimal_text(telemetry.match_stats.scored_candidates as u64);
    let exact = text::decimal_text(telemetry.match_stats.exact_id_hits as u64);
    let refreshed = text::decimal_text(telemetry.plex_refresh_stats.refreshed_batches as u64);
    let planned = text::decimal_text(telemetry.plex_refresh_stats.planned_batches as u64);
    let left_out = text::decimal_text(telemetry.plex_refresh_stats.skipped_batches as u64);
    let capped = text::decimal_text(telemetry.plex_refresh_stats.capped_batches as u64);
    let aborted = if telemetry.plex_refresh_stats.aborted_due_to_cap {
        " aborted"
    } else {
        ""
    };
    let deferred = if telemetry.plex_refresh_stats.deferred_due_to_lock {
        " deferred"
    } else {
        ""
    };
    let parts: [&str; 28] = [
        "   📊 Scan details: matches=",
        found.as_str(),
        " created=",
        created.as_str(),
        " updated=",
        updated.as_str(),
        " skipped=",
        skipped.as_str(),
        " ambiguous=",
        ambiguous.as_str(),
        " candidates=",
        candidates.as_str(),
        " scored=",
        scored.as_str(),
        " exact-id=",
        exact.as_str(),
        " cache-hit=",
        cache_hit,
        " refresh=",
        refreshed.as_str(),
        "/",
        planned.as_str(),
        " skipped=",
        left_out.as_str(),
        " capped=",
        capped.as_str(),
        aborted,
        deferred,
    ];
    assert(text::strs(parts@) =~= details_line(*telemetry, matches, *link_summary, cache_hit@));
    text::glue(&parts)
}

/// How long the phases of a scan took, as it is shown.
#[derive(Debug, PartialEq, Eq)]
pub struct PhaseTexts {
    pub runtime_checks: String,
    pub library_scan: String,
    pub source_inventory: String,
    pub matching: String,
    pub title_enrichment: String,
    pub linking: String,
    pub refresh: String,
    pub dead_link_sweep: String,
}

/// The parts of the line on the phases of a scan.
pub open spec fn phase_line(phases: PhaseTexts) -> Seq<Seq<char>> {
    seq![
        "   📊 Scan telemetry: checks="@,
        phases.runtime_checks@,
        " | library="@,
        phases.library_scan@,
        " | source="@,
        phases.source_inventory@,
        " | match="@,
        phases.matching@,
        " | titles="@,
        phases.title_enrichment@,
        " | link="@,
        phases.linking@,
        " | refresh="@,
        phases.refresh@,
        " | dead="@,
        phases.dead_link_sweep@,
    ]
}

/// The line on the phases of a scan.
pub fn format_phase_line(phases: &PhaseTexts) -> (out: String)
    ensures
        out@ == text::glued(phase_line(*phases)),
{
    let parts: [&str; 16] = [
        "   📊 Scan telemetry: checks=",
        phases.runtime_checks.as_str(),
        " | library=",
        phases.library_scan.as_str(),
        " | source=",
        phases.source_inventory.as_str(),
        " | match=",
        phases.matching.as_str(),
        " | titles=",
        phases.title_enrichment.as_str(),
        " | link=",
        phases.linking.as_str(),
        " | refresh=",
        phases.refresh.as_str(),
        " | dead=",
        phases.dead_link_sweep.as_str(),
    ];
    assert(text::strs(parts@) =~= phase_line(*phases));
    text::glue(&parts)
}

/// The parts of the entry of the log on the phases of a scan.
pub open spec fn phase_entry(phases: PhaseTexts) -> Seq<Seq<char>> {
    seq![
        "Scan phase telemetry: runtime_checks="@,
        phases.runtime_checks@,
        ", library_scan="@,
        phases.library_scan@,
        ", source_inventory="@,
        phases.source_inventory@,
        ", matching="@,
        phases.matching@,
        ", title_enrichment="@,
        phases.title_enrichment@,
        ", linking="@,
        phases.linking@,
        ", media_refresh="@,
        phases.refresh@,
        ", dead_link_sweep="@,
        phases.dead_link_sweep@,
    ]
}

/// The entry of the log on the phases of a scan.
pub fn format_phase_entry(phases: &PhaseTexts) -> (out: String)
    ensures
        out@ == text::glued(phase_entry(*phases)),
{
    let parts: [&str; 16] = [
        "Scan phase telemetry: runtime_checks=",
        phases.runtime_checks.as_str(),
        ", library_scan=",
        phases.library_scan.as_str(),
        ", source_inventory=",
        phases.source_inventory.as_str(),
        ", matching=",
        phases.matching.as_str(),
        ", title_enrichment=",
        phases.title_enrichment.as_str(),
        ", linking=",
        phases.linking.as_str(),
        ", media_refresh=",
        phases.refresh.as_str(),
        ", dead_link_sweep=",
        phases.dead_link_sweep.as_str(),
    ];
    assert(text::strs(parts@) =~= phase_entry(*phases));
    text::glue(&parts)
}

/// How long the parts of matching took, as it is shown.
#[derive(Debug, PartialEq, Eq)]
pub struct MatchTexts {
    pub metadata_alias_prep: String,
    pub candidate_scan: String,
    pub destination_reduce: String,
}

/// A truth value in words.
pub open spec fn truth(b: bool) -> Seq<char> {
    if b {
        "true"@
    } else {
        "false"@
    }
}

fn truth_text(b: bool) -> (out: &'static str)
    ensures
        out@ == truth(b),
{
    if b {
        "true"
    } else {
        "false"
    }
}

/// The parts of the entry of the log on the details of a scan.
pub open spec fn details_entry(
    telemetry: ScanTelemetry,
    times: MatchTexts,
    cache_hit: Seq<char>,
) -> Seq<Seq<char>> {
    seq![
        "Scan telemetry details: cache_hit_ratio="@,
        cache_hit,
        ", cached_items="@,
        text::decimal(telemetry.source_inventory_stats.cached_items as nat),
        ", filesystem_items="@,
        text::decimal(telemetry.source_inventory_stats.filesystem_items as nat),
        ", metadata_alias_prep="@,
        times.metadata_alias_prep@,
        ", candidate_scan="@,
        times.candidate_scan@,
        ", destination_reduce="@,
        times.destination_reduce@,
        ", metadata_errors="@,
        text::decimal(telemetry.match_stats.metadata_errors as nat),
        ", worker_count="@,
        text::decimal(telemetry.match_stats.worker_count as nat),
        ", candidate_slots="@,
        text::decimal(telemetry.match_stats.prefiltered_library_candidates as nat),
        ", scored_candidates="@,
        text::decimal(telemetry.match_stats.scored_candidates as nat),
        ", exact_id_hits="@,
        text::decimal(telemetry.match_stats.exact_id_hits as nat),
        ", ambiguous_skipped="@,
        text::decimal(telemetry.match_stats.ambiguous_skipped as nat),
        ", refresh_requested_paths="@,
        text::decimal(telemetry.plex_refresh_stats.requested_paths as nat),
        ", refresh_unique_paths="@,
        text::decimal(telemetry.plex_refresh_stats.unique_paths as nat),
        ", refresh_batches="@,
        text::decimal(telemetry.plex_refresh_stats.planned_batches as nat),
        ", coalesced_batches="@,
        text::decimal(telemetry.plex_refresh_stats.coalesced_batches as nat),
        ", refreshed_batches="@,
        text::decimal(telemetry.plex_refresh_stats.refreshed_batches as nat),
        ", refreshed_paths_covered="@,
        text::decimal(telemetry.plex_refresh_stats.refreshed_paths_covered as nat),
        ", skipped_refresh_batches="@,
        text::decimal(telemetry.plex_refresh_stats.skipped_batches as nat),
        ", capped_refresh_batches="@,
        text::decimal(telemetry.plex_refresh_stats.capped_batches as nat),
        ", refresh_aborted_due_to_cap="@,
        truth(telemetry.plex_refresh_stats.aborted_due_to_cap),
        ", refresh_deferred_due_to_lock="@,
        truth(telemetry.plex_refresh_stats.deferred_due_to_lock),
        ", failed_refresh_batches="@,
        text::decimal(telemetry.plex_refresh_stats.failed_batches as nat),
        ", unresolved_refresh_paths="@,
        text::decimal(telemetry.plex_refresh_stats.unresolved_paths as nat),
    ]
}

/// The entry of the log on the details of a scan; `cache_hit` is the part of the items that
/// came from the cache, as it is shown.
pub fn format_details_entry(telemetry: &ScanTelemetry, times: &MatchTexts, cache_hit: &str) -> (out:
    String)
    ensures
        out@ == text::glued(details_entry(*telemetry, *times, cache_hit@)),
{
    let cached_items = text::decimal_text(telemetry.source_inventory_stats.cached_items as u64);
    let filesystem_items = text::decimal_text(telemetry.source_inventory_stats.filesystem_items as u64);
    let metadata_errors = text::decimal_text(telemetry.match_stats.metadata_errors as u64);
    let worker_count = text::decimal_text(telemetry.match_stats.worker_count as u64);
    let candidate_slots = text::decimal_text(telemetry.match_stats.prefiltered_library_candidates as u64);
    let scored_candidates = text::decimal_text(telemetry.match_stats.scored_candidates as u64);
    let exact_id_hits = text::decimal_text(telemetry.match_stats.exact_id_hits as u64);
    let ambiguous_skipped = text::decimal_text(telemetry.match_stats.ambiguous_skipped as u64);
    let refresh_requested_paths = text::decimal_text(telemetry.plex_refresh_stats.requested_paths as u64);
    let refresh_unique_paths = text::decimal_text(telemetry.plex_refresh_stats.unique_paths as u64);
    let refresh_batches = text::decimal_text(telemetry.plex_refresh_stats.planned_batches as u64);
    let coalesced_batches = text::decimal_text(telemetry.plex_refresh_stats.coalesced_batches as u64);
    let refreshed_batches = text::decimal_text(telemetry.plex_refresh_stats.refreshed_batches as u64);
    let refreshed_paths_covered = text::decimal_text(telemetry.plex_refresh_stats.refreshed_paths_covered as u64);
    let skipped_refresh_batches = text::decimal_text(telemetry.plex_refresh_stats.skipped_batches as u64);
    let capped_refresh_batches = text::decimal_text(telemetry.plex_refresh_stats.capped_batches as u64);
    let refresh_aborted_due_to_cap = truth_text(telemetry.plex_refresh_stats.aborted_due_to_cap);
    let refresh_deferred_due_to_lock = truth_text(telemetry.plex_refresh_stats.deferred_due_to_lock);
    let failed_refresh_batches = text::decimal_text(telemetry.plex_refresh_stats.failed_batches as u64);
    let unresolved_refresh_paths = text::decimal_text(telemetry.plex_refresh_stats.unresolved_paths as u64);
    let parts: [&str; 48] = [
        "Scan telemetry details: cache_hit_ratio=",
        cache_hit,
        ", cached_items=",
        cached_items.as_str(),
        ", filesystem_items=",
        filesystem_items.as_str(),
        ", metadata_alias_prep=",
        times.metadata_alias_prep.as_str(),
        ", candidate_scan=",
        times.candidate_scan.as_str(),
        ", destination_reduce=",
        times.destination_reduce.as_str(),
        ", metadata_errors=",
        metadata_errors.as_str(),
        ", worker_count=",
        worker_count.as_str(),
        ", candidate_slots=",
        candidate_slots.as_str(),
        ", scored_candidates=",
        scored_candidates.as_str(),
        ", exact_id_hits=",
        exact_id_hits.as_str(),
        ", ambiguous_skipped=",
        ambiguous_skipped.as_str(),
        ", refresh_requested_paths=",
        refresh_requested_paths.as_str(),
        ", refresh_unique_paths=",
        refresh_unique_paths.as_str(),
        ", refresh_batches=",
        refresh_batches.as_str(),
        ", coalesced_batches=",
        coalesced_batches.as_str(),
        ", refreshed_batches=",
        refreshed_batches.as_str(),
        ", refreshed_paths_covered=",
        refreshed_paths_covered.as_str(),
        ", skipped_refresh_batches=",
        skipped_refresh_batches.as_str(),
        ", capped_refresh_batches=",
        capped_refresh_batches.as_str(),
        ", refresh_aborted_due_to_cap=",
        refresh_aborted_due_to_cap,
        ", refresh_deferred_due_to_lock=",
        refresh_deferred_due_to_lock,
        ", failed_refresh_batches=",
        failed_refresh_batches.as_str(),
        ", unresolved_refresh_paths=",
        unresolved_refresh_paths.as_str(),
    ];
    assert(text::strs(parts@) =~= details_entry(*telemetry, *times, cache_hit@));
    text::glue(&parts)
}

/// What is told of what a scan counted.
#[derive(Debug, PartialEq, Eq)]
pub struct TelemetryLines {
    /// For the log: the phases, and the details.
    pub logged: Vec<String>,
    /// For the user: the phases, and the details.
    pub shown: Vec<String>,
}

/// What is told of what a scan counted: of its phases and of the details, an entry of the
/// log and a line for the user each.
pub fn log_scan_telemetry(
    phases: &PhaseTexts,
    times: &MatchTexts,
    telemetry: &ScanTelemetry,
    matches: usize,
    link_summary: &LinkProcessSummary,
    cache_hit: &str,
) -> (out: TelemetryLines)
    ensures
        text::views(out.logged@) == seq![
            text::glued(phase_entry(*phases)),
            text::glued(details_entry(*telemetry, *times, cache_hit@)),
        ],
        text::views(out.shown@) == seq![
            text::glued(phase_line(*phases)),
            text::glued(details_line(*telemetry, matches, *link_summary, cache_hit@)),
        ],
{
    let mut logged: Vec<String> = Vec::new();
    logged.push(format_phase_entry(phases));
    logged.push(format_details_entry(telemetry, times, cache_hit));
    let mut shown: Vec<String> = Vec::new();
    shown.push(format_phase_line(phases));
    shown.push(format_scan_details_line(telemetry, matches, link_summary, cache_hit));
    assert(text::views(logged@) =~= seq![
        text::glued(phase_entry(*phases)),
        text::glued(details_entry(*telemetry, *times, cache_hit@)),
    ]);
    assert(text::views(shown@) =~= seq![
        text::glued(phase_line(*phases)),
        text::glued(details_line(*telemetry, matches, *link_summary, cache_hit@)),
    ]);
    TelemetryLines { logged, shown }
}

/// Milliseconds as they are recorded: at most the largest number that fits.
pub fn duration_ms_i64(milliseconds: u128) -> (out: i64)
    ensures
        out == (if milliseconds <= i64::MAX {
            milliseconds as int
        } else {
            i64::MAX as int
        }),
{
    if milliseconds <= i64::MAX as u128 {
        milliseconds as i64
    } else {
        i64::MAX
    }
}

// ---------------------------------------------------------------------------
// Numbers stand behind their names

/// The line and the entry on the phases name each phase before the time that it took.
pub proof fn lemma_phases_are_named(phases: PhaseTexts)
    ensures
        ({
            let parts = phase_line(phases);
            &&& parts[0] == "   📊 Scan telemetry: checks="@ && parts[1] == phases.runtime_checks@
            &&& parts[2] == " | library="@ && parts[3] == phases.library_scan@
            &&& parts[4] == " | source="@ && parts[5] == phases.source_inventory@
            &&& parts[6] == " | match="@ && parts[7] == phases.matching@
            &&& parts[8] == " | titles="@ && parts[9] == phases.title_enrichment@
            &&& parts[10] == " | link="@ && parts[11] == phases.linking@
            &&& parts[12] == " | refresh="@ && parts[13] == phases.refresh@
            &&& parts[14] == " | dead="@ && parts[15] == phases.dead_link_sweep@
            &&& parts.len() == 16
        }),
        ({
            let parts = phase_entry(phases);
            &&& parts[0] == "Scan phase telemetry: runtime_checks="@ && parts[1] == phases.runtime_checks@
            &&& parts[2] == ", library_scan="@ && parts[3] == phases.library_scan@
            &&& parts[4] == ", source_inventory="@ && parts[5] == phases.source_inventory@
            &&& parts[6] == ", matching="@ && parts[7] == phases.matching@
            &&& parts[8] == ", title_enrichment="@ && parts[9] == phases.title_enrichment@
            &&& parts[10] == ", linking="@ && parts[11] == phases.linking@
            &&& parts[12] == ", media_refresh="@ && parts[13] == phases.refresh@
            &&& parts[14] == ", dead_link_sweep="@ && parts[15] == phases.dead_link_sweep@
            &&& parts.len() == 16
        }),
{
}

/// The line on the details names each number before it, and tells of a refresh that was
/// given up or put off.
pub proof fn lemma_details_are_named(
    telemetry: ScanTelemetry,
    matches: usize,
    link_summary: LinkProcessSummary,
    cache_hit: Seq<char>,
)
    ensures
        ({
            let parts = details_line(telemetry, matches, link_summary, cache_hit);
            &&& parts[0] == "   📊 Scan details: matches="@ && parts[1] == text::decimal(matches as nat)
            &&& parts[2] == " created="@ && parts[3] == text::decimal(link_summary.created as nat)
            &&& parts[4] == " updated="@ && parts[5] == text::decimal(link_summary.updated as nat)
            &&& parts[6] == " skipped="@ && parts[7] == text::decimal(link_summary.skipped as nat)
            &&& parts[8] == " ambiguous="@ && parts[9] == text::decimal(telemetry.match_stats.ambiguous_skipped as nat)
            &&& parts[10] == " candidates="@ && parts[11] == text::decimal(telemetry.match_stats.prefiltered_library_candidates as nat)
            &&& parts[12] == " scored="@ && parts[13] == text::decimal(telemetry.match_stats.scored_candidates as nat)
            &&& parts[14] == " exact-id="@ && parts[15] == text::decimal(telemetry.match_stats.exact_id_hits as nat)
            &&& parts[16] == " cache-hit="@ && parts[17] == cache_hit
            &&& parts[18] == " refresh="@ && parts[19] == text::decimal(telemetry.plex_refresh_stats.refreshed_batches as nat)
            &&& parts[20] == "/"@ && parts[21] == text::decimal(telemetry.plex_refresh_stats.planned_batches as nat)
            &&& parts[22] == " skipped="@ && parts[23] == text::decimal(telemetry.plex_refresh_stats.skipped_batches as nat)
            &&& parts[24] == " capped="@ && parts[25] == text::decimal(telemetry.plex_refresh_stats.capped_batches as nat)
            &&& parts[26] == (if telemetry.plex_refresh_stats.aborted_due_to_cap {
                " aborted"@
            } else {
                ""@
            })
            &&& parts[27] == (if telemetry.plex_refresh_stats.deferred_due_to_lock {
                " deferred"@
            } else {
                ""@
            })
            &&& parts.len() == 28
        }),
{
}

/// The entry on the details names each number before it.
pub proof fn lemma_logged_details_are_named(
    telemetry: ScanTelemetry,
    times: MatchTexts,
    cache_hit: Seq<char>,
)
    ensures
        ({
            let parts = details_entry(telemetry, times, cache_hit);
            &&& parts[0] == "Scan telemetry details: cache_hit_ratio="@ && parts[1] == cache_hit
            &&& parts[2] == ", cached_items="@ && parts[3] == text::decimal(telemetry.source_inventory_stats.cached_items as nat)
            &&& parts[4] == ", filesystem_items="@ && parts[5] == text::decimal(telemetry.source_inventory_stats.filesystem_items as nat)
            &&& parts[6] == ", metadata_alias_prep="@ && parts[7] == times.metadata_alias_prep@
            &&& parts[8] == ", candidate_scan="@ && parts[9] == times.candidate_scan@
            &&& parts[10] == ", destination_reduce="@ && parts[11] == times.destination_reduce@
            &&& parts[12] == ", metadata_errors="@ && parts[13] == text::decimal(telemetry.match_stats.metadata_errors as nat)
            &&& parts[14] == ", worker_count="@ && parts[15] == text::decimal(telemetry.match_stats.worker_count as nat)
            &&& parts[16] == ", candidate_slots="@ && parts[17] == text::decimal(telemetry.match_stats.prefiltered_library_candidates as nat)
            &&& parts[18] == ", scored_candidates="@ && parts[19] == text::decimal(telemetry.match_stats.scored_candidates as nat)
            &&& parts[20] == ", exact_id_hits="@ && parts[21] == text::decimal(telemetry.match_stats.exact_id_hits as nat)
            &&& parts[22] == ", ambiguous_skipped="@ && parts[23] == text::decimal(telemetry.match_stats.ambiguous_skipped as nat)
            &&& parts[24] == ", refresh_requested_paths="@ && parts[25] == text::decimal(telemetry.plex_refresh_stats.requested_paths as nat)
            &&& parts[26] == ", refresh_unique_paths="@ && parts[27] == text::decimal(telemetry.plex_refresh_stats.unique_paths as nat)
            &&& parts[28] == ", refresh_batches="@ && parts[29] == text::decimal(telemetry.plex_refresh_stats.planned_batches as nat)
            &&& parts[30] == ", coalesced_batches="@ && parts[31] == text::decimal(telemetry.plex_refresh_stats.coalesced_batches as nat)
            &&& parts[32] == ", refreshed_batches="@ && parts[33] == text::decimal(telemetry.plex_refresh_stats.refreshed_batches as nat)
            &&& parts[34] == ", refreshed_paths_covered="@ && parts[35] == text::decimal(telemetry.plex_refresh_stats.refreshed_paths_covered as nat)
            &&& parts[36] == ", skipped_refresh_batches="@ && parts[37] == text::decimal(telemetry.plex_refresh_stats.skipped_batches as nat)
            &&& parts[38] == ", capped_refresh_batches="@ && parts[39] == text::decimal(telemetry.plex_refresh_stats.capped_batches as nat)
            &&& parts[40] == ", refresh_aborted_due_to_cap="@ && parts[41] == truth(telemetry.plex_refresh_stats.aborted_due_to_cap)
            &&& parts[42] == ", refresh_deferred_due_to_lock="@ && parts[43] == truth(telemetry.plex_refresh_stats.deferred_due_to_lock)
            &&& parts[44] == ", failed_refresh_batches="@ && parts[45] == text::decimal(telemetry.plex_refresh_stats.failed_batches as nat)
            &&& parts[46] == ", unresolved_refresh_paths="@ && parts[47] == text::decimal(telemetry.plex_refresh_stats.unresolved_paths as nat)
        }),
        truth(true) == "true"@ && truth(false) == "false"@,
{
}

/// A reason has the sum of its counts, whoever skipped something for it, and is listed
/// exactly where somebody did.
pub proof fn lemma_reasons_add_up(reasons: TextMap<i64>, counts: SkipCounts, reason: Seq<char>)
    requires
        is_total(reasons, counts),
    ensures
        reasons@.contains_key(reason) <==> counts.matching.contains_key(reason)
            || counts.linking.contains_key(reason) || counts.sweep.contains_key(reason)
            || counts.acquiring.contains_key(reason),
        reasons@.contains_key(reason) ==> reasons@[reason] == (if counts.matching.contains_key(
            reason,
        ) {
            counts.matching[reason] as int
        } else {
            0
        }) + (if counts.linking.contains_key(reason) {
            counts.linking[reason] as int
        } else {
            0
        }) + (if counts.sweep.contains_key(reason) {
            counts.sweep[reason] as int
        } else {
            0
        }) + (if counts.acquiring.contains_key(reason) {
            counts.acquiring[reason] as int
        } else {
            0
        }),
{
}

/// The reasons of a scan are those of matching, of linking, of the sweep and of acquiring.
pub proof fn lemma_reasons_come_from_all_parts(
    telemetry: ScanTelemetry,
    link_summary: LinkProcessSummary,
    dead_summary: DeadLinkSummary,
    auto_acquire_summary: AutoAcquireBatchSummary,
)
    ensures
        ({
            let counts = skip_counts(telemetry, link_summary, dead_summary, auto_acquire_summary);
            &&& counts.matching == telemetry.match_stats.skip_reasons@
            &&& counts.linking == link_summary.skip_reasons@
            &&& counts.sweep == dead_summary.skip_reasons@
            &&& counts.acquiring == auto_acquire_summary.reason_counts@
        }),
{
}

/// Where nothing is counted yet every number is zero and nothing is known of the cache.
pub proof fn lemma_blank_counts_are_zero(
    inventory: SourceInventoryTelemetry,
    matching: MatchTelemetry,
    refresh: LibraryRefreshTelemetry,
)
    ensures
        inventory.is_blank() ==> inventory.cached_items + inventory.filesystem_items == 0
            && inventory.cached_sources + inventory.filesystem_sources == 0
            && !inventory.cache_enabled && inventory.cache_total_torrents is None
            && inventory.cache_downloaded_torrents is None,
        matching.is_blank() ==> matching.ambiguous_skipped + matching.scored_candidates
            + matching.exact_id_hits + matching.metadata_errors == 0
            && matching.prefiltered_library_candidates == 0 && matching.worker_count == 0
            && matching.skip_reasons@.dom() =~= Set::<Seq<char>>::empty(),
        refresh.is_blank() ==> refresh.requested_paths + refresh.planned_batches
            + refresh.refreshed_batches + refresh.skipped_batches + refresh.failed_batches == 0
            && refresh.capped_batches == 0 && !refresh.aborted_due_to_cap
            && !refresh.deferred_due_to_lock,
{
}

} // verus!
