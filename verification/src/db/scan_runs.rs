//! Recorded scans and link events.

use vstd::prelude::*;
use crate::db::types::{LinkEventRecord, ScanHistoryRecord, ScanRunOrigin, ScanRunRecord, WebStats};
use crate::text;

verus! {

/// The columns of a recorded scan.
#[derive(Debug, PartialEq, Eq)]
pub struct ScanRunRow {
    pub origin: String,
    pub dry_run: i64,
    pub library_filter: Option<String>,
    pub run_token: Option<String>,
    pub search_missing: i64,
    pub library_items_found: i64,
    pub source_items_found: i64,
    pub matches_found: i64,
    pub links_created: i64,
    pub links_updated: i64,
    pub dead_marked: i64,
    pub links_removed: i64,
    pub links_skipped: i64,
    pub ambiguous_skipped: i64,
    pub skip_reason_json: Option<String>,
    pub runtime_checks_ms: i64,
    pub library_scan_ms: i64,
    pub source_inventory_ms: i64,
    pub matching_ms: i64,
    pub title_enrichment_ms: i64,
    pub linking_ms: i64,
    pub plex_refresh_ms: i64,
    pub plex_refresh_requested_paths: i64,
    pub plex_refresh_unique_paths: i64,
    pub plex_refresh_planned_batches: i64,
    pub plex_refresh_coalesced_batches: i64,
    pub plex_refresh_coalesced_paths: i64,
    pub plex_refresh_refreshed_batches: i64,
    pub plex_refresh_refreshed_paths_covered: i64,
    pub plex_refresh_skipped_batches: i64,
    pub plex_refresh_unresolved_paths: i64,
    pub plex_refresh_capped_batches: i64,
    pub plex_refresh_aborted_due_to_cap: i64,
    pub plex_refresh_failed_batches: i64,
    pub media_server_refresh_json: Option<String>,
    pub dead_link_sweep_ms: i64,
    pub cache_hit_ratio: Option<u64>,
    pub candidate_slots: i64,
    pub scored_candidates: i64,
    pub exact_id_hits: i64,
    pub auto_acquire_requests: i64,
    pub auto_acquire_missing_requests: i64,
    pub auto_acquire_cutoff_requests: i64,
    pub auto_acquire_dry_run_hits: i64,
    pub auto_acquire_submitted: i64,
    pub auto_acquire_no_result: i64,
    pub auto_acquire_blocked: i64,
    pub auto_acquire_failed: i64,
    pub auto_acquire_completed_linked: i64,
    pub auto_acquire_completed_unlinked: i64,
}

/// A flag as a number.
pub open spec fn flag_number(flag: bool) -> i64 {
    if flag {
        1
    } else {
        0
    }
}

fn number_of_flag(flag: bool) -> (out: i64)
    ensures
        out == flag_number(flag),
{
    if flag {
        1
    } else {
        0
    }
}

/// Whether a row holds what is recorded of a scan.
pub open spec fn run_row_fits(row: ScanRunRow, run: ScanRunRecord) -> bool {
    &&& row.origin@ == run.origin.name()
    &&& row.dry_run == flag_number(run.dry_run)
    &&& row.library_filter == run.library_filter
    &&& row.run_token == run.run_token
    &&& row.search_missing == flag_number(run.search_missing)
    &&& row.library_items_found == run.library_items_found
    &&& row.source_items_found == run.source_items_found
    &&& row.matches_found == run.matches_found
    &&& row.links_created == run.links_created
    &&& row.links_updated == run.links_updated
    &&& row.dead_marked == run.dead_marked
    &&& row.links_removed == run.links_removed
    &&& row.links_skipped == run.links_skipped
    &&& row.ambiguous_skipped == run.ambiguous_skipped
    &&& row.skip_reason_json == run.skip_reason_json
    &&& row.runtime_checks_ms == run.runtime_checks_ms
    &&& row.library_scan_ms == run.library_scan_ms
    &&& row.source_inventory_ms == run.source_inventory_ms
    &&& row.matching_ms == run.matching_ms
    &&& row.title_enrichment_ms == run.title_enrichment_ms
    &&& row.linking_ms == run.linking_ms
    &&& row.plex_refresh_ms == run.plex_refresh_ms
    &&& row.plex_refresh_requested_paths == run.plex_refresh_requested_paths
    &&& row.plex_refresh_unique_paths == run.plex_refresh_unique_paths
    &&& row.plex_refresh_planned_batches == run.plex_refresh_planned_batches
    &&& row.plex_refresh_coalesced_batches == run.plex_refresh_coalesced_batches
    &&& row.plex_refresh_coalesced_paths == run.plex_refresh_coalesced_paths
    &&& row.plex_refresh_refreshed_batches == run.plex_refresh_refreshed_batches
    &&& row.plex_refresh_refreshed_paths_covered == run.plex_refresh_refreshed_paths_covered
    &&& row.plex_refresh_skipped_batches == run.plex_refresh_skipped_batches
    &&& row.plex_refresh_unresolved_paths == run.plex_refresh_unresolved_paths
    &&& row.plex_refresh_capped_batches == run.plex_refresh_capped_batches
    &&& row.plex_refresh_aborted_due_to_cap == flag_number(run.plex_refresh_aborted_due_to_cap)
    &&& row.plex_refresh_failed_batches == run.plex_refresh_failed_batches
    &&& row.media_server_refresh_json == run.media_server_refresh_json
    &&& row.dead_link_sweep_ms == run.dead_link_sweep_ms
    &&& row.cache_hit_ratio == run.cache_hit_ratio
    &&& row.candidate_slots == run.candidate_slots
    &&& row.scored_candidates == run.scored_candidates
    &&& row.exact_id_hits == run.exact_id_hits
    &&& row.auto_acquire_requests == run.auto_acquire_requests
    &&& row.auto_acquire_missing_requests == run.auto_acquire_missing_requests
    &&& row.auto_acquire_cutoff_requests == run.auto_acquire_cutoff_requests
    &&& row.auto_acquire_dry_run_hits == run.auto_acquire_dry_run_hits
    &&& row.auto_acquire_submitted == run.auto_acquire_submitted
    &&& row.auto_acquire_no_result == run.auto_acquire_no_result
    &&& row.auto_acquire_blocked == run.auto_acquire_blocked
    &&& row.auto_acquire_failed == run.auto_acquire_failed
    &&& row.auto_acquire_completed_linked == run.auto_acquire_completed_linked
    &&& row.auto_acquire_completed_unlinked == run.auto_acquire_completed_unlinked
}

/// The columns that a scan is recorded in.
pub fn record_scan_run(run: &ScanRunRecord) -> (row: ScanRunRow)
    ensures
        run_row_fits(row, *run),
{
    ScanRunRow {
        origin: run.origin.as_str().to_owned(),
        dry_run: number_of_flag(run.dry_run),
        library_filter: run.library_filter.clone(),
        run_token: run.run_token.clone(),
        search_missing: number_of_flag(run.search_missing),
        library_items_found: run.library_items_found,
        source_items_found: run.source_items_found,
        matches_found: run.matches_found,
        links_created: run.links_created,
        links_updated: run.links_updated,
        dead_marked: run.dead_marked,
        links_removed: run.links_removed,
        links_skipped: run.links_skipped,
        ambiguous_skipped: run.ambiguous_skipped,
        skip_reason_json: run.skip_reason_json.clone(),
        runtime_checks_ms: run.runtime_checks_ms,
        library_scan_ms: run.library_scan_ms,
        source_inventory_ms: run.source_inventory_ms,
        matching_ms: run.matching_ms,
        title_enrichment_ms: run.title_enrichment_ms,
        linking_ms: run.linking_ms,
        plex_refresh_ms: run.plex_refresh_ms,
        plex_refresh_requested_paths: run.plex_refresh_requested_paths,
        plex_refresh_unique_paths: run.plex_refresh_unique_paths,
        plex_refresh_planned_batches: run.plex_refresh_planned_batches,
        plex_refresh_coalesced_batches: run.plex_refresh_coalesced_batches,
        plex_refresh_coalesced_paths: run.plex_refresh_coalesced_paths,
        plex_refresh_refreshed_batches: run.plex_refresh_refreshed_batches,
        plex_refresh_refreshed_paths_covered: run.plex_refresh_refreshed_paths_covered,
        plex_refresh_skipped_batches: run.plex_refresh_skipped_batches,
        plex_refresh_unresolved_paths: run.plex_refresh_unresolved_paths,
        plex_refresh_capped_batches: run.plex_refresh_capped_batches,
        plex_refresh_aborted_due_to_cap: number_of_flag(run.plex_refresh_aborted_due_to_cap),
        plex_refresh_failed_batches: run.plex_refresh_failed_batches,
        media_server_refresh_json: run.media_server_refresh_json.clone(),
        dead_link_sweep_ms: run.dead_link_sweep_ms,
        cache_hit_ratio: run.cache_hit_ratio,
        candidate_slots: run.candidate_slots,
        scored_candidates: run.scored_candidates,
        exact_id_hits: run.exact_id_hits,
        auto_acquire_requests: run.auto_acquire_requests,
        auto_acquire_missing_requests: run.auto_acquire_missing_requests,
        auto_acquire_cutoff_requests: run.auto_acquire_cutoff_requests,
        auto_acquire_dry_run_hits: run.auto_acquire_dry_run_hits,
        auto_acquire_submitted: run.auto_acquire_submitted,
        auto_acquire_no_result: run.auto_acquire_no_result,
        auto_acquire_blocked: run.auto_acquire_blocked,
        auto_acquire_failed: run.auto_acquire_failed,
        auto_acquire_completed_linked: run.auto_acquire_completed_linked,
        auto_acquire_completed_unlinked: run.auto_acquire_completed_unlinked,
    }
}

/// Whether a recorded scan is that of a row.
pub open spec fn history_fits(
    record: ScanHistoryRecord,
    id: i64,
    run_at: Seq<char>,
    row: ScanRunRow,
) -> bool {
    &&& record.id == id
    &&& record.started_at@ == run_at
    &&& record.origin.name() == row.origin@
    &&& record.dry_run == (row.dry_run != 0)
    &&& record.library_filter == row.library_filter
    &&& record.run_token == row.run_token
    &&& record.search_missing == (row.search_missing != 0)
    &&& record.library_items_found == row.library_items_found
    &&& record.source_items_found == row.source_items_found
    &&& record.matches_found == row.matches_found
    &&& record.links_created == row.links_created
    &&& record.links_updated == row.links_updated
    &&& record.dead_marked == row.dead_marked
    &&& record.links_removed == row.links_removed
    &&& record.links_skipped == row.links_skipped
    &&& record.ambiguous_skipped == row.ambiguous_skipped
    &&& record.skip_reason_json == row.skip_reason_json
    &&& record.runtime_checks_ms == row.runtime_checks_ms
    &&& record.library_scan_ms == row.library_scan_ms
    &&& record.source_inventory_ms == row.source_inventory_ms
    &&& record.matching_ms == row.matching_ms
    &&& record.title_enrichment_ms == row.title_enrichment_ms
    &&& record.linking_ms == row.linking_ms
    &&& record.plex_refresh_ms == row.plex_refresh_ms
    &&& record.plex_refresh_requested_paths == row.plex_refresh_requested_paths
    &&& record.plex_refresh_unique_paths == row.plex_refresh_unique_paths
    &&& record.plex_refresh_planned_batches == row.plex_refresh_planned_batches
    &&& record.plex_refresh_coalesced_batches == row.plex_refresh_coalesced_batches
    &&& record.plex_refresh_coalesced_paths == row.plex_refresh_coalesced_paths
    &&& record.plex_refresh_refreshed_batches == row.plex_refresh_refreshed_batches
    &&& record.plex_refresh_refreshed_paths_covered == row.plex_refresh_refreshed_paths_covered
    &&& record.plex_refresh_skipped_batches == row.plex_refresh_skipped_batches
    &&& record.plex_refresh_unresolved_paths == row.plex_refresh_unresolved_paths
    &&& record.plex_refresh_capped_batches == row.plex_refresh_capped_batches
    &&& record.plex_refresh_aborted_due_to_cap == (row.plex_refresh_aborted_due_to_cap != 0)
    &&& record.plex_refresh_failed_batches == row.plex_refresh_failed_batches
    &&& record.media_server_refresh_json == row.media_server_refresh_json
    &&& record.dead_link_sweep_ms == row.dead_link_sweep_ms
    &&& record.cache_hit_ratio == row.cache_hit_ratio
    &&& record.candidate_slots == row.candidate_slots
    &&& record.scored_candidates == row.scored_candidates
    &&& record.exact_id_hits == row.exact_id_hits
    &&& record.auto_acquire_requests == row.auto_acquire_requests
    &&& record.auto_acquire_missing_requests == row.auto_acquire_missing_requests
    &&& record.auto_acquire_cutoff_requests == row.auto_acquire_cutoff_requests
    &&& record.auto_acquire_dry_run_hits == row.auto_acquire_dry_run_hits
    &&& record.auto_acquire_submitted == row.auto_acquire_submitted
    &&& record.auto_acquire_no_result == row.auto_acquire_no_result
    &&& record.auto_acquire_blocked == row.auto_acquire_blocked
    &&& record.auto_acquire_failed == row.auto_acquire_failed
    &&& record.auto_acquire_completed_linked == row.auto_acquire_completed_linked
    &&& record.auto_acquire_completed_unlinked == row.auto_acquire_completed_unlinked
}

/// The recorded scan of a row; an error where its origin is not known.
pub fn row_to_scan_history_record(id: i64, run_at: String, row: ScanRunRow) -> (out: Result<
    ScanHistoryRecord,
    String,
>)
    ensures
        match out {
            Ok(record) => history_fits(record, id, run_at@, row),
            Err(message) => !ScanRunOrigin::is_name(row.origin@) && message@
                == "Unsupported scan run origin '"@ + row.origin@
                + "' in the database. Expected one of: unknown, cli, daemon, web, auto_acquire"@,
        },
{
    let origin = match ScanRunOrigin::from_db(row.origin.as_str()) {
        Ok(origin) => origin,
        Err(message) => {
            return Err(message);
        },
    };
    Ok(
        ScanHistoryRecord {
            id,
            started_at: run_at,
            origin,
            dry_run: row.dry_run != 0,
            library_filter: row.library_filter,
            run_token: row.run_token,
            search_missing: row.search_missing != 0,
            library_items_found: row.library_items_found,
            source_items_found: row.source_items_found,
            matches_found: row.matches_found,
            links_created: row.links_created,
            links_updated: row.links_updated,
            dead_marked: row.dead_marked,
            links_removed: row.links_removed,
            links_skipped: row.links_skipped,
            ambiguous_skipped: row.ambiguous_skipped,
            skip_reason_json: row.skip_reason_json,
            runtime_checks_ms: row.runtime_checks_ms,
            library_scan_ms: row.library_scan_ms,
            source_inventory_ms: row.source_inventory_ms,
            matching_ms: row.matching_ms,
            title_enrichment_ms: row.title_enrichment_ms,
            linking_ms: row.linking_ms,
            plex_refresh_ms: row.plex_refresh_ms,
            plex_refresh_requested_paths: row.plex_refresh_requested_paths,
            plex_refresh_unique_paths: row.plex_refresh_unique_paths,
            plex_refresh_planned_batches: row.plex_refresh_planned_batches,
            plex_refresh_coalesced_batches: row.plex_refresh_coalesced_batches,
            plex_refresh_coalesced_paths: row.plex_refresh_coalesced_paths,
            plex_refresh_refreshed_batches: row.plex_refresh_refreshed_batches,
            plex_refresh_refreshed_paths_covered: row.plex_refresh_refreshed_paths_covered,
            plex_refresh_skipped_batches: row.plex_refresh_skipped_batches,
            plex_refresh_unresolved_paths: row.plex_refresh_unresolved_paths,
            plex_refresh_capped_batches: row.plex_refresh_capped_batches,
            plex_refresh_aborted_due_to_cap: row.plex_refresh_aborted_due_to_cap != 0,
            plex_refresh_failed_batches: row.plex_refresh_failed_batches,
            media_server_refresh_json: row.media_server_refresh_json,
            dead_link_sweep_ms: row.dead_link_sweep_ms,
            cache_hit_ratio: row.cache_hit_ratio,
            candidate_slots: row.candidate_slots,
            scored_candidates: row.scored_candidates,
            exact_id_hits: row.exact_id_hits,
            auto_acquire_requests: row.auto_acquire_requests,
            auto_acquire_missing_requests: row.auto_acquire_missing_requests,
            auto_acquire_cutoff_requests: row.auto_acquire_cutoff_requests,
            auto_acquire_dry_run_hits: row.auto_acquire_dry_run_hits,
            auto_acquire_submitted: row.auto_acquire_submitted,
            auto_acquire_no_result: row.auto_acquire_no_result,
            auto_acquire_blocked: row.auto_acquire_blocked,
            auto_acquire_failed: row.auto_acquire_failed,
            auto_acquire_completed_linked: row.auto_acquire_completed_linked,
            auto_acquire_completed_unlinked: row.auto_acquire_completed_unlinked,
        },
    )
}

/// A scan that was recorded is read back as it was.
pub proof fn lemma_recorded_scan_is_read_back(
    run: ScanRunRecord,
    row: ScanRunRow,
    id: i64,
    run_at: Seq<char>,
    record: ScanHistoryRecord,
)
    requires
        run_row_fits(row, run),
        history_fits(record, id, run_at, row),
    ensures
        ScanRunOrigin::is_name(row.origin@),
        record.origin == run.origin,
        record.dry_run == run.dry_run,
        record.library_filter == run.library_filter,
        record.run_token == run.run_token,
        record.search_missing == run.search_missing,
        record.library_items_found == run.library_items_found,
        record.source_items_found == run.source_items_found,
        record.matches_found == run.matches_found,
        record.links_created == run.links_created,
        record.links_updated == run.links_updated,
        record.dead_marked == run.dead_marked,
        record.links_removed == run.links_removed,
        record.links_skipped == run.links_skipped,
        record.ambiguous_skipped == run.ambiguous_skipped,
        record.skip_reason_json == run.skip_reason_json,
        record.runtime_checks_ms == run.runtime_checks_ms,
        record.library_scan_ms == run.library_scan_ms,
        record.source_inventory_ms == run.source_inventory_ms,
        record.matching_ms == run.matching_ms,
        record.title_enrichment_ms == run.title_enrichment_ms,
        record.linking_ms == run.linking_ms,
        record.plex_refresh_ms == run.plex_refresh_ms,
        record.plex_refresh_requested_paths == run.plex_refresh_requested_paths,
        record.plex_refresh_unique_paths == run.plex_refresh_unique_paths,
        record.plex_refresh_planned_batches == run.plex_refresh_planned_batches,
        record.plex_refresh_coalesced_batches == run.plex_refresh_coalesced_batches,
        record.plex_refresh_coalesced_paths == run.plex_refresh_coalesced_paths,
        record.plex_refresh_refreshed_batches == run.plex_refresh_refreshed_batches,
        record.plex_refresh_refreshed_paths_covered == run.plex_refresh_refreshed_paths_covered,
        record.plex_refresh_skipped_batches == run.plex_refresh_skipped_batches,
        record.plex_refresh_unresolved_paths == run.plex_refresh_unresolved_paths,
        record.plex_refresh_capped_batches == run.plex_refresh_capped_batches,
        record.plex_refresh_aborted_due_to_cap == run.plex_refresh_aborted_due_to_cap,
        record.plex_refresh_failed_batches == run.plex_refresh_failed_batches,
        record.media_server_refresh_json == run.media_server_refresh_json,
        record.dead_link_sweep_ms == run.dead_link_sweep_ms,
        record.cache_hit_ratio == run.cache_hit_ratio,
        record.candidate_slots == run.candidate_slots,
        record.scored_candidates == run.scored_candidates,
        record.exact_id_hits == run.exact_id_hits,
        record.auto_acquire_requests == run.auto_acquire_requests,
        record.auto_acquire_missing_requests == run.auto_acquire_missing_requests,
        record.auto_acquire_cutoff_requests == run.auto_acquire_cutoff_requests,
        record.auto_acquire_dry_run_hits == run.auto_acquire_dry_run_hits,
        record.auto_acquire_submitted == run.auto_acquire_submitted,
        record.auto_acquire_no_result == run.auto_acquire_no_result,
        record.auto_acquire_blocked == run.auto_acquire_blocked,
        record.auto_acquire_failed == run.auto_acquire_failed,
        record.auto_acquire_completed_linked == run.auto_acquire_completed_linked,
        record.auto_acquire_completed_unlinked == run.auto_acquire_completed_unlinked,
{
    crate::db::types::lemma_scan_run_origin_names(record.origin, run.origin);
}

/// An event of a link.
pub fn link_event(
    run_token: Option<&str>,
    action: &str,
    target_path: &str,
    source_path: Option<&str>,
    media_id: Option<&str>,
    note: Option<&str>,
) -> (out: LinkEventRecord)
    ensures
        out.run_id is None,
        text::opt(out.run_token) == opt_str(run_token),
        out.action@ == action@,
        out.target_path@ == target_path@,
        text::opt(out.source_path) == opt_str(source_path),
        text::opt(out.media_id) == opt_str(media_id),
        text::opt(out.note) == opt_str(note),
{
    LinkEventRecord {
        run_id: None,
        run_token: owned(run_token),
        action: action.to_owned(),
        target_path: target_path.to_owned(),
        source_path: owned(source_path),
        media_id: owned(media_id),
        note: owned(note),
    }
}

/// The characters of an optional text.
pub open spec fn opt_str(value: Option<&str>) -> Option<Seq<char>> {
    match value {
        Some(v) => Some(v@),
        None => None,
    }
}

fn owned(value: Option<&str>) -> (out: Option<String>)
    ensures
        text::opt(out) == opt_str(value),
{
    match value {
        Some(v) => Some(v.to_owned()),
        None => None,
    }
}

/// The numbers of the dashboard, from the counts of links and scans.
pub fn web_stats(active: i64, dead: i64, scan_count: i64, last_scan: Option<String>) -> (out:
    WebStats)
    ensures
        out.active_links == active,
        out.dead_links == dead,
        out.total_scans == scan_count,
        out.last_scan == last_scan,
{
    WebStats { active_links: active, dead_links: dead, total_scans: scan_count, last_scan }
}

/// What happened in a scan is recorded in columns of its own: what was created is not
/// mixed up with what was updated, removed, skipped or marked dead, nor one phase's time or
/// one count with another's.
pub proof fn lemma_columns_are_not_mixed_up(row: ScanRunRow, run: ScanRunRecord)
    requires
        run_row_fits(row, run),
    ensures
        row.dry_run == 1 <==> run.dry_run,
        row.dry_run == 0 <==> !run.dry_run,
        row.search_missing == 1 <==> run.search_missing,
        (row.library_items_found, row.source_items_found, row.matches_found) == (
            run.library_items_found,
            run.source_items_found,
            run.matches_found,
        ),
        (row.links_created, row.links_updated, row.links_removed, row.links_skipped) == (
            run.links_created,
            run.links_updated,
            run.links_removed,
            run.links_skipped,
        ),
        (row.dead_marked, row.ambiguous_skipped) == (run.dead_marked, run.ambiguous_skipped),
        (
            row.runtime_checks_ms,
            row.library_scan_ms,
            row.source_inventory_ms,
            row.matching_ms,
            row.title_enrichment_ms,
            row.linking_ms,
            row.plex_refresh_ms,
            row.dead_link_sweep_ms,
        ) == (
            run.runtime_checks_ms,
            run.library_scan_ms,
            run.source_inventory_ms,
            run.matching_ms,
            run.title_enrichment_ms,
            run.linking_ms,
            run.plex_refresh_ms,
            run.dead_link_sweep_ms,
        ),
        (
            row.plex_refresh_requested_paths,
            row.plex_refresh_unique_paths,
            row.plex_refresh_planned_batches,
            row.plex_refresh_coalesced_batches,
            row.plex_refresh_coalesced_paths,
            row.plex_refresh_refreshed_batches,
            row.plex_refresh_refreshed_paths_covered,
            row.plex_refresh_skipped_batches,
            row.plex_refresh_unresolved_paths,
            row.plex_refresh_capped_batches,
            row.plex_refresh_failed_batches,
        ) == (
            run.plex_refresh_requested_paths,
            run.plex_refresh_unique_paths,
            run.plex_refresh_planned_batches,
            run.plex_refresh_coalesced_batches,
            run.plex_refresh_coalesced_paths,
            run.plex_refresh_refreshed_batches,
            run.plex_refresh_refreshed_paths_covered,
            run.plex_refresh_skipped_batches,
            run.plex_refresh_unresolved_paths,
            run.plex_refresh_capped_batches,
            run.plex_refresh_failed_batches,
        ),
        (row.candidate_slots, row.scored_candidates, row.exact_id_hits) == (
            run.candidate_slots,
            run.scored_candidates,
            run.exact_id_hits,
        ),
        (
            row.auto_acquire_requests,
            row.auto_acquire_missing_requests,
            row.auto_acquire_cutoff_requests,
            row.auto_acquire_dry_run_hits,
            row.auto_acquire_submitted,
            row.auto_acquire_no_result,
            row.auto_acquire_blocked,
            row.auto_acquire_failed,
        ) == (
            run.auto_acquire_requests,
            run.auto_acquire_missing_requests,
            run.auto_acquire_cutoff_requests,
            run.auto_acquire_dry_run_hits,
            run.auto_acquire_submitted,
            run.auto_acquire_no_result,
            run.auto_acquire_blocked,
            run.auto_acquire_failed,
        ),
        (row.auto_acquire_completed_linked, row.auto_acquire_completed_unlinked) == (
            run.auto_acquire_completed_linked,
            run.auto_acquire_completed_unlinked,
        ),
{
}

} // verus!
