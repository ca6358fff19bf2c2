//! The schema of the database and how it moves from version to version.

use vstd::prelude::*;
use crate::text;

verus! {

/// The version of the schema that this library works with.
pub const LATEST_SCHEMA_VERSION: i64 = 22;

/// One change of the schema.
#[derive(Debug, Clone, Copy, PartialEq, Eq)]
pub enum SchemaStep {
    /// Creates a table, where there is none of that name.
    CreateTable { table: &'static str, columns: &'static str },
    /// Adds a column, where the table has none of that name.
    AddColumn { table: &'static str, column: &'static str, definition: &'static str },
    /// Creates an index, where there is none of that name.
    CreateIndex { index: &'static str, on: &'static str, unique: bool },
    /// Drops a table, where there is one.
    DropTable { table: &'static str },
    /// Drops a column, where the table has one.
    DropColumn { table: &'static str, column: &'static str },
    /// Drops an index, where there is one.
    DropIndex { index: &'static str },
}

impl SchemaStep {
    /// Whether the step adds something.
    pub open spec fn builds(self) -> bool {
        self is CreateTable || self is AddColumn || self is CreateIndex
    }

    /// The step that takes back what the step adds.
    pub open spec fn undo(self) -> SchemaStep {
        match self {
            SchemaStep::CreateTable { table, columns } => SchemaStep::DropTable { table },
            SchemaStep::AddColumn { table, column, definition } => SchemaStep::DropColumn {
                table,
                column,
            },
            SchemaStep::CreateIndex { index, on, unique } => SchemaStep::DropIndex { index },
            other => other,
        }
    }

    fn undone(self) -> (out: SchemaStep)
        ensures
            out == self.undo(),
    {
        match self {
            SchemaStep::CreateTable { table, columns: _ } => SchemaStep::DropTable { table },
            SchemaStep::AddColumn { table, column, definition: _ } => SchemaStep::DropColumn {
                table,
                column,
            },
            SchemaStep::CreateIndex { index, on: _, unique: _ } => SchemaStep::DropIndex { index },
            other => other,
        }
    }

    /// The statement of the step.
    pub open spec fn statement(self) -> Seq<char> {
        match self {
            SchemaStep::CreateTable { table, columns } => "CREATE TABLE IF NOT EXISTS "@ + table@
                + " ("@ + columns@ + ")"@,
            SchemaStep::AddColumn { table, column, definition } => "ALTER TABLE "@ + table@
                + " ADD COLUMN "@ + column@ + " "@ + definition@,
            SchemaStep::CreateIndex { index, on, unique } => (if unique {
                "CREATE UNIQUE INDEX IF NOT EXISTS "@
            } else {
                "CREATE INDEX IF NOT EXISTS "@
            }) + index@ + " ON "@ + on@,
            SchemaStep::DropTable { table } => "DROP TABLE IF EXISTS "@ + table@,
            SchemaStep::DropColumn { table, column } => "ALTER TABLE "@ + table@ + " DROP COLUMN "@
                + column@,
            SchemaStep::DropIndex { index } => "DROP INDEX IF EXISTS "@ + index@,
        }
    }

    /// The statement of the step. A column is dropped only where it exists: see
    /// `column_to_check`.
    pub fn sql(&self) -> (out: String)
        ensures
            out@ == self.statement(),
    {
        match *self {
            SchemaStep::CreateTable { table, columns } => text::concat5(
                "CREATE TABLE IF NOT EXISTS ",
                table,
                " (",
                columns,
                ")",
            ),
            SchemaStep::AddColumn { table, column, definition } => text::concat6(
                "ALTER TABLE ",
                table,
                " ADD COLUMN ",
                column,
                " ",
                definition,
            ),
            SchemaStep::CreateIndex { index, on, unique } => if unique {
                text::concat4("CREATE UNIQUE INDEX IF NOT EXISTS ", index, " ON ", on)
            } else {
                text::concat4("CREATE INDEX IF NOT EXISTS ", index, " ON ", on)
            },
            SchemaStep::DropTable { table } => text::concat2("DROP TABLE IF EXISTS ", table),
            SchemaStep::DropColumn { table, column } => text::concat4(
                "ALTER TABLE ",
                table,
                " DROP COLUMN ",
                column,
            ),
            SchemaStep::DropIndex { index } => text::concat2("DROP INDEX IF EXISTS ", index),
        }
    }

    /// The table and the column that must exist for the step to be made.
    pub fn column_to_check(&self) -> (out: Option<(&'static str, &'static str)>)
        ensures
            out == (match *self {
                SchemaStep::DropColumn { table, column } => Some((table, column)),
                _ => None,
            }),
    {
        match *self {
            SchemaStep::DropColumn { table, column } => Some((table, column)),
            _ => None,
        }
    }

    /// Whether an error of the step is none: a column that is there already.
    pub fn tolerates(&self, error: &str) -> (b: bool)
        ensures
            b == (self is AddColumn && text::has_part(error@, "duplicate column name"@)),
    {
        match *self {
            SchemaStep::AddColumn { .. } => text::contains_text(error, "duplicate column name"),
            _ => false,
        }
    }
}

/// The steps to version 1.
pub open spec fn steps_to_1() -> Seq<SchemaStep> {
    seq![
        SchemaStep::CreateTable {
            table: "links",
            columns: "id INTEGER PRIMARY KEY AUTOINCREMENT, source_path TEXT NOT NULL, target_path TEXT NOT NULL UNIQUE, media_id TEXT NOT NULL, media_type TEXT NOT NULL, status TEXT NOT NULL DEFAULT 'active', created_at DATETIME DEFAULT CURRENT_TIMESTAMP, updated_at DATETIME DEFAULT CURRENT_TIMESTAMP",
        },
        SchemaStep::CreateTable {
            table: "api_cache",
            columns: "id INTEGER PRIMARY KEY AUTOINCREMENT, cache_key TEXT NOT NULL UNIQUE, response_json TEXT NOT NULL, fetched_at DATETIME DEFAULT CURRENT_TIMESTAMP, ttl_hours INTEGER NOT NULL DEFAULT 168",
        },
        SchemaStep::CreateIndex {
            index: "idx_links_status",
            on: "links(status)",
            unique: false,
        },
        SchemaStep::CreateIndex {
            index: "idx_links_media_id",
            on: "links(media_id)",
            unique: false,
        },
        SchemaStep::CreateIndex {
            index: "idx_api_cache_key",
            on: "api_cache(cache_key)",
            unique: false,
        },
    ]
}

/// The steps to version 2.
pub open spec fn steps_to_2() -> Seq<SchemaStep> {
    seq![
        SchemaStep::CreateTable {
            table: "scan_history",
            columns: "id INTEGER PRIMARY KEY AUTOINCREMENT, scan_at DATETIME DEFAULT CURRENT_TIMESTAMP, library_items_found INTEGER NOT NULL DEFAULT 0, source_items_found INTEGER NOT NULL DEFAULT 0, matches_found INTEGER NOT NULL DEFAULT 0, links_created INTEGER NOT NULL DEFAULT 0",
        },
        SchemaStep::CreateTable {
            table: "rd_torrents",
            columns: "id INTEGER PRIMARY KEY AUTOINCREMENT, torrent_id TEXT NOT NULL UNIQUE, hash TEXT NOT NULL, filename TEXT NOT NULL, status TEXT NOT NULL, files_json TEXT NOT NULL, scanned_at DATETIME DEFAULT CURRENT_TIMESTAMP",
        },
        SchemaStep::CreateIndex {
            index: "idx_rd_torrents_id",
            on: "rd_torrents(torrent_id)",
            unique: false,
        },
    ]
}

/// The steps to version 3.
pub open spec fn steps_to_3() -> Seq<SchemaStep> {
    seq![
        SchemaStep::CreateTable {
            table: "scan_runs",
            columns: "id INTEGER PRIMARY KEY AUTOINCREMENT, run_at DATETIME DEFAULT CURRENT_TIMESTAMP, dry_run INTEGER NOT NULL DEFAULT 0, library_filter TEXT, run_token TEXT, search_missing INTEGER NOT NULL DEFAULT 0, library_items_found INTEGER NOT NULL DEFAULT 0, source_items_found INTEGER NOT NULL DEFAULT 0, matches_found INTEGER NOT NULL DEFAULT 0, links_created INTEGER NOT NULL DEFAULT 0, links_updated INTEGER NOT NULL DEFAULT 0, dead_marked INTEGER NOT NULL DEFAULT 0, links_removed INTEGER NOT NULL DEFAULT 0, links_skipped INTEGER NOT NULL DEFAULT 0, ambiguous_skipped INTEGER NOT NULL DEFAULT 0, skip_reason_json TEXT, runtime_checks_ms INTEGER NOT NULL DEFAULT 0, library_scan_ms INTEGER NOT NULL DEFAULT 0, source_inventory_ms INTEGER NOT NULL DEFAULT 0, matching_ms INTEGER NOT NULL DEFAULT 0, title_enrichment_ms INTEGER NOT NULL DEFAULT 0, linking_ms INTEGER NOT NULL DEFAULT 0, plex_refresh_ms INTEGER NOT NULL DEFAULT 0, dead_link_sweep_ms INTEGER NOT NULL DEFAULT 0, cache_hit_ratio REAL, candidate_slots INTEGER NOT NULL DEFAULT 0, scored_candidates INTEGER NOT NULL DEFAULT 0, exact_id_hits INTEGER NOT NULL DEFAULT 0, auto_acquire_requests INTEGER NOT NULL DEFAULT 0, auto_acquire_missing_requests INTEGER NOT NULL DEFAULT 0, auto_acquire_cutoff_requests INTEGER NOT NULL DEFAULT 0, auto_acquire_dry_run_hits INTEGER NOT NULL DEFAULT 0, auto_acquire_submitted INTEGER NOT NULL DEFAULT 0, auto_acquire_no_result INTEGER NOT NULL DEFAULT 0, auto_acquire_blocked INTEGER NOT NULL DEFAULT 0, auto_acquire_failed INTEGER NOT NULL DEFAULT 0, auto_acquire_completed_linked INTEGER NOT NULL DEFAULT 0, auto_acquire_completed_unlinked INTEGER NOT NULL DEFAULT 0",
        },
        SchemaStep::CreateIndex {
            index: "idx_scan_runs_run_at",
            on: "scan_runs(run_at)",
            unique: false,
        },
    ]
}

/// The steps to version 4.
pub open spec fn steps_to_4() -> Seq<SchemaStep> {
    seq![
        SchemaStep::CreateTable {
            table: "link_events",
            columns: "id INTEGER PRIMARY KEY AUTOINCREMENT, run_id INTEGER, run_token TEXT, event_at DATETIME DEFAULT CURRENT_TIMESTAMP, action TEXT NOT NULL, target_path TEXT NOT NULL, source_path TEXT, media_id TEXT, note TEXT",
        },
        SchemaStep::CreateIndex {
            index: "idx_link_events_action",
            on: "link_events(action)",
            unique: false,
        },
        SchemaStep::CreateIndex {
            index: "idx_link_events_target",
            on: "link_events(target_path)",
            unique: false,
        },
    ]
}

/// The steps to version 5.
pub open spec fn steps_to_5() -> Seq<SchemaStep> {
    seq![
        SchemaStep::CreateTable {
            table: "acquisition_jobs",
            columns: "id INTEGER PRIMARY KEY AUTOINCREMENT, request_key TEXT NOT NULL UNIQUE, label TEXT NOT NULL, query TEXT NOT NULL, categories_json TEXT NOT NULL, arr TEXT NOT NULL, library_filter TEXT, relink_kind TEXT NOT NULL, relink_value TEXT NOT NULL, status TEXT NOT NULL DEFAULT 'queued', release_title TEXT, info_hash TEXT, error TEXT, attempts INTEGER NOT NULL DEFAULT 0, next_retry_at TEXT, submitted_at TEXT, completed_at TEXT, created_at TEXT NOT NULL DEFAULT CURRENT_TIMESTAMP, updated_at TEXT NOT NULL DEFAULT CURRENT_TIMESTAMP",
        },
        SchemaStep::CreateIndex {
            index: "idx_acquisition_jobs_status",
            on: "acquisition_jobs(status)",
            unique: false,
        },
        SchemaStep::CreateIndex {
            index: "idx_acquisition_jobs_retry",
            on: "acquisition_jobs(status, next_retry_at)",
            unique: false,
        },
    ]
}

/// The steps to version 6.
pub open spec fn steps_to_6() -> Seq<SchemaStep> {
    seq![
        SchemaStep::AddColumn {
            table: "acquisition_jobs",
            column: "imdb_id",
            definition: "TEXT",
        },
    ]
}

/// The steps to version 7.
pub open spec fn steps_to_7() -> Seq<SchemaStep> {
    seq![
        SchemaStep::AddColumn {
            table: "acquisition_jobs",
            column: "query_hints_json",
            definition: "TEXT NOT NULL DEFAULT '[]'",
        },
    ]
}

/// The steps to version 8.
pub open spec fn steps_to_8() -> Seq<SchemaStep> {
    seq![
        SchemaStep::AddColumn {
            table: "scan_runs",
            column: "library_filter",
            definition: "TEXT",
        },
        SchemaStep::AddColumn {
            table: "scan_runs",
            column: "search_missing",
            definition: "INTEGER NOT NULL DEFAULT 0",
        },
        SchemaStep::AddColumn {
            table: "scan_runs",
            column: "runtime_checks_ms",
            definition: "INTEGER NOT NULL DEFAULT 0",
        },
        SchemaStep::AddColumn {
            table: "scan_runs",
            column: "library_scan_ms",
            definition: "INTEGER NOT NULL DEFAULT 0",
        },
        SchemaStep::AddColumn {
            table: "scan_runs",
            column: "source_inventory_ms",
            definition: "INTEGER NOT NULL DEFAULT 0",
        },
        SchemaStep::AddColumn {
            table: "scan_runs",
            column: "matching_ms",
            definition: "INTEGER NOT NULL DEFAULT 0",
        },
        SchemaStep::AddColumn {
            table: "scan_runs",
            column: "title_enrichment_ms",
            definition: "INTEGER NOT NULL DEFAULT 0",
        },
        SchemaStep::AddColumn {
            table: "scan_runs",
            column: "linking_ms",
            definition: "INTEGER NOT NULL DEFAULT 0",
        },
        SchemaStep::AddColumn {
            table: "scan_runs",
            column: "plex_refresh_ms",
            definition: "INTEGER NOT NULL DEFAULT 0",
        },
        SchemaStep::AddColumn {
            table: "scan_runs",
            column: "dead_link_sweep_ms",
            definition: "INTEGER NOT NULL DEFAULT 0",
        },
        SchemaStep::AddColumn {
            table: "scan_runs",
            column: "cache_hit_ratio",
            definition: "REAL",
        },
        SchemaStep::AddColumn {
            table: "scan_runs",
            column: "candidate_slots",
            definition: "INTEGER NOT NULL DEFAULT 0",
        },
        SchemaStep::AddColumn {
            table: "scan_runs",
            column: "scored_candidates",
            definition: "INTEGER NOT NULL DEFAULT 0",
        },
        SchemaStep::AddColumn {
            table: "scan_runs",
            column: "exact_id_hits",
            definition: "INTEGER NOT NULL DEFAULT 0",
        },
        SchemaStep::AddColumn {
            table: "scan_runs",
            column: "auto_acquire_requests",
            definition: "INTEGER NOT NULL DEFAULT 0",
        },
        SchemaStep::AddColumn {
            table: "scan_runs",
            column: "auto_acquire_missing_requests",
            definition: "INTEGER NOT NULL DEFAULT 0",
        },
        SchemaStep::AddColumn {
            table: "scan_runs",
            column: "auto_acquire_cutoff_requests",
            definition: "INTEGER NOT NULL DEFAULT 0",
        },
        SchemaStep::AddColumn {
            table: "scan_runs",
            column: "auto_acquire_dry_run_hits",
            definition: "INTEGER NOT NULL DEFAULT 0",
        },
        SchemaStep::AddColumn {
            table: "scan_runs",
            column: "auto_acquire_submitted",
            definition: "INTEGER NOT NULL DEFAULT 0",
        },
        SchemaStep::AddColumn {
            table: "scan_runs",
            column: "auto_acquire_no_result",
            definition: "INTEGER NOT NULL DEFAULT 0",
        },
        SchemaStep::AddColumn {
            table: "scan_runs",
            column: "auto_acquire_blocked",
            definition: "INTEGER NOT NULL DEFAULT 0",
        },
        SchemaStep::AddColumn {
            table: "scan_runs",
            column: "auto_acquire_failed",
            definition: "INTEGER NOT NULL DEFAULT 0",
        },
        SchemaStep::AddColumn {
            table: "scan_runs",
            column: "auto_acquire_completed_linked",
            definition: "INTEGER NOT NULL DEFAULT 0",
        },
        SchemaStep::AddColumn {
            table: "scan_runs",
            column: "auto_acquire_completed_unlinked",
            definition: "INTEGER NOT NULL DEFAULT 0",
        },
    ]
}

/// The steps to version 9.
pub open spec fn steps_to_9() -> Seq<SchemaStep> {
    seq![
        SchemaStep::CreateIndex {
            index: "idx_links_status_target",
            on: "links(status, target_path)",
            unique: false,
        },
    ]
}

/// The steps to version 10.
pub open spec fn steps_to_10() -> Seq<SchemaStep> {
    seq![
        SchemaStep::AddColumn {
            table: "scan_runs",
            column: "plex_refresh_requested_paths",
            definition: "INTEGER NOT NULL DEFAULT 0",
        },
        SchemaStep::AddColumn {
            table: "scan_runs",
            column: "plex_refresh_unique_paths",
            definition: "INTEGER NOT NULL DEFAULT 0",
        },
        SchemaStep::AddColumn {
            table: "scan_runs",
            column: "plex_refresh_planned_batches",
            definition: "INTEGER NOT NULL DEFAULT 0",
        },
        SchemaStep::AddColumn {
            table: "scan_runs",
            column: "plex_refresh_coalesced_batches",
            definition: "INTEGER NOT NULL DEFAULT 0",
        },
        SchemaStep::AddColumn {
            table: "scan_runs",
            column: "plex_refresh_coalesced_paths",
            definition: "INTEGER NOT NULL DEFAULT 0",
        },
        SchemaStep::AddColumn {
            table: "scan_runs",
            column: "plex_refresh_refreshed_batches",
            definition: "INTEGER NOT NULL DEFAULT 0",
        },
        SchemaStep::AddColumn {
            table: "scan_runs",
            column: "plex_refresh_refreshed_paths_covered",
            definition: "INTEGER NOT NULL DEFAULT 0",
        },
        SchemaStep::AddColumn {
            table: "scan_runs",
            column: "plex_refresh_skipped_batches",
            definition: "INTEGER NOT NULL DEFAULT 0",
        },
        SchemaStep::AddColumn {
            table: "scan_runs",
            column: "plex_refresh_unresolved_paths",
            definition: "INTEGER NOT NULL DEFAULT 0",
        },
        SchemaStep::AddColumn {
            table: "scan_runs",
            column: "plex_refresh_capped_batches",
            definition: "INTEGER NOT NULL DEFAULT 0",
        },
        SchemaStep::AddColumn {
            table: "scan_runs",
            column: "plex_refresh_failed_batches",
            definition: "INTEGER NOT NULL DEFAULT 0",
        },
    ]
}

/// The steps to version 11.
pub open spec fn steps_to_11() -> Seq<SchemaStep> {
    seq![
        SchemaStep::AddColumn {
            table: "scan_runs",
            column: "plex_refresh_aborted_due_to_cap",
            definition: "INTEGER NOT NULL DEFAULT 0",
        },
    ]
}

/// The steps to version 12.
pub open spec fn steps_to_12() -> Seq<SchemaStep> {
    seq![
        SchemaStep::AddColumn {
            table: "scan_runs",
            column: "media_server_refresh_json",
            definition: "TEXT",
        },
    ]
}

/// The steps to version 13.
pub open spec fn steps_to_13() -> Seq<SchemaStep> {
    seq![
        SchemaStep::AddColumn {
            table: "scan_runs",
            column: "skip_reason_json",
            definition: "TEXT",
        },
    ]
}

/// The steps to version 14.
pub open spec fn steps_to_14() -> Seq<SchemaStep> {
    seq![
        SchemaStep::AddColumn {
            table: "scan_runs",
            column: "run_token",
            definition: "TEXT",
        },
        SchemaStep::AddColumn {
            table: "link_events",
            column: "run_token",
            definition: "TEXT",
        },
        SchemaStep::CreateIndex {
            index: "idx_link_events_run_token_event_at",
            on: "link_events(run_token, event_at)",
            unique: false,
        },
    ]
}

/// The steps to version 15.
pub open spec fn steps_to_15() -> Seq<SchemaStep> {
    seq![
        SchemaStep::AddColumn {
            table: "scan_runs",
            column: "origin",
            definition: "TEXT NOT NULL DEFAULT 'unknown'",
        },
    ]
}

/// The steps to version 16.
pub open spec fn steps_to_16() -> Seq<SchemaStep> {
    seq![
        SchemaStep::CreateTable {
            table: "daemon_heartbeat",
            columns: "singleton INTEGER PRIMARY KEY, last_seen_at TEXT NOT NULL DEFAULT CURRENT_TIMESTAMP, phase TEXT NOT NULL, detail TEXT",
        },
    ]
}

/// The steps to version 17.
pub open spec fn steps_to_17() -> Seq<SchemaStep> {
    seq![
        SchemaStep::CreateTable {
            table: "anime_search_overrides",
            columns: "media_id TEXT PRIMARY KEY, preferred_title TEXT, extra_hints_json TEXT NOT NULL DEFAULT '[]', note TEXT, created_at TEXT NOT NULL DEFAULT CURRENT_TIMESTAMP, updated_at TEXT NOT NULL DEFAULT CURRENT_TIMESTAMP",
        },
    ]
}

/// The steps to version 18.
pub open spec fn steps_to_18() -> Seq<SchemaStep> {
    seq![
        SchemaStep::CreateTable {
            table: "scheduler_rules",
            columns: "id INTEGER PRIMARY KEY AUTOINCREMENT, name TEXT NOT NULL, event_type TEXT NOT NULL, enabled INTEGER NOT NULL DEFAULT 1, trigger_json TEXT NOT NULL, run_window_json TEXT NOT NULL, event_args_json TEXT NOT NULL DEFAULT '{}', priority INTEGER NOT NULL DEFAULT 0, misfire_grace_minutes INTEGER NOT NULL DEFAULT 0, allow_destructive_auto INTEGER NOT NULL DEFAULT 0, max_delete INTEGER, safety_backup INTEGER NOT NULL DEFAULT 1, created_at TEXT NOT NULL DEFAULT CURRENT_TIMESTAMP, updated_at TEXT NOT NULL DEFAULT CURRENT_TIMESTAMP",
        },
    ]
}

/// The steps to version 19.
pub open spec fn steps_to_19() -> Seq<SchemaStep> {
    seq![
        SchemaStep::CreateTable {
            table: "scheduler_runs",
            columns: "id INTEGER PRIMARY KEY AUTOINCREMENT, rule_id INTEGER, event_type TEXT NOT NULL, planned_at TEXT NOT NULL, started_at TEXT, finished_at TEXT, status TEXT NOT NULL, message TEXT, output_refs_json TEXT",
        },
        SchemaStep::CreateIndex {
            index: "idx_scheduler_runs_rule_planned",
            on: "scheduler_runs(rule_id, planned_at)",
            unique: false,
        },
    ]
}

/// The steps to version 20.
pub open spec fn steps_to_20() -> Seq<SchemaStep> {
    seq![
        SchemaStep::CreateTable {
            table: "scheduler_state",
            columns: "key TEXT PRIMARY KEY, value TEXT NOT NULL, updated_at TEXT NOT NULL DEFAULT CURRENT_TIMESTAMP",
        },
    ]
}

/// The steps to version 21.
pub open spec fn steps_to_21() -> Seq<SchemaStep> {
    seq![
        SchemaStep::CreateTable {
            table: "operation_runs",
            columns: "id INTEGER PRIMARY KEY AUTOINCREMENT, lock_key TEXT NOT NULL, kind TEXT NOT NULL, origin TEXT NOT NULL, scope TEXT, status TEXT NOT NULL, started_at TEXT NOT NULL DEFAULT CURRENT_TIMESTAMP, heartbeat_at TEXT NOT NULL DEFAULT CURRENT_TIMESTAMP, finished_at TEXT, message TEXT, result_json TEXT",
        },
        SchemaStep::CreateIndex {
            index: "idx_operation_runs_running",
            on: "operation_runs(lock_key) WHERE status = 'running'",
            unique: true,
        },
    ]
}

/// The steps to version 22.
pub open spec fn steps_to_22() -> Seq<SchemaStep> {
    seq![
        SchemaStep::CreateTable {
            table: "source_pins",
            columns: "source_folder TEXT PRIMARY KEY, media_id TEXT NOT NULL, origin TEXT NOT NULL, note TEXT, updated_at TEXT NOT NULL DEFAULT CURRENT_TIMESTAMP",
        },
    ]
}

fn migration_v1() -> (steps: Vec<SchemaStep>)
    ensures
        steps@ == steps_to_1(),
{
    let steps = vec![
        SchemaStep::CreateTable {
            table: "links",
            columns: "id INTEGER PRIMARY KEY AUTOINCREMENT, source_path TEXT NOT NULL, target_path TEXT NOT NULL UNIQUE, media_id TEXT NOT NULL, media_type TEXT NOT NULL, status TEXT NOT NULL DEFAULT 'active', created_at DATETIME DEFAULT CURRENT_TIMESTAMP, updated_at DATETIME DEFAULT CURRENT_TIMESTAMP",
        },
        SchemaStep::CreateTable {
            table: "api_cache",
            columns: "id INTEGER PRIMARY KEY AUTOINCREMENT, cache_key TEXT NOT NULL UNIQUE, response_json TEXT NOT NULL, fetched_at DATETIME DEFAULT CURRENT_TIMESTAMP, ttl_hours INTEGER NOT NULL DEFAULT 168",
        },
        SchemaStep::CreateIndex {
            index: "idx_links_status",
            on: "links(status)",
            unique: false,
        },
        SchemaStep::CreateIndex {
            index: "idx_links_media_id",
            on: "links(media_id)",
            unique: false,
        },
        SchemaStep::CreateIndex {
            index: "idx_api_cache_key",
            on: "api_cache(cache_key)",
            unique: false,
        },
    ];
    assert(steps@ =~= steps_to_1());
    steps
}

fn migration_v2() -> (steps: Vec<SchemaStep>)
    ensures
        steps@ == steps_to_2(),
{
    let steps = vec![
        SchemaStep::CreateTable {
            table: "scan_history",
            columns: "id INTEGER PRIMARY KEY AUTOINCREMENT, scan_at DATETIME DEFAULT CURRENT_TIMESTAMP, library_items_found INTEGER NOT NULL DEFAULT 0, source_items_found INTEGER NOT NULL DEFAULT 0, matches_found INTEGER NOT NULL DEFAULT 0, links_created INTEGER NOT NULL DEFAULT 0",
        },
        SchemaStep::CreateTable {
            table: "rd_torrents",
            columns: "id INTEGER PRIMARY KEY AUTOINCREMENT, torrent_id TEXT NOT NULL UNIQUE, hash TEXT NOT NULL, filename TEXT NOT NULL, status TEXT NOT NULL, files_json TEXT NOT NULL, scanned_at DATETIME DEFAULT CURRENT_TIMESTAMP",
        },
        SchemaStep::CreateIndex {
            index: "idx_rd_torrents_id",
            on: "rd_torrents(torrent_id)",
            unique: false,
        },
    ];
    assert(steps@ =~= steps_to_2());
    steps
}

fn migration_v3() -> (steps: Vec<SchemaStep>)
    ensures
        steps@ == steps_to_3(),
{
    let steps = vec![
        SchemaStep::CreateTable {
            table: "scan_runs",
            columns: "id INTEGER PRIMARY KEY AUTOINCREMENT, run_at DATETIME DEFAULT CURRENT_TIMESTAMP, dry_run INTEGER NOT NULL DEFAULT 0, library_filter TEXT, run_token TEXT, search_missing INTEGER NOT NULL DEFAULT 0, library_items_found INTEGER NOT NULL DEFAULT 0, source_items_found INTEGER NOT NULL DEFAULT 0, matches_found INTEGER NOT NULL DEFAULT 0, links_created INTEGER NOT NULL DEFAULT 0, links_updated INTEGER NOT NULL DEFAULT 0, dead_marked INTEGER NOT NULL DEFAULT 0, links_removed INTEGER NOT NULL DEFAULT 0, links_skipped INTEGER NOT NULL DEFAULT 0, ambiguous_skipped INTEGER NOT NULL DEFAULT 0, skip_reason_json TEXT, runtime_checks_ms INTEGER NOT NULL DEFAULT 0, library_scan_ms INTEGER NOT NULL DEFAULT 0, source_inventory_ms INTEGER NOT NULL DEFAULT 0, matching_ms INTEGER NOT NULL DEFAULT 0, title_enrichment_ms INTEGER NOT NULL DEFAULT 0, linking_ms INTEGER NOT NULL DEFAULT 0, plex_refresh_ms INTEGER NOT NULL DEFAULT 0, dead_link_sweep_ms INTEGER NOT NULL DEFAULT 0, cache_hit_ratio REAL, candidate_slots INTEGER NOT NULL DEFAULT 0, scored_candidates INTEGER NOT NULL DEFAULT 0, exact_id_hits INTEGER NOT NULL DEFAULT 0, auto_acquire_requests INTEGER NOT NULL DEFAULT 0, auto_acquire_missing_requests INTEGER NOT NULL DEFAULT 0, auto_acquire_cutoff_requests INTEGER NOT NULL DEFAULT 0, auto_acquire_dry_run_hits INTEGER NOT NULL DEFAULT 0, auto_acquire_submitted INTEGER NOT NULL DEFAULT 0, auto_acquire_no_result INTEGER NOT NULL DEFAULT 0, auto_acquire_blocked INTEGER NOT NULL DEFAULT 0, auto_acquire_failed INTEGER NOT NULL DEFAULT 0, auto_acquire_completed_linked INTEGER NOT NULL DEFAULT 0, auto_acquire_completed_unlinked INTEGER NOT NULL DEFAULT 0",
        },
        SchemaStep::CreateIndex {
            index: "idx_scan_runs_run_at",
            on: "scan_runs(run_at)",
            unique: false,
        },
    ];
    assert(steps@ =~= steps_to_3());
    steps
}

fn migration_v4() -> (steps: Vec<SchemaStep>)
    ensures
        steps@ == steps_to_4(),
{
    let steps = vec![
        SchemaStep::CreateTable {
            table: "link_events",
            columns: "id INTEGER PRIMARY KEY AUTOINCREMENT, run_id INTEGER, run_token TEXT, event_at DATETIME DEFAULT CURRENT_TIMESTAMP, action TEXT NOT NULL, target_path TEXT NOT NULL, source_path TEXT, media_id TEXT, note TEXT",
        },
        SchemaStep::CreateIndex {
            index: "idx_link_events_action",
            on: "link_events(action)",
            unique: false,
        },
        SchemaStep::CreateIndex {
            index: "idx_link_events_target",
            on: "link_events(target_path)",
            unique: false,
        },
    ];
    assert(steps@ =~= steps_to_4());
    steps
}

fn migration_v5() -> (steps: Vec<SchemaStep>)
    ensures
        steps@ == steps_to_5(),
{
    let steps = vec![
        SchemaStep::CreateTable {
            table: "acquisition_jobs",
            columns: "id INTEGER PRIMARY KEY AUTOINCREMENT, request_key TEXT NOT NULL UNIQUE, label TEXT NOT NULL, query TEXT NOT NULL, categories_json TEXT NOT NULL, arr TEXT NOT NULL, library_filter TEXT, relink_kind TEXT NOT NULL, relink_value TEXT NOT NULL, status TEXT NOT NULL DEFAULT 'queued', release_title TEXT, info_hash TEXT, error TEXT, attempts INTEGER NOT NULL DEFAULT 0, next_retry_at TEXT, submitted_at TEXT, completed_at TEXT, created_at TEXT NOT NULL DEFAULT CURRENT_TIMESTAMP, updated_at TEXT NOT NULL DEFAULT CURRENT_TIMESTAMP",
        },
        SchemaStep::CreateIndex {
            index: "idx_acquisition_jobs_status",
            on: "acquisition_jobs(status)",
            unique: false,
        },
        SchemaStep::CreateIndex {
            index: "idx_acquisition_jobs_retry",
            on: "acquisition_jobs(status, next_retry_at)",
            unique: false,
        },
    ];
    assert(steps@ =~= steps_to_5());
    steps
}

fn migration_v6() -> (steps: Vec<SchemaStep>)
    ensures
        steps@ == steps_to_6(),
{
    let steps = vec![
        SchemaStep::AddColumn {
            table: "acquisition_jobs",
            column: "imdb_id",
            definition: "TEXT",
        },
    ];
    assert(steps@ =~= steps_to_6());
    steps
}

fn migration_v7() -> (steps: Vec<SchemaStep>)
    ensures
        steps@ == steps_to_7(),
{
    let steps = vec![
        SchemaStep::AddColumn {
            table: "acquisition_jobs",
            column: "query_hints_json",
            definition: "TEXT NOT NULL DEFAULT '[]'",
        },
    ];
    assert(steps@ =~= steps_to_7());
    steps
}

fn migration_v8() -> (steps: Vec<SchemaStep>)
    ensures
        steps@ == steps_to_8(),
{
    let steps = vec![
        SchemaStep::AddColumn {
            table: "scan_runs",
            column: "library_filter",
            definition: "TEXT",
        },
        SchemaStep::AddColumn {
            table: "scan_runs",
            column: "search_missing",
            definition: "INTEGER NOT NULL DEFAULT 0",
        },
        SchemaStep::AddColumn {
            table: "scan_runs",
            column: "runtime_checks_ms",
            definition: "INTEGER NOT NULL DEFAULT 0",
        },
        SchemaStep::AddColumn {
            table: "scan_runs",
            column: "library_scan_ms",
            definition: "INTEGER NOT NULL DEFAULT 0",
        },
        SchemaStep::AddColumn {
            table: "scan_runs",
            column: "source_inventory_ms",
            definition: "INTEGER NOT NULL DEFAULT 0",
        },
        SchemaStep::AddColumn {
            table: "scan_runs",
            column: "matching_ms",
            definition: "INTEGER NOT NULL DEFAULT 0",
        },
        SchemaStep::AddColumn {
            table: "scan_runs",
            column: "title_enrichment_ms",
            definition: "INTEGER NOT NULL DEFAULT 0",
        },
        SchemaStep::AddColumn {
            table: "scan_runs",
            column: "linking_ms",
            definition: "INTEGER NOT NULL DEFAULT 0",
        },
        SchemaStep::AddColumn {
            table: "scan_runs",
            column: "plex_refresh_ms",
            definition: "INTEGER NOT NULL DEFAULT 0",
        },
        SchemaStep::AddColumn {
            table: "scan_runs",
            column: "dead_link_sweep_ms",
            definition: "INTEGER NOT NULL DEFAULT 0",
        },
        SchemaStep::AddColumn {
            table: "scan_runs",
            column: "cache_hit_ratio",
            definition: "REAL",
        },
        SchemaStep::AddColumn {
            table: "scan_runs",
            column: "candidate_slots",
            definition: "INTEGER NOT NULL DEFAULT 0",
        },
        SchemaStep::AddColumn {
            table: "scan_runs",
            column: "scored_candidates",
            definition: "INTEGER NOT NULL DEFAULT 0",
        },
        SchemaStep::AddColumn {
            table: "scan_runs",
            column: "exact_id_hits",
            definition: "INTEGER NOT NULL DEFAULT 0",
        },
        SchemaStep::AddColumn {
            table: "scan_runs",
            column: "auto_acquire_requests",
            definition: "INTEGER NOT NULL DEFAULT 0",
        },
        SchemaStep::AddColumn {
            table: "scan_runs",
            column: "auto_acquire_missing_requests",
            definition: "INTEGER NOT NULL DEFAULT 0",
        },
        SchemaStep::AddColumn {
            table: "scan_runs",
            column: "auto_acquire_cutoff_requests",
            definition: "INTEGER NOT NULL DEFAULT 0",
        },
        SchemaStep::AddColumn {
            table: "scan_runs",
            column: "auto_acquire_dry_run_hits",
            definition: "INTEGER NOT NULL DEFAULT 0",
        },
        SchemaStep::AddColumn {
            table: "scan_runs",
            column: "auto_acquire_submitted",
            definition: "INTEGER NOT NULL DEFAULT 0",
        },
        SchemaStep::AddColumn {
            table: "scan_runs",
            column: "auto_acquire_no_result",
            definition: "INTEGER NOT NULL DEFAULT 0",
        },
        SchemaStep::AddColumn {
            table: "scan_runs",
            column: "auto_acquire_blocked",
            definition: "INTEGER NOT NULL DEFAULT 0",
        },
        SchemaStep::AddColumn {
            table: "scan_runs",
            column: "auto_acquire_failed",
            definition: "INTEGER NOT NULL DEFAULT 0",
        },
        SchemaStep::AddColumn {
            table: "scan_runs",
            column: "auto_acquire_completed_linked",
            definition: "INTEGER NOT NULL DEFAULT 0",
        },
        SchemaStep::AddColumn {
            table: "scan_runs",
            column: "auto_acquire_completed_unlinked",
            definition: "INTEGER NOT NULL DEFAULT 0",
        },
    ];
    assert(steps@ =~= steps_to_8());
    steps
}

fn migration_v9() -> (steps: Vec<SchemaStep>)
    ensures
        steps@ == steps_to_9(),
{
    let steps = vec![
        SchemaStep::CreateIndex {
            index: "idx_links_status_target",
            on: "links(status, target_path)",
            unique: false,
        },
    ];
    assert(steps@ =~= steps_to_9());
    steps
}

fn migration_v10() -> (steps: Vec<SchemaStep>)
    ensures
        steps@ == steps_to_10(),
{
    let steps = vec![
        SchemaStep::AddColumn {
            table: "scan_runs",
            column: "plex_refresh_requested_paths",
            definition: "INTEGER NOT NULL DEFAULT 0",
        },
        SchemaStep::AddColumn {
            table: "scan_runs",
            column: "plex_refresh_unique_paths",
            definition: "INTEGER NOT NULL DEFAULT 0",
        },
        SchemaStep::AddColumn {
            table: "scan_runs",
            column: "plex_refresh_planned_batches",
            definition: "INTEGER NOT NULL DEFAULT 0",
        },
        SchemaStep::AddColumn {
            table: "scan_runs",
            column: "plex_refresh_coalesced_batches",
            definition: "INTEGER NOT NULL DEFAULT 0",
        },
        SchemaStep::AddColumn {
            table: "scan_runs",
            column: "plex_refresh_coalesced_paths",
            definition: "INTEGER NOT NULL DEFAULT 0",
        },
        SchemaStep::AddColumn {
            table: "scan_runs",
            column: "plex_refresh_refreshed_batches",
            definition: "INTEGER NOT NULL DEFAULT 0",
        },
        SchemaStep::AddColumn {
            table: "scan_runs",
            column: "plex_refresh_refreshed_paths_covered",
            definition: "INTEGER NOT NULL DEFAULT 0",
        },
        SchemaStep::AddColumn {
            table: "scan_runs",
            column: "plex_refresh_skipped_batches",
            definition: "INTEGER NOT NULL DEFAULT 0",
        },
        SchemaStep::AddColumn {
            table: "scan_runs",
            column: "plex_refresh_unresolved_paths",
            definition: "INTEGER NOT NULL DEFAULT 0",
        },
        SchemaStep::AddColumn {
            table: "scan_runs",
            column: "plex_refresh_capped_batches",
            definition: "INTEGER NOT NULL DEFAULT 0",
        },
        SchemaStep::AddColumn {
            table: "scan_runs",
            column: "plex_refresh_failed_batches",
            definition: "INTEGER NOT NULL DEFAULT 0",
        },
    ];
    assert(steps@ =~= steps_to_10());
    steps
}

fn migration_v11() -> (steps: Vec<SchemaStep>)
    ensures
        steps@ == steps_to_11(),
{
    let steps = vec![
        SchemaStep::AddColumn {
            table: "scan_runs",
            column: "plex_refresh_aborted_due_to_cap",
            definition: "INTEGER NOT NULL DEFAULT 0",
        },
    ];
    assert(steps@ =~= steps_to_11());
    steps
}

fn migration_v12() -> (steps: Vec<SchemaStep>)
    ensures
        steps@ == steps_to_12(),
{
    let steps = vec![
        SchemaStep::AddColumn {
            table: "scan_runs",
            column: "media_server_refresh_json",
            definition: "TEXT",
        },
    ];
    assert(steps@ =~= steps_to_12());
    steps
}

fn migration_v13() -> (steps: Vec<SchemaStep>)
    ensures
        steps@ == steps_to_13(),
{
    let steps = vec![
        SchemaStep::AddColumn {
            table: "scan_runs",
            column: "skip_reason_json",
            definition: "TEXT",
        },
    ];
    assert(steps@ =~= steps_to_13());
    steps
}

fn migration_v14() -> (steps: Vec<SchemaStep>)
    ensures
        steps@ == steps_to_14(),
{
    let steps = vec![
        SchemaStep::AddColumn {
            table: "scan_runs",
            column: "run_token",
            definition: "TEXT",
        },
        SchemaStep::AddColumn {
            table: "link_events",
            column: "run_token",
            definition: "TEXT",
        },
        SchemaStep::CreateIndex {
            index: "idx_link_events_run_token_event_at",
            on: "link_events(run_token, event_at)",
            unique: false,
        },
    ];
    assert(steps@ =~= steps_to_14());
    steps
}

fn migration_v15() -> (steps: Vec<SchemaStep>)
    ensures
        steps@ == steps_to_15(),
{
    let steps = vec![
        SchemaStep::AddColumn {
            table: "scan_runs",
            column: "origin",
            definition: "TEXT NOT NULL DEFAULT 'unknown'",
        },
    ];
    assert(steps@ =~= steps_to_15());
    steps
}

fn migration_v16() -> (steps: Vec<SchemaStep>)
    ensures
        steps@ == steps_to_16(),
{
    let steps = vec![
        SchemaStep::CreateTable {
            table: "daemon_heartbeat",
            columns: "singleton INTEGER PRIMARY KEY, last_seen_at TEXT NOT NULL DEFAULT CURRENT_TIMESTAMP, phase TEXT NOT NULL, detail TEXT",
        },
    ];
    assert(steps@ =~= steps_to_16());
    steps
}

fn migration_v17() -> (steps: Vec<SchemaStep>)
    ensures
        steps@ == steps_to_17(),
{
    let steps = vec![
        SchemaStep::CreateTable {
            table: "anime_search_overrides",
            columns: "media_id TEXT PRIMARY KEY, preferred_title TEXT, extra_hints_json TEXT NOT NULL DEFAULT '[]', note TEXT, created_at TEXT NOT NULL DEFAULT CURRENT_TIMESTAMP, updated_at TEXT NOT NULL DEFAULT CURRENT_TIMESTAMP",
        },
    ];
    assert(steps@ =~= steps_to_17());
    steps
}

fn migration_v18() -> (steps: Vec<SchemaStep>)
    ensures
        steps@ == steps_to_18(),
{
    let steps = vec![
        SchemaStep::CreateTable {
            table: "scheduler_rules",
            columns: "id INTEGER PRIMARY KEY AUTOINCREMENT, name TEXT NOT NULL, event_type TEXT NOT NULL, enabled INTEGER NOT NULL DEFAULT 1, trigger_json TEXT NOT NULL, run_window_json TEXT NOT NULL, event_args_json TEXT NOT NULL DEFAULT '{}', priority INTEGER NOT NULL DEFAULT 0, misfire_grace_minutes INTEGER NOT NULL DEFAULT 0, allow_destructive_auto INTEGER NOT NULL DEFAULT 0, max_delete INTEGER, safety_backup INTEGER NOT NULL DEFAULT 1, created_at TEXT NOT NULL DEFAULT CURRENT_TIMESTAMP, updated_at TEXT NOT NULL DEFAULT CURRENT_TIMESTAMP",
        },
    ];
    assert(steps@ =~= steps_to_18());
    steps
}

fn migration_v19() -> (steps: Vec<SchemaStep>)
    ensures
        steps@ == steps_to_19(),
{
    let steps = vec![
        SchemaStep::CreateTable {
            table: "scheduler_runs",
            columns: "id INTEGER PRIMARY KEY AUTOINCREMENT, rule_id INTEGER, event_type TEXT NOT NULL, planned_at TEXT NOT NULL, started_at TEXT, finished_at TEXT, status TEXT NOT NULL, message TEXT, output_refs_json TEXT",
        },
        SchemaStep::CreateIndex {
            index: "idx_scheduler_runs_rule_planned",
            on: "scheduler_runs(rule_id, planned_at)",
            unique: false,
        },
    ];
    assert(steps@ =~= steps_to_19());
    steps
}

fn migration_v20() -> (steps: Vec<SchemaStep>)
    ensures
        steps@ == steps_to_20(),
{
    let steps = vec![
        SchemaStep::CreateTable {
            table: "scheduler_state",
            columns: "key TEXT PRIMARY KEY, value TEXT NOT NULL, updated_at TEXT NOT NULL DEFAULT CURRENT_TIMESTAMP",
        },
    ];
    assert(steps@ =~= steps_to_20());
    steps
}

fn migration_v21() -> (steps: Vec<SchemaStep>)
    ensures
        steps@ == steps_to_21(),
{
    let steps = vec![
        SchemaStep::CreateTable {
            table: "operation_runs",
            columns: "id INTEGER PRIMARY KEY AUTOINCREMENT, lock_key TEXT NOT NULL, kind TEXT NOT NULL, origin TEXT NOT NULL, scope TEXT, status TEXT NOT NULL, started_at TEXT NOT NULL DEFAULT CURRENT_TIMESTAMP, heartbeat_at TEXT NOT NULL DEFAULT CURRENT_TIMESTAMP, finished_at TEXT, message TEXT, result_json TEXT",
        },
        SchemaStep::CreateIndex {
            index: "idx_operation_runs_running",
            on: "operation_runs(lock_key) WHERE status = 'running'",
            unique: true,
        },
    ];
    assert(steps@ =~= steps_to_21());
    steps
}

fn migration_v22() -> (steps: Vec<SchemaStep>)
    ensures
        steps@ == steps_to_22(),
{
    let steps = vec![
        SchemaStep::CreateTable {
            table: "source_pins",
            columns: "source_folder TEXT PRIMARY KEY, media_id TEXT NOT NULL, origin TEXT NOT NULL, note TEXT, updated_at TEXT NOT NULL DEFAULT CURRENT_TIMESTAMP",
        },
    ];
    assert(steps@ =~= steps_to_22());
    steps
}

/// The steps to a version from the one before it.
pub open spec fn steps_to(version: int) -> Seq<SchemaStep> {
    if version == 1 {
        steps_to_1()
    } else if version == 2 {
        steps_to_2()
    } else if version == 3 {
        steps_to_3()
    } else if version == 4 {
        steps_to_4()
    } else if version == 5 {
        steps_to_5()
    } else if version == 6 {
        steps_to_6()
    } else if version == 7 {
        steps_to_7()
    } else if version == 8 {
        steps_to_8()
    } else if version == 9 {
        steps_to_9()
    } else if version == 10 {
        steps_to_10()
    } else if version == 11 {
        steps_to_11()
    } else if version == 12 {
        steps_to_12()
    } else if version == 13 {
        steps_to_13()
    } else if version == 14 {
        steps_to_14()
    } else if version == 15 {
        steps_to_15()
    } else if version == 16 {
        steps_to_16()
    } else if version == 17 {
        steps_to_17()
    } else if version == 18 {
        steps_to_18()
    } else if version == 19 {
        steps_to_19()
    } else if version == 20 {
        steps_to_20()
    } else if version == 21 {
        steps_to_21()
    } else if version == 22 {
        steps_to_22()
    } else {
        Seq::<SchemaStep>::empty()
    }
}

/// The steps to a version from the one before it; an error for a version that is not
/// known.
pub fn apply_migration(version: i64) -> (out: Result<Vec<SchemaStep>, String>)
    ensures
        match out {
            Ok(steps) => 1 <= version <= LATEST_SCHEMA_VERSION && steps@ == steps_to(
                version as int,
            ),
            Err(message) => !(1 <= version <= LATEST_SCHEMA_VERSION) && message@
                == "Unsupported schema migration version "@ + text::signed_decimal(version as int)
                + ". This build only knows migrations 1 through 22"@,
        },
{
    match version {
        1 => Ok(migration_v1()),
        2 => Ok(migration_v2()),
        3 => Ok(migration_v3()),
        4 => Ok(migration_v4()),
        5 => Ok(migration_v5()),
        6 => Ok(migration_v6()),
        7 => Ok(migration_v7()),
        8 => Ok(migration_v8()),
        9 => Ok(migration_v9()),
        10 => Ok(migration_v10()),
        11 => Ok(migration_v11()),
        12 => Ok(migration_v12()),
        13 => Ok(migration_v13()),
        14 => Ok(migration_v14()),
        15 => Ok(migration_v15()),
        16 => Ok(migration_v16()),
        17 => Ok(migration_v17()),
        18 => Ok(migration_v18()),
        19 => Ok(migration_v19()),
        20 => Ok(migration_v20()),
        21 => Ok(migration_v21()),
        22 => Ok(migration_v22()),
        _ => Err(
            text::concat3(
                "Unsupported schema migration version ",
                text::signed_text(version).as_str(),
                ". This build only knows migrations 1 through 22",
            ),
        ),
    }
}

/// The steps back from a version to the one before it: what was added goes, in the
/// reverse order. The first version stays.
pub open spec fn steps_from(version: int) -> Seq<SchemaStep> {
    if version == 1 {
        Seq::<SchemaStep>::empty()
    } else {
        undone_steps(steps_to(version))
    }
}

/// The steps that take back other steps, last one first.
pub open spec fn undone_steps(steps: Seq<SchemaStep>) -> Seq<SchemaStep>
    decreases steps.len(),
{
    if steps.len() == 0 {
        steps
    } else {
        seq![steps.last().undo()] + undone_steps(steps.drop_last())
    }
}

/// The steps back from a version to the one before it; an error for a version that
/// is not known.
pub fn migrate_down_one(current_version: i64) -> (out: Result<Vec<SchemaStep>, String>)
    ensures
        match out {
            Ok(steps) => 1 <= current_version <= LATEST_SCHEMA_VERSION && steps@ == steps_from(
                current_version as int,
            ),
            Err(message) => !(1 <= current_version <= LATEST_SCHEMA_VERSION) && message@
                == "Cannot migrate down unknown version "@ + text::signed_decimal(
                current_version as int,
            ),
        },
{
    let up = match apply_migration(current_version) {
        Ok(steps) => steps,
        Err(_) => {
            return Err(
                text::concat2(
                    "Cannot migrate down unknown version ",
                    text::signed_text(current_version).as_str(),
                ),
            );
        },
    };
    let mut down: Vec<SchemaStep> = Vec::new();
    if current_version == 1 {
        assert(down@ =~= steps_from(1));
        return Ok(down);
    }
    let mut n: usize = up.len();
    assert(up@.take(n as int) =~= up@);
    assert(down@ + undone_steps(up@.take(n as int)) =~= undone_steps(up@));
    while n > 0
        invariant
            n <= up@.len(),
            down@ + undone_steps(up@.take(n as int)) == undone_steps(up@),
        decreases n,
    {
        let ghost before = down@;
        let ghost rest = up@.take(n as int);
        n -= 1;
        down.push(up[n].undone());
        assert(rest.drop_last() =~= up@.take(n as int));
        assert(rest.last() == up@[n as int]);
        assert(down@ + undone_steps(up@.take(n as int)) =~= before + undone_steps(rest));
    }
    assert(down@ + undone_steps(up@.take(0)) =~= down@);
    Ok(down)
}

// ---------------------------------------------------------------------------
// Which versions are passed through

/// What is known of a database without a version.
#[derive(Debug, Clone, Copy, PartialEq, Eq, Structural)]
pub struct LegacySchema {
    pub has_acquisition_jobs: bool,
    /// The column `auto_acquire_requests` of `scan_runs`.
    pub has_auto_acquire_requests: bool,
    /// The column `query_hints_json` of `acquisition_jobs`.
    pub has_query_hints: bool,
    /// The column `imdb_id` of `acquisition_jobs`.
    pub has_imdb_id: bool,
    pub has_link_events: bool,
    pub has_scan_runs: bool,
    pub has_rd_torrents: bool,
    pub has_links: bool,
}

/// The version that a database without one must have: that of the last thing that is
/// there.
pub open spec fn legacy_version(schema: LegacySchema) -> int {
    if schema.has_acquisition_jobs && schema.has_auto_acquire_requests {
        8
    } else if schema.has_acquisition_jobs && schema.has_query_hints {
        7
    } else if schema.has_acquisition_jobs && schema.has_imdb_id {
        6
    } else if schema.has_acquisition_jobs {
        5
    } else if schema.has_link_events {
        4
    } else if schema.has_scan_runs {
        3
    } else if schema.has_rd_torrents || schema.has_links {
        2
    } else {
        0
    }
}

/// The version that a database without one must have.
pub fn infer_legacy_schema_version(schema: &LegacySchema) -> (out: i64)
    ensures
        out == legacy_version(*schema),
{
    if schema.has_acquisition_jobs {
        if schema.has_auto_acquire_requests {
            8
        } else if schema.has_query_hints {
            7
        } else if schema.has_imdb_id {
            6
        } else {
            5
        }
    } else if schema.has_link_events {
        4
    } else if schema.has_scan_runs {
        3
    } else if schema.has_rd_torrents || schema.has_links {
        2
    } else {
        0
    }
}

/// The versions from `low + 1` to `high`, in order.
pub open spec fn versions_up(low: int, high: int) -> Seq<i64>
    decreases high - low,
{
    if high <= low {
        Seq::<i64>::empty()
    } else {
        versions_up(low, high - 1).push(high as i64)
    }
}

/// The versions from `high` down to `low + 1`, in order.
pub open spec fn versions_down(high: int, low: int) -> Seq<i64>
    decreases high - low,
{
    if high <= low {
        Seq::<i64>::empty()
    } else {
        versions_down(high, low + 1).push((low + 1) as i64)
    }
}

/// The versions that a database at `version` is moved up through.
pub fn run_migrations(version: i64) -> (out: Vec<i64>)
    ensures
        out@ == versions_up(version as int, LATEST_SCHEMA_VERSION as int),
{
    let mut out: Vec<i64> = Vec::new();
    let mut current: i64 = version;
    while current < LATEST_SCHEMA_VERSION
        invariant
            version >= LATEST_SCHEMA_VERSION ==> current == version,
            version < LATEST_SCHEMA_VERSION ==> version <= current <= LATEST_SCHEMA_VERSION,
            out@ == versions_up(version as int, current as int),
        decreases LATEST_SCHEMA_VERSION - current,
    {
        current += 1;
        out.push(current);
    }
    out
}

/// A way from one version to another.
#[derive(Debug, PartialEq, Eq)]
pub struct MigrationPath {
    /// The versions that are applied, in order.
    pub up: Vec<i64>,
    /// The versions that are taken back, in order.
    pub down: Vec<i64>,
}

/// The way from a version to another; an error where the other is not known.
pub fn migrate_to(current: i64, target_version: i64) -> (out: Result<MigrationPath, String>)
    ensures
        match out {
            Ok(path) => {
                &&& 1 <= target_version <= LATEST_SCHEMA_VERSION
                &&& path.up@ == versions_up(current as int, target_version as int)
                &&& path.down@ == versions_down(current as int, target_version as int)
            },
            Err(message) => !(1 <= target_version <= LATEST_SCHEMA_VERSION) && message@
                == "Target schema version "@ + text::signed_decimal(target_version as int)
                + " out of range 1..=22"@,
        },
{
    if target_version < 1 || target_version > LATEST_SCHEMA_VERSION {
        return Err(
            text::concat3(
                "Target schema version ",
                text::signed_text(target_version).as_str(),
                " out of range 1..=22",
            ),
        );
    }
    let mut up: Vec<i64> = Vec::new();
    let mut at: i64 = current;
    while at < target_version
        invariant
            1 <= target_version <= LATEST_SCHEMA_VERSION,
            current >= target_version ==> at == current,
            current < target_version ==> current <= at <= target_version,
            up@ == versions_up(current as int, at as int),
        decreases target_version - at,
    {
        at += 1;
        up.push(at);
    }
    assert(up@ =~= versions_up(current as int, target_version as int));
    let mut down: Vec<i64> = Vec::new();
    while at > target_version
        invariant
            1 <= target_version <= LATEST_SCHEMA_VERSION,
            current >= target_version ==> target_version <= at <= current,
            current < target_version ==> at == target_version,
            down@ == versions_down(current as int, at as int),
        decreases at - target_version,
    {
        down.push(at);
        at -= 1;
    }
    Ok(MigrationPath { up, down })
}

// ---------------------------------------------------------------------------
// What the steps do

/// The tables of a database with their columns, and its indexes.
#[verifier::ext_equal]
pub struct Schema {
    pub tables: Map<Seq<char>, Set<Seq<char>>>,
    pub indexes: Set<Seq<char>>,
}

/// The names of the columns of a table's definition: the first word of each part.
pub open spec fn column_names(columns: Seq<char>) -> Set<Seq<char>> {
    Set::new(
        |name: Seq<char>|
            exists|i: int|
                0 <= i < text::split(columns, ',').len() && name == text::split(
                    text::trim(#[trigger] text::split(columns, ',')[i]),
                    ' ',
                )[0],
    )
}

impl Schema {
    /// The schema once a step is made.
    pub open spec fn after(self, step: SchemaStep) -> Schema {
        match step {
            SchemaStep::CreateTable { table, columns } => if self.tables.contains_key(table@) {
                self
            } else {
                Schema { tables: self.tables.insert(table@, column_names(columns@)), ..self }
            },
            SchemaStep::AddColumn { table, column, definition } => if self.tables.contains_key(
                table@,
            ) {
                Schema {
                    tables: self.tables.insert(table@, self.tables[table@].insert(column@)),
                    ..self
                }
            } else {
                self
            },
            SchemaStep::CreateIndex { index, on, unique } => Schema {
                indexes: self.indexes.insert(index@),
                ..self
            },
            SchemaStep::DropTable { table } => Schema { tables: self.tables.remove(table@), ..self },
            SchemaStep::DropColumn { table, column } => if self.tables.contains_key(table@) {
                Schema {
                    tables: self.tables.insert(table@, self.tables[table@].remove(column@)),
                    ..self
                }
            } else {
                self
            },
            SchemaStep::DropIndex { index } => Schema {
                indexes: self.indexes.remove(index@),
                ..self
            },
        }
    }

    /// The schema once the steps are made, in order.
    pub open spec fn after_all(self, steps: Seq<SchemaStep>) -> Schema
        decreases steps.len(),
    {
        if steps.len() == 0 {
            self
        } else {
            self.after_all(steps.drop_last()).after(steps.last())
        }
    }

    /// Whether what a step adds is there.
    pub open spec fn has(self, step: SchemaStep) -> bool {
        match step {
            SchemaStep::CreateTable { table, columns } => self.tables.contains_key(table@),
            SchemaStep::AddColumn { table, column, definition } => self.tables.contains_key(table@)
                && self.tables[table@].contains(column@),
            SchemaStep::CreateIndex { index, on, unique } => self.indexes.contains(index@),
            _ => false,
        }
    }

    /// Whether the tables that get columns are there.
    pub open spec fn has_tables_for(self, steps: Seq<SchemaStep>) -> bool {
        forall|i: int|
            #![trigger steps[i]]
            0 <= i < steps.len() ==> match steps[i] {
                SchemaStep::AddColumn { table, column, definition } => self.tables.contains_key(
                    table@,
                ),
                _ => true,
            }
    }
}

/// Whether all steps add something.
pub open spec fn all_build(steps: Seq<SchemaStep>) -> bool {
    forall|i: int| 0 <= i < steps.len() ==> (#[trigger] steps[i]).builds()
}

/// What is there stays there while things are added.
proof fn lemma_building_keeps(schema: Schema, steps: Seq<SchemaStep>, kept: SchemaStep)
    requires
        all_build(steps),
        schema.has(kept),
    ensures
        schema.after_all(steps).has(kept),
    decreases steps.len(),
{
    if steps.len() > 0 {
        assert(steps.last().builds());
        assert forall|i: int| 0 <= i < steps.drop_last().len() implies (
        #[trigger] steps.drop_last()[i]).builds() by {
            assert(steps[i].builds());
        }
        lemma_building_keeps(schema, steps.drop_last(), kept);
    }
}

/// Tables stay while things are added.
proof fn lemma_building_keeps_table(schema: Schema, steps: Seq<SchemaStep>, table: Seq<char>)
    requires
        all_build(steps),
        schema.tables.contains_key(table),
    ensures
        schema.after_all(steps).tables.contains_key(table),
    decreases steps.len(),
{
    if steps.len() > 0 {
        assert(steps.last().builds());
        assert forall|i: int| 0 <= i < steps.drop_last().len() implies (
        #[trigger] steps.drop_last()[i]).builds() by {
            assert(steps[i].builds());
        }
        lemma_building_keeps_table(schema, steps.drop_last(), table);
    }
}

/// Once the steps are made, what they add is there.
proof fn lemma_built(schema: Schema, steps: Seq<SchemaStep>, i: int)
    requires
        all_build(steps),
        schema.has_tables_for(steps),
        0 <= i < steps.len(),
    ensures
        schema.after_all(steps).has(steps[i]),
    decreases steps.len(),
{
    let rest = steps.drop_last();
    assert(steps.last().builds());
    assert forall|k: int| 0 <= k < rest.len() implies (#[trigger] rest[k]).builds() by {
        assert(steps[k].builds());
    }
    assert(schema.has_tables_for(rest)) by {
        assert forall|k: int|
            #![trigger rest[k]]
            0 <= k < rest.len() implies match rest[k] {
            SchemaStep::AddColumn { table, column, definition } => schema.tables.contains_key(
                table@,
            ),
            _ => true,
        } by {
            assert(rest[k] == steps[k]);
        }
    }
    if i < rest.len() {
        lemma_built(schema, rest, i);
        let one = seq![steps.last()];
        let middle = schema.after_all(rest);
        assert(all_build(one));
        assert(one.drop_last() =~= Seq::<SchemaStep>::empty());
        lemma_building_keeps(middle, one, steps[i]);
        assert(middle.after_all(one.drop_last()) == middle);
        assert(middle.after_all(one) == middle.after(steps.last()));
    } else {
        match steps[i] {
            SchemaStep::AddColumn { table, column, definition } => {
                lemma_building_keeps_table(schema, rest, table@);
            },
            _ => {},
        }
    }
}

/// Steps whose additions are there change nothing.
proof fn lemma_nothing_to_do(schema: Schema, steps: Seq<SchemaStep>)
    requires
        forall|i: int| 0 <= i < steps.len() ==> schema.has(#[trigger] steps[i]),
    ensures
        schema.after_all(steps) == schema,
    decreases steps.len(),
{
    if steps.len() > 0 {
        let rest = steps.drop_last();
        assert forall|i: int| 0 <= i < rest.len() implies schema.has(#[trigger] rest[i]) by {
            assert(schema.has(steps[i]));
        }
        lemma_nothing_to_do(schema, rest);
        assert(schema.has(steps[steps.len() - 1]));
        match steps.last() {
            SchemaStep::AddColumn { table, column, definition } => {
                assert(schema.tables[table@].insert(column@) =~= schema.tables[table@]);
                assert(schema.tables.insert(table@, schema.tables[table@]) =~= schema.tables);
            },
            SchemaStep::CreateIndex { index, on, unique } => {
                assert(schema.indexes.insert(index@) =~= schema.indexes);
            },
            _ => {},
        }
    }
}

/// Making steps one after the other is making them at once.
proof fn lemma_after_both(schema: Schema, first: Seq<SchemaStep>, second: Seq<SchemaStep>)
    ensures
        schema.after_all(first + second) == schema.after_all(first).after_all(second),
    decreases second.len(),
{
    if second.len() == 0 {
        assert(first + second =~= first);
    } else {
        assert((first + second).drop_last() =~= first + second.drop_last());
        lemma_after_both(schema, first, second.drop_last());
    }
}

/// The steps to a version only add.
pub proof fn lemma_migrations_build(version: int)
    ensures
        all_build(steps_to(version)),
{
    if version == 1 {
        assert(all_build(steps_to_1()));
    }
    if version == 2 {
        assert(all_build(steps_to_2()));
    }
    if version == 3 {
        assert(all_build(steps_to_3()));
    }
    if version == 4 {
        assert(all_build(steps_to_4()));
    }
    if version == 5 {
        assert(all_build(steps_to_5()));
    }
    if version == 6 {
        assert(all_build(steps_to_6()));
    }
    if version == 7 {
        assert(all_build(steps_to_7()));
    }
    if version == 8 {
        assert(all_build(steps_to_8()));
    }
    if version == 9 {
        assert(all_build(steps_to_9()));
    }
    if version == 10 {
        assert(all_build(steps_to_10()));
    }
    if version == 11 {
        assert(all_build(steps_to_11()));
    }
    if version == 12 {
        assert(all_build(steps_to_12()));
    }
    if version == 13 {
        assert(all_build(steps_to_13()));
    }
    if version == 14 {
        assert(all_build(steps_to_14()));
    }
    if version == 15 {
        assert(all_build(steps_to_15()));
    }
    if version == 16 {
        assert(all_build(steps_to_16()));
    }
    if version == 17 {
        assert(all_build(steps_to_17()));
    }
    if version == 18 {
        assert(all_build(steps_to_18()));
    }
    if version == 19 {
        assert(all_build(steps_to_19()));
    }
    if version == 20 {
        assert(all_build(steps_to_20()));
    }
    if version == 21 {
        assert(all_build(steps_to_21()));
    }
    if version == 22 {
        assert(all_build(steps_to_22()));
    }
}

/// A migration may be started over: after its first `n` steps, or all of them, making
/// all its steps leads to the same schema as making them once.
pub proof fn lemma_migration_can_be_repeated(schema: Schema, version: int, n: int)
    requires
        0 <= n <= steps_to(version).len(),
        schema.has_tables_for(steps_to(version)),
    ensures
        schema.after_all(steps_to(version).take(n)).after_all(steps_to(version))
            == schema.after_all(steps_to(version)),
{
    let steps = steps_to(version);
    let done = steps.take(n);
    let left = steps.skip(n);
    let middle = schema.after_all(done);
    lemma_migrations_build(version);
    assert(all_build(done)) by {
        assert forall|i: int| 0 <= i < done.len() implies (#[trigger] done[i]).builds() by {
            assert(steps[i].builds());
        }
    }
    assert(schema.has_tables_for(done)) by {
        assert forall|k: int|
            #![trigger done[k]]
            0 <= k < done.len() implies match done[k] {
            SchemaStep::AddColumn { table, column, definition } => schema.tables.contains_key(
                table@,
            ),
            _ => true,
        } by {
            assert(done[k] == steps[k]);
        }
    }
    assert forall|i: int| 0 <= i < done.len() implies middle.has(#[trigger] done[i]) by {
        lemma_built(schema, done, i);
    }
    lemma_nothing_to_do(middle, done);
    assert(done + left =~= steps);
    lemma_after_both(middle, done, left);
    lemma_after_both(schema, done, left);
}

proof fn lemma_undone_steps(steps: Seq<SchemaStep>, i: int) -> (at: int)
    requires
        0 <= i < steps.len(),
    ensures
        0 <= at < undone_steps(steps).len(),
        undone_steps(steps)[at] == steps[i].undo(),
    decreases steps.len(),
{
    if i == steps.len() - 1 {
        0
    } else {
        1 + lemma_undone_steps(steps.drop_last(), i)
    }
}

/// Whether all steps take something away.
pub open spec fn all_drop(steps: Seq<SchemaStep>) -> bool {
    forall|i: int| 0 <= i < steps.len() ==> !(#[trigger] steps[i]).builds()
}

proof fn lemma_undone_drop(steps: Seq<SchemaStep>)
    requires
        all_build(steps),
    ensures
        all_drop(undone_steps(steps)),
    decreases steps.len(),
{
    if steps.len() > 0 {
        let rest = steps.drop_last();
        assert forall|i: int| 0 <= i < rest.len() implies (#[trigger] rest[i]).builds() by {
            assert(steps[i].builds());
        }
        lemma_undone_drop(rest);
        assert(steps.last().builds());
        let undone = undone_steps(steps);
        assert forall|i: int| 0 <= i < undone.len() implies !(#[trigger] undone[i]).builds() by {
            if i > 0 {
                assert(undone[i] == undone_steps(rest)[i - 1]);
            }
        }
    }
}

proof fn lemma_dropped(schema: Schema, steps: Seq<SchemaStep>, built: SchemaStep, at: int)
    requires
        all_drop(steps),
        built.builds(),
        0 <= at < steps.len(),
        steps[at] == built.undo(),
    ensures
        !schema.after_all(steps).has(built),
    decreases steps.len(),
{
    let rest = steps.drop_last();
    assert forall|i: int| 0 <= i < rest.len() implies !(#[trigger] rest[i]).builds() by {
        assert(!steps[i].builds());
    }
    assert(!steps[steps.len() - 1].builds());
    if at < rest.len() {
        lemma_dropped(schema, rest, built, at);
    }
}

/// Going back from a version leaves nothing of what going up to it adds; only what the
/// first version adds stays.
pub proof fn lemma_going_back_removes(schema: Schema, version: int, i: int)
    requires
        version != 1,
        0 <= i < steps_to(version).len(),
    ensures
        !schema.after_all(steps_from(version)).has(steps_to(version)[i]),
{
    let steps = steps_to(version);
    lemma_migrations_build(version);
    lemma_undone_drop(steps);
    let at = lemma_undone_steps(steps, i);
    assert(steps[i].builds());
    lemma_dropped(schema, undone_steps(steps), steps[i], at);
}

/// Going up to a version leaves all that it adds in place.
pub proof fn lemma_going_up_adds(schema: Schema, version: int, i: int)
    requires
        schema.has_tables_for(steps_to(version)),
        0 <= i < steps_to(version).len(),
    ensures
        schema.after_all(steps_to(version)).has(steps_to(version)[i]),
{
    lemma_migrations_build(version);
    lemma_built(schema, steps_to(version), i);
}

impl Schema {
    /// The schema once a database was moved up to a version.
    pub open spec fn at_version(self, version: int) -> Schema
        decreases version,
    {
        if version <= 0 {
            self
        } else {
            self.at_version(version - 1).after_all(steps_to(version))
        }
    }
}

proof fn lemma_table_stays(schema: Schema, low: int, high: int, table: Seq<char>)
    requires
        0 <= low <= high,
        schema.at_version(low).tables.contains_key(table),
    ensures
        schema.at_version(high).tables.contains_key(table),
    decreases high,
{
    if low < high {
        lemma_table_stays(schema, low, high - 1, table);
        lemma_migrations_build(high);
        lemma_building_keeps_table(schema.at_version(high - 1), steps_to(high), table);
    }
}

/// Each migration finds the tables that it adds columns to.
pub proof fn lemma_tables_are_there(schema: Schema, version: int)
    requires
        1 <= version,
    ensures
        schema.at_version(version - 1).has_tables_for(steps_to(version)),
{
    let before = schema.at_version(version - 1);
    if version > 5 {
        lemma_going_up_adds(schema.at_version(2), 3, 0);
        assert(steps_to_3()[0] == steps_to(3)[0]);
        lemma_table_stays(schema, 3, version - 1, "scan_runs"@);
        lemma_going_up_adds(schema.at_version(3), 4, 0);
        lemma_table_stays(schema, 4, version - 1, "link_events"@);
        lemma_going_up_adds(schema.at_version(4), 5, 0);
        lemma_table_stays(schema, 5, version - 1, "acquisition_jobs"@);
    }
    if version == 6 {
        assert(before.has_tables_for(steps_to_6()));
    }
    if version == 7 {
        assert(before.has_tables_for(steps_to_7()));
    }
    if version == 8 {
        assert(before.has_tables_for(steps_to_8()));
    }
    if version == 10 {
        assert(before.has_tables_for(steps_to_10()));
    }
    if version == 11 {
        assert(before.has_tables_for(steps_to_11()));
    }
    if version == 12 {
        assert(before.has_tables_for(steps_to_12()));
    }
    if version == 13 {
        assert(before.has_tables_for(steps_to_13()));
    }
    if version == 14 {
        assert(before.has_tables_for(steps_to_14()));
    }
    if version == 15 {
        assert(before.has_tables_for(steps_to_15()));
    }
}

/// A database that was moved up to a version has all that this version and the ones
/// before it add.
pub proof fn lemma_version_is_complete(schema: Schema, version: int, earlier: int, i: int)
    requires
        1 <= earlier <= version,
        0 <= i < steps_to(earlier).len(),
    ensures
        schema.at_version(version).has(steps_to(earlier)[i]),
    decreases version,
{
    if earlier == version {
        lemma_tables_are_there(schema, version);
        lemma_going_up_adds(schema.at_version(version - 1), version, i);
    } else {
        lemma_version_is_complete(schema, version - 1, earlier, i);
        lemma_migrations_build(version);
        lemma_building_keeps(
            schema.at_version(version - 1),
            steps_to(version),
            steps_to(earlier)[i],
        );
    }
}

// ---------------------------------------------------------------------------
// Which versions are passed through, and by what

/// A way up passes through each version above the start once, in order, up to the end.
pub proof fn lemma_way_up(low: int, high: int, i: int)
    requires
        i64::MIN <= low,
        high <= i64::MAX,
    ensures
        versions_up(low, high).len() == (if high > low {
            high - low
        } else {
            0
        }),
        0 <= i < versions_up(low, high).len() ==> versions_up(low, high)[i] == low + 1 + i,
    decreases high - low,
{
    if high > low {
        lemma_way_up(low, high - 1, i);
    }
}

/// A way down takes back each version above the end once, from the start.
pub proof fn lemma_way_down(high: int, low: int, i: int)
    requires
        i64::MIN <= low,
        high <= i64::MAX,
    ensures
        versions_down(high, low).len() == (if high > low {
            high - low
        } else {
            0
        }),
        0 <= i < versions_down(high, low).len() ==> versions_down(high, low)[i] == high - i,
    decreases high - low,
{
    if high > low {
        lemma_way_down(high, low + 1, i);
    }
}

/// A way leads up or down, not both, and nowhere where the version is the one asked for.
pub proof fn lemma_way_leads_one_way(current: int, target: int)
    requires
        i64::MIN <= current <= i64::MAX,
        i64::MIN <= target <= i64::MAX,
    ensures
        versions_up(current, target).len() > 0 <==> current < target,
        versions_down(current, target).len() > 0 <==> target < current,
        current < target ==> versions_up(current, target).last() == target,
        target < current ==> versions_down(current, target).last() == target + 1,
{
    lemma_way_up(current, target, versions_up(current, target).len() - 1);
    lemma_way_down(current, target, versions_down(current, target).len() - 1);
}

/// A database without a version has that of the last thing that is there.
pub proof fn lemma_legacy_versions(schema: LegacySchema)
    ensures
        ({
            let version = legacy_version(schema);
            let jobs = schema.has_acquisition_jobs;
            &&& version == 8 <==> jobs && schema.has_auto_acquire_requests
            &&& version >= 7 <==> jobs && (schema.has_auto_acquire_requests
                || schema.has_query_hints)
            &&& version >= 6 <==> jobs && (schema.has_auto_acquire_requests
                || schema.has_query_hints || schema.has_imdb_id)
            &&& version >= 5 <==> jobs
            &&& version >= 4 <==> jobs || schema.has_link_events
            &&& version >= 3 <==> jobs || schema.has_link_events || schema.has_scan_runs
            &&& version >= 2 <==> jobs || schema.has_link_events || schema.has_scan_runs
                || schema.has_rd_torrents || schema.has_links
            &&& version == 0 || version >= 2
            &&& version <= 8
        }),
{
}

/// What was added is taken back in the reverse order, each step once.
pub proof fn lemma_steps_are_taken_back(steps: Seq<SchemaStep>, i: int)
    requires
        0 <= i < steps.len(),
    ensures
        undone_steps(steps).len() == steps.len(),
        undone_steps(steps)[i] == steps[steps.len() - 1 - i].undo(),
    decreases steps.len(),
{
    let rest = steps.drop_last();
    if rest.len() > 0 {
        if i > 0 {
            lemma_steps_are_taken_back(rest, i - 1);
            assert(rest[rest.len() - i] == steps[steps.len() - 1 - i]);
        } else {
            lemma_steps_are_taken_back(rest, 0);
        }
    } else {
        assert(undone_steps(rest).len() == 0);
    }
}

/// What a step adds is what its undoing drops, and what is dropped is not dropped again.
pub proof fn lemma_undoing_drops(step: SchemaStep)
    ensures
        step matches SchemaStep::CreateTable { table, columns } ==> step.undo()
            == (SchemaStep::DropTable { table }),
        step matches SchemaStep::AddColumn { table, column, definition } ==> step.undo()
            == (SchemaStep::DropColumn { table, column }),
        step matches SchemaStep::CreateIndex { index, on, unique } ==> step.undo()
            == (SchemaStep::DropIndex { index }),
        step.builds() <==> !step.undo().builds() && step.undo() != step,
{
}

/// Only what a build does not know of is left alone by going back: nothing is taken back
/// from the first version, and from every other all that it added.
pub proof fn lemma_first_version_stays(version: int)
    ensures
        steps_from(1).len() == 0,
        version != 1 ==> steps_from(version).len() == steps_to(version).len(),
{
    if version != 1 && steps_to(version).len() > 0 {
        lemma_steps_are_taken_back(steps_to(version), 0);
    }
}

/// A statement says what the step does, and to what.
pub proof fn lemma_statements_say(step: SchemaStep)
    ensures
        step matches SchemaStep::CreateTable { table, columns } ==> text::begins(
            step.statement(),
            "CREATE TABLE IF NOT EXISTS "@ + table@,
        ) && text::has_part(step.statement(), columns@),
        step matches SchemaStep::AddColumn { table, column, definition } ==> step.statement()
            == "ALTER TABLE "@ + table@ + " ADD COLUMN "@ + column@ + " "@ + definition@,
        step matches SchemaStep::CreateIndex { index, on, unique } ==> text::begins(
            step.statement(),
            if unique {
                "CREATE UNIQUE INDEX IF NOT EXISTS "@ + index@
            } else {
                "CREATE INDEX IF NOT EXISTS "@ + index@
            },
        ) && text::ends(step.statement(), on@),
        step matches SchemaStep::DropTable { table } ==> step.statement() == "DROP TABLE IF EXISTS "@
            + table@,
        step matches SchemaStep::DropColumn { table, column } ==> step.statement()
            == "ALTER TABLE "@ + table@ + " DROP COLUMN "@ + column@,
        step matches SchemaStep::DropIndex { index } ==> step.statement() == "DROP INDEX IF EXISTS "@
            + index@,
{
    let words = step.statement();
    if let SchemaStep::CreateTable { table, columns } = step {
        let head = "CREATE TABLE IF NOT EXISTS "@ + table@;
        assert(words.subrange(0, head.len() as int) =~= head);
        let at = (head + " ("@).len() as int;
        assert(words.subrange(at, at + columns@.len()) =~= columns@);
        assert(text::occurs_at(words, columns@, at));
    }
    if let SchemaStep::CreateIndex { index, on, unique } = step {
        let head = if unique {
            "CREATE UNIQUE INDEX IF NOT EXISTS "@ + index@
        } else {
            "CREATE INDEX IF NOT EXISTS "@ + index@
        };
        assert(words.subrange(0, head.len() as int) =~= head);
        assert(words.subrange(words.len() - on@.len(), words.len() as int) =~= on@);
    }
}

/// A database at the latest version has every table that the library reads and writes.
pub proof fn lemma_latest_tables(schema: Schema)
    ensures
        ({
            let latest = schema.at_version(22);
            &&& latest.tables.contains_key("links"@)
            &&& latest.tables.contains_key("api_cache"@)
            &&& latest.tables.contains_key("scan_history"@)
            &&& latest.tables.contains_key("rd_torrents"@)
            &&& latest.tables.contains_key("scan_runs"@)
            &&& latest.tables.contains_key("link_events"@)
            &&& latest.tables.contains_key("acquisition_jobs"@)
            &&& latest.tables.contains_key("daemon_heartbeat"@)
            &&& latest.tables.contains_key("anime_search_overrides"@)
            &&& latest.tables.contains_key("scheduler_rules"@)
            &&& latest.tables.contains_key("scheduler_runs"@)
            &&& latest.tables.contains_key("scheduler_state"@)
            &&& latest.tables.contains_key("operation_runs"@)
            &&& latest.tables.contains_key("source_pins"@)
        }),
{
    lemma_version_is_complete(schema, 22, 1, 0);
    lemma_version_is_complete(schema, 22, 1, 1);
    lemma_version_is_complete(schema, 22, 2, 0);
    lemma_version_is_complete(schema, 22, 2, 1);
    lemma_version_is_complete(schema, 22, 3, 0);
    lemma_version_is_complete(schema, 22, 4, 0);
    lemma_version_is_complete(schema, 22, 5, 0);
    lemma_version_is_complete(schema, 22, 16, 0);
    lemma_version_is_complete(schema, 22, 17, 0);
    lemma_version_is_complete(schema, 22, 18, 0);
    lemma_version_is_complete(schema, 22, 19, 0);
    lemma_version_is_complete(schema, 22, 20, 0);
    lemma_version_is_complete(schema, 22, 21, 0);
    lemma_version_is_complete(schema, 22, 22, 0);
}

/// A database at the latest version has every index.
pub proof fn lemma_latest_indexes(schema: Schema)
    ensures
        ({
            let latest = schema.at_version(22);
            &&& latest.indexes.contains("idx_links_status"@)
            &&& latest.indexes.contains("idx_links_media_id"@)
            &&& latest.indexes.contains("idx_api_cache_key"@)
            &&& latest.indexes.contains("idx_rd_torrents_id"@)
            &&& latest.indexes.contains("idx_scan_runs_run_at"@)
            &&& latest.indexes.contains("idx_link_events_action"@)
            &&& latest.indexes.contains("idx_link_events_target"@)
            &&& latest.indexes.contains("idx_acquisition_jobs_status"@)
            &&& latest.indexes.contains("idx_acquisition_jobs_retry"@)
            &&& latest.indexes.contains("idx_links_status_target"@)
            &&& latest.indexes.contains("idx_link_events_run_token_event_at"@)
            &&& latest.indexes.contains("idx_scheduler_runs_rule_planned"@)
            &&& latest.indexes.contains("idx_operation_runs_running"@)
        }),
{
    lemma_version_is_complete(schema, 22, 1, 2);
    lemma_version_is_complete(schema, 22, 1, 3);
    lemma_version_is_complete(schema, 22, 1, 4);
    lemma_version_is_complete(schema, 22, 2, 2);
    lemma_version_is_complete(schema, 22, 3, 1);
    lemma_version_is_complete(schema, 22, 4, 1);
    lemma_version_is_complete(schema, 22, 4, 2);
    lemma_version_is_complete(schema, 22, 5, 1);
    lemma_version_is_complete(schema, 22, 5, 2);
    lemma_version_is_complete(schema, 22, 9, 0);
    lemma_version_is_complete(schema, 22, 14, 2);
    lemma_version_is_complete(schema, 22, 19, 1);
    lemma_version_is_complete(schema, 22, 21, 1);
}

/// A database at the latest version has the columns of `acquisition_jobs` that came with version 6.
pub proof fn lemma_columns_of_acquisition_jobs_since_6(schema: Schema)
    ensures
        ({
            let latest = schema.at_version(22);
            &&& latest.tables.contains_key("acquisition_jobs"@) && latest.tables["acquisition_jobs"@].contains("imdb_id"@)
        }),
{
    lemma_version_is_complete(schema, 22, 6, 0);
}

/// A database at the latest version has the columns of `acquisition_jobs` that came with version 7.
pub proof fn lemma_columns_of_acquisition_jobs_since_7(schema: Schema)
    ensures
        ({
            let latest = schema.at_version(22);
            &&& latest.tables.contains_key("acquisition_jobs"@) && latest.tables["acquisition_jobs"@].contains("query_hints_json"@)
        }),
{
    lemma_version_is_complete(schema, 22, 7, 0);
}

/// A database at the latest version has the columns of `scan_runs` that came with version 8.
pub proof fn lemma_columns_of_scan_runs_since_8(schema: Schema)
    ensures
        ({
            let latest = schema.at_version(22);
            &&& latest.tables.contains_key("scan_runs"@) && latest.tables["scan_runs"@].contains("library_filter"@)
            &&& latest.tables.contains_key("scan_runs"@) && latest.tables["scan_runs"@].contains("search_missing"@)
            &&& latest.tables.contains_key("scan_runs"@) && latest.tables["scan_runs"@].contains("runtime_checks_ms"@)
            &&& latest.tables.contains_key("scan_runs"@) && latest.tables["scan_runs"@].contains("library_scan_ms"@)
            &&& latest.tables.contains_key("scan_runs"@) && latest.tables["scan_runs"@].contains("source_inventory_ms"@)
            &&& latest.tables.contains_key("scan_runs"@) && latest.tables["scan_runs"@].contains("matching_ms"@)
            &&& latest.tables.contains_key("scan_runs"@) && latest.tables["scan_runs"@].contains("title_enrichment_ms"@)
            &&& latest.tables.contains_key("scan_runs"@) && latest.tables["scan_runs"@].contains("linking_ms"@)
            &&& latest.tables.contains_key("scan_runs"@) && latest.tables["scan_runs"@].contains("plex_refresh_ms"@)
            &&& latest.tables.contains_key("scan_runs"@) && latest.tables["scan_runs"@].contains("dead_link_sweep_ms"@)
            &&& latest.tables.contains_key("scan_runs"@) && latest.tables["scan_runs"@].contains("cache_hit_ratio"@)
            &&& latest.tables.contains_key("scan_runs"@) && latest.tables["scan_runs"@].contains("candidate_slots"@)
            &&& latest.tables.contains_key("scan_runs"@) && latest.tables["scan_runs"@].contains("scored_candidates"@)
            &&& latest.tables.contains_key("scan_runs"@) && latest.tables["scan_runs"@].contains("exact_id_hits"@)
            &&& latest.tables.contains_key("scan_runs"@) && latest.tables["scan_runs"@].contains("auto_acquire_requests"@)
            &&& latest.tables.contains_key("scan_runs"@) && latest.tables["scan_runs"@].contains("auto_acquire_missing_requests"@)
            &&& latest.tables.contains_key("scan_runs"@) && latest.tables["scan_runs"@].contains("auto_acquire_cutoff_requests"@)
            &&& latest.tables.contains_key("scan_runs"@) && latest.tables["scan_runs"@].contains("auto_acquire_dry_run_hits"@)
            &&& latest.tables.contains_key("scan_runs"@) && latest.tables["scan_runs"@].contains("auto_acquire_submitted"@)
            &&& latest.tables.contains_key("scan_runs"@) && latest.tables["scan_runs"@].contains("auto_acquire_no_result"@)
            &&& latest.tables.contains_key("scan_runs"@) && latest.tables["scan_runs"@].contains("auto_acquire_blocked"@)
            &&& latest.tables.contains_key("scan_runs"@) && latest.tables["scan_runs"@].contains("auto_acquire_failed"@)
            &&& latest.tables.contains_key("scan_runs"@) && latest.tables["scan_runs"@].contains("auto_acquire_completed_linked"@)
            &&& latest.tables.contains_key("scan_runs"@) && latest.tables["scan_runs"@].contains("auto_acquire_completed_unlinked"@)
        }),
{
    lemma_version_is_complete(schema, 22, 8, 0);
    lemma_version_is_complete(schema, 22, 8, 1);
    lemma_version_is_complete(schema, 22, 8, 2);
    lemma_version_is_complete(schema, 22, 8, 3);
    lemma_version_is_complete(schema, 22, 8, 4);
    lemma_version_is_complete(schema, 22, 8, 5);
    lemma_version_is_complete(schema, 22, 8, 6);
    lemma_version_is_complete(schema, 22, 8, 7);
    lemma_version_is_complete(schema, 22, 8, 8);
    lemma_version_is_complete(schema, 22, 8, 9);
    lemma_version_is_complete(schema, 22, 8, 10);
    lemma_version_is_complete(schema, 22, 8, 11);
    lemma_version_is_complete(schema, 22, 8, 12);
    lemma_version_is_complete(schema, 22, 8, 13);
    lemma_version_is_complete(schema, 22, 8, 14);
    lemma_version_is_complete(schema, 22, 8, 15);
    lemma_version_is_complete(schema, 22, 8, 16);
    lemma_version_is_complete(schema, 22, 8, 17);
    lemma_version_is_complete(schema, 22, 8, 18);
    lemma_version_is_complete(schema, 22, 8, 19);
    lemma_version_is_complete(schema, 22, 8, 20);
    lemma_version_is_complete(schema, 22, 8, 21);
    lemma_version_is_complete(schema, 22, 8, 22);
    lemma_version_is_complete(schema, 22, 8, 23);
}

/// A database at the latest version has the columns of `scan_runs` that came with version 10.
pub proof fn lemma_columns_of_scan_runs_since_10(schema: Schema)
    ensures
        ({
            let latest = schema.at_version(22);
            &&& latest.tables.contains_key("scan_runs"@) && latest.tables["scan_runs"@].contains("plex_refresh_requested_paths"@)
            &&& latest.tables.contains_key("scan_runs"@) && latest.tables["scan_runs"@].contains("plex_refresh_unique_paths"@)
            &&& latest.tables.contains_key("scan_runs"@) && latest.tables["scan_runs"@].contains("plex_refresh_planned_batches"@)
            &&& latest.tables.contains_key("scan_runs"@) && latest.tables["scan_runs"@].contains("plex_refresh_coalesced_batches"@)
            &&& latest.tables.contains_key("scan_runs"@) && latest.tables["scan_runs"@].contains("plex_refresh_coalesced_paths"@)
            &&& latest.tables.contains_key("scan_runs"@) && latest.tables["scan_runs"@].contains("plex_refresh_refreshed_batches"@)
            &&& latest.tables.contains_key("scan_runs"@) && latest.tables["scan_runs"@].contains("plex_refresh_refreshed_paths_covered"@)
            &&& latest.tables.contains_key("scan_runs"@) && latest.tables["scan_runs"@].contains("plex_refresh_skipped_batches"@)
            &&& latest.tables.contains_key("scan_runs"@) && latest.tables["scan_runs"@].contains("plex_refresh_unresolved_paths"@)
            &&& latest.tables.contains_key("scan_runs"@) && latest.tables["scan_runs"@].contains("plex_refresh_capped_batches"@)
            &&& latest.tables.contains_key("scan_runs"@) && latest.tables["scan_runs"@].contains("plex_refresh_failed_batches"@)
        }),
{
    lemma_version_is_complete(schema, 22, 10, 0);
    lemma_version_is_complete(schema, 22, 10, 1);
    lemma_version_is_complete(schema, 22, 10, 2);
    lemma_version_is_complete(schema, 22, 10, 3);
    lemma_version_is_complete(schema, 22, 10, 4);
    lemma_version_is_complete(schema, 22, 10, 5);
    lemma_version_is_complete(schema, 22, 10, 6);
    lemma_version_is_complete(schema, 22, 10, 7);
    lemma_version_is_complete(schema, 22, 10, 8);
    lemma_version_is_complete(schema, 22, 10, 9);
    lemma_version_is_complete(schema, 22, 10, 10);
}

/// A database at the latest version has the columns of `scan_runs` that came with version 11.
pub proof fn lemma_columns_of_scan_runs_since_11(schema: Schema)
    ensures
        ({
            let latest = schema.at_version(22);
            &&& latest.tables.contains_key("scan_runs"@) && latest.tables["scan_runs"@].contains("plex_refresh_aborted_due_to_cap"@)
        }),
{
    lemma_version_is_complete(schema, 22, 11, 0);
}

/// A database at the latest version has the columns of `scan_runs` that came with version 12.
pub proof fn lemma_columns_of_scan_runs_since_12(schema: Schema)
    ensures
        ({
            let latest = schema.at_version(22);
            &&& latest.tables.contains_key("scan_runs"@) && latest.tables["scan_runs"@].contains("media_server_refresh_json"@)
        }),
{
    lemma_version_is_complete(schema, 22, 12, 0);
}

/// A database at the latest version has the columns of `scan_runs` that came with version 13.
pub proof fn lemma_columns_of_scan_runs_since_13(schema: Schema)
    ensures
        ({
            let latest = schema.at_version(22);
            &&& latest.tables.contains_key("scan_runs"@) && latest.tables["scan_runs"@].contains("skip_reason_json"@)
        }),
{
    lemma_version_is_complete(schema, 22, 13, 0);
}

/// A database at the latest version has the columns of `scan_runs` that came with version 14.
pub proof fn lemma_columns_of_scan_runs_since_14(schema: Schema)
    ensures
        ({
            let latest = schema.at_version(22);
            &&& latest.tables.contains_key("scan_runs"@) && latest.tables["scan_runs"@].contains("run_token"@)
        }),
{
    lemma_version_is_complete(schema, 22, 14, 0);
}

/// A database at the latest version has the columns of `link_events` that came with version 14.
pub proof fn lemma_columns_of_link_events_since_14(schema: Schema)
    ensures
        ({
            let latest = schema.at_version(22);
            &&& latest.tables.contains_key("link_events"@) && latest.tables["link_events"@].contains("run_token"@)
        }),
{
    lemma_version_is_complete(schema, 22, 14, 1);
}

/// A database at the latest version has the columns of `scan_runs` that came with version 15.
pub proof fn lemma_columns_of_scan_runs_since_15(schema: Schema)
    ensures
        ({
            let latest = schema.at_version(22);
            &&& latest.tables.contains_key("scan_runs"@) && latest.tables["scan_runs"@].contains("origin"@)
        }),
{
    lemma_version_is_complete(schema, 22, 15, 0);
}

} // verus!
