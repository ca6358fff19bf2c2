//! What the database holds.

use vstd::prelude::*;
use crate::models::MediaType;
use crate::text;

verus! {

/// A moment: seconds since the epoch, and nanoseconds within the second.
#[derive(Debug, Clone, Copy, PartialEq, Eq, Structural)]
pub struct Moment {
    pub seconds: i64,
    pub nanos: u32,
}

impl Moment {
    /// Whether this moment is not after the other.
    pub open spec fn up_to(self, other: Moment) -> bool {
        self.seconds < other.seconds || (self.seconds == other.seconds && self.nanos
            <= other.nanos)
    }

    /// Whether this moment is not after the other.
    pub fn is_up_to(self, other: Moment) -> (b: bool)
        ensures
            b == self.up_to(other),
    {
        self.seconds < other.seconds || (self.seconds == other.seconds && self.nanos
            <= other.nanos)
    }
}

/// What a housekeeping run deleted.
#[derive(Debug, PartialEq, Eq)]
pub struct HousekeepingStats {
    pub scan_runs_deleted: u64,
    pub link_events_deleted: u64,
    pub old_jobs_deleted: u64,
    pub expired_api_cache_deleted: u64,
}

impl Default for HousekeepingStats {
    fn default() -> (out: Self)
        ensures
            out.scan_runs_deleted == 0,
            out.link_events_deleted == 0,
            out.old_jobs_deleted == 0,
            out.expired_api_cache_deleted == 0,
    {
        HousekeepingStats {
            scan_runs_deleted: 0,
            link_events_deleted: 0,
            old_jobs_deleted: 0,
            expired_api_cache_deleted: 0,
        }
    }
}

/// What started a scan.
#[derive(Debug, Clone, Copy, PartialEq, Eq, Structural)]
pub enum ScanRunOrigin {
    Unknown,
    Cli,
    Daemon,
    Web,
    AutoAcquire,
}

impl Default for ScanRunOrigin {
    fn default() -> (out: Self)
        ensures
            out is Unknown,
    {
        ScanRunOrigin::Unknown
    }
}

impl ScanRunOrigin {
    /// The name of the value in the database.
    pub open spec fn name(self) -> Seq<char> {
        match self {
            ScanRunOrigin::Unknown => "unknown"@,
            ScanRunOrigin::Cli => "cli"@,
            ScanRunOrigin::Daemon => "daemon"@,
            ScanRunOrigin::Web => "web"@,
            ScanRunOrigin::AutoAcquire => "auto_acquire"@,
        }
    }

    /// The name of the value in the database.
    pub fn as_str(self) -> (out: &'static str)
        ensures
            out@ == self.name(),
    {
        match self {
            ScanRunOrigin::Unknown => "unknown",
            ScanRunOrigin::Cli => "cli",
            ScanRunOrigin::Daemon => "daemon",
            ScanRunOrigin::Web => "web",
            ScanRunOrigin::AutoAcquire => "auto_acquire",
        }
    }

    /// Whether a text is the name of a value.
    pub open spec fn is_name(value: Seq<char>) -> bool {
        ||| value == ScanRunOrigin::Unknown.name()
        ||| value == ScanRunOrigin::Cli.name()
        ||| value == ScanRunOrigin::Daemon.name()
        ||| value == ScanRunOrigin::Web.name()
        ||| value == ScanRunOrigin::AutoAcquire.name()
    }

    /// The value of that name. Any other text is an error that quotes it.
    pub fn from_db(value: &str) -> (out: Result<Self, String>)
        ensures
            match out {
                Ok(v) => v.name() == value@,
                Err(message) => !ScanRunOrigin::is_name(value@) && message@ == "Unsupported scan run origin '"@
                    + value@ + "' in the database. Expected one of: unknown, cli, daemon, web, auto_acquire"@,
            },
    {
        if text::text_eq(value, "unknown") {
            return Ok(ScanRunOrigin::Unknown);
        }
        if text::text_eq(value, "cli") {
            return Ok(ScanRunOrigin::Cli);
        }
        if text::text_eq(value, "daemon") {
            return Ok(ScanRunOrigin::Daemon);
        }
        if text::text_eq(value, "web") {
            return Ok(ScanRunOrigin::Web);
        }
        if text::text_eq(value, "auto_acquire") {
            return Ok(ScanRunOrigin::AutoAcquire);
        }
        Err(
            text::concat3(
                "Unsupported scan run origin '",
                value,
                "' in the database. Expected one of: unknown, cli, daemon, web, auto_acquire",
            ),
        )
    }
}

/// Names tell values apart, so a value that was stored is read back.
pub proof fn lemma_scan_run_origin_names(a: ScanRunOrigin, b: ScanRunOrigin)
    ensures
        ScanRunOrigin::is_name(a.name()),
        a.name() == b.name() ==> a == b,
{
    reveal_strlit("unknown");
    reveal_strlit("cli");
    reveal_strlit("daemon");
    reveal_strlit("web");
    reveal_strlit("auto_acquire");
    assert("unknown"@.len() != "cli"@.len());
    assert("unknown"@.len() != "daemon"@.len());
    assert("unknown"@.len() != "web"@.len());
    assert("unknown"@.len() != "auto_acquire"@.len());
    assert("cli"@.len() != "daemon"@.len());
    assert("cli"@[0] != "web"@[0]);
    assert("cli"@.len() != "auto_acquire"@.len());
    assert("daemon"@.len() != "web"@.len());
    assert("daemon"@.len() != "auto_acquire"@.len());
    assert("web"@.len() != "auto_acquire"@.len());
}

/// What a scan did, as it is recorded.
#[derive(Debug, Clone, PartialEq, Eq)]
pub struct ScanRunRecord {
    pub origin: ScanRunOrigin,
    pub dry_run: bool,
    pub library_filter: Option<String>,
    pub run_token: Option<String>,
    pub search_missing: bool,
    pub library_items_found: i64,
    pub source_items_found: i64,
    pub matches_found: i64,
    pub links_created: i64,
    pub links_updated: i64,
    pub dead_marked: i64,
    pub links_removed: i64,
    pub links_skipped: i64,
    pub ambiguous_skipped: i64,
    pub skip_reason_json: Option<String>,
    pub runtime_checks_ms: i64,
    pub library_scan_ms: i64,
    pub source_inventory_ms: i64,
    pub matching_ms: i64,
    pub title_enrichment_ms: i64,
    pub linking_ms: i64,
    pub plex_refresh_ms: i64,
    pub plex_refresh_requested_paths: i64,
    pub plex_refresh_unique_paths: i64,
    pub plex_refresh_planned_batches: i64,
    pub plex_refresh_coalesced_batches: i64,
    pub plex_refresh_coalesced_paths: i64,
    pub plex_refresh_refreshed_batches: i64,
    pub plex_refresh_refreshed_paths_covered: i64,
    pub plex_refresh_skipped_batches: i64,
    pub plex_refresh_unresolved_paths: i64,
    pub plex_refresh_capped_batches: i64,
    pub plex_refresh_aborted_due_to_cap: bool,
    pub plex_refresh_failed_batches: i64,
    pub media_server_refresh_json: Option<String>,
    pub dead_link_sweep_ms: i64,
    /// The ratio as the bits of a double.
    pub cache_hit_ratio: Option<u64>,
    pub candidate_slots: i64,
    pub scored_candidates: i64,
    pub exact_id_hits: i64,
    pub auto_acquire_requests: i64,
    pub auto_acquire_missing_requests: i64,
    pub auto_acquire_cutoff_requests: i64,
    pub auto_acquire_dry_run_hits: i64,
    pub auto_acquire_submitted: i64,
    pub auto_acquire_no_result: i64,
    pub auto_acquire_blocked: i64,
    pub auto_acquire_failed: i64,
    pub auto_acquire_completed_linked: i64,
    pub auto_acquire_completed_unlinked: i64,
}

impl Default for ScanRunRecord {
    fn default() -> (out: Self)
        ensures
            out.origin is Unknown,
            !out.dry_run,
            out.library_filter is None,
            out.run_token is None,
            !out.search_missing,
            out.library_items_found == 0,
            out.source_items_found == 0,
            out.matches_found == 0,
            out.links_created == 0,
            out.links_updated == 0,
            out.dead_marked == 0,
            out.links_removed == 0,
            out.links_skipped == 0,
            out.ambiguous_skipped == 0,
            out.skip_reason_json is None,
            out.runtime_checks_ms == 0,
            out.library_scan_ms == 0,
            out.source_inventory_ms == 0,
            out.matching_ms == 0,
            out.title_enrichment_ms == 0,
            out.linking_ms == 0,
            out.plex_refresh_ms == 0,
            out.plex_refresh_requested_paths == 0,
            out.plex_refresh_unique_paths == 0,
            out.plex_refresh_planned_batches == 0,
            out.plex_refresh_coalesced_batches == 0,
            out.plex_refresh_coalesced_paths == 0,
            out.plex_refresh_refreshed_batches == 0,
            out.plex_refresh_refreshed_paths_covered == 0,
            out.plex_refresh_skipped_batches == 0,
            out.plex_refresh_unresolved_paths == 0,
            out.plex_refresh_capped_batches == 0,
            !out.plex_refresh_aborted_due_to_cap,
            out.plex_refresh_failed_batches == 0,
            out.media_server_refresh_json is None,
            out.dead_link_sweep_ms == 0,
            out.cache_hit_ratio is None,
            out.candidate_slots == 0,
            out.scored_candidates == 0,
            out.exact_id_hits == 0,
            out.auto_acquire_requests == 0,
            out.auto_acquire_missing_requests == 0,
            out.auto_acquire_cutoff_requests == 0,
            out.auto_acquire_dry_run_hits == 0,
            out.auto_acquire_submitted == 0,
            out.auto_acquire_no_result == 0,
            out.auto_acquire_blocked == 0,
            out.auto_acquire_failed == 0,
            out.auto_acquire_completed_linked == 0,
            out.auto_acquire_completed_unlinked == 0,
    {
        ScanRunRecord {
            origin: ScanRunOrigin::Unknown,
            dry_run: false,
            library_filter: None,
            run_token: None,
            search_missing: false,
            library_items_found: 0,
            source_items_found: 0,
            matches_found: 0,
            links_created: 0,
            links_updated: 0,
            dead_marked: 0,
            links_removed: 0,
            links_skipped: 0,
            ambiguous_skipped: 0,
            skip_reason_json: None,
            runtime_checks_ms: 0,
            library_scan_ms: 0,
            source_inventory_ms: 0,
            matching_ms: 0,
            title_enrichment_ms: 0,
            linking_ms: 0,
            plex_refresh_ms: 0,
            plex_refresh_requested_paths: 0,
            plex_refresh_unique_paths: 0,
            plex_refresh_planned_batches: 0,
            plex_refresh_coalesced_batches: 0,
            plex_refresh_coalesced_paths: 0,
            plex_refresh_refreshed_batches: 0,
            plex_refresh_refreshed_paths_covered: 0,
            plex_refresh_skipped_batches: 0,
            plex_refresh_unresolved_paths: 0,
            plex_refresh_capped_batches: 0,
            plex_refresh_aborted_due_to_cap: false,
            plex_refresh_failed_batches: 0,
            media_server_refresh_json: None,
            dead_link_sweep_ms: 0,
            cache_hit_ratio: None,
            candidate_slots: 0,
            scored_candidates: 0,
            exact_id_hits: 0,
            auto_acquire_requests: 0,
            auto_acquire_missing_requests: 0,
            auto_acquire_cutoff_requests: 0,
            auto_acquire_dry_run_hits: 0,
            auto_acquire_submitted: 0,
            auto_acquire_no_result: 0,
            auto_acquire_blocked: 0,
            auto_acquire_failed: 0,
            auto_acquire_completed_linked: 0,
            auto_acquire_completed_unlinked: 0,
        }
    }
}

/// A search override to store.
#[derive(Debug, Clone, PartialEq, Eq)]
pub struct AnimeSearchOverrideSeed {
    pub media_id: String,
    pub preferred_title: Option<String>,
    pub extra_hints: Vec<String>,
    pub note: Option<String>,
}

/// A stored search override.
#[derive(Debug, Clone, PartialEq, Eq)]
pub struct AnimeSearchOverrideRecord {
    pub media_id: String,
    pub preferred_title: Option<String>,
    pub extra_hints: Vec<String>,
    pub note: Option<String>,
    pub created_at: String,
    pub updated_at: String,
}

/// A dead link, as far as replacing it needs it.
#[derive(Debug, PartialEq, Eq)]
pub struct DeadLinkSeed {
    pub source_path: String,
    pub target_path: String,
    pub media_id: String,
    pub media_type: MediaType,
}

impl Clone for DeadLinkSeed {
    fn clone(&self) -> (out: Self)
        ensures
            out == *self,
    {
        DeadLinkSeed {
            source_path: self.source_path.clone(),
            target_path: self.target_path.clone(),
            media_id: self.media_id.clone(),
            media_type: self.media_type,
        }
    }
}

/// Something that happened to a link.
#[derive(Debug, Clone, PartialEq, Eq)]
pub struct LinkEventRecord {
    pub run_id: Option<i64>,
    pub run_token: Option<String>,
    pub action: String,
    pub target_path: String,
    pub source_path: Option<String>,
    pub media_id: Option<String>,
    pub note: Option<String>,
}

impl Default for LinkEventRecord {
    fn default() -> (out: Self)
        ensures
            out.run_id is None,
            out.run_token is None,
            out.action@ == ""@,
            out.target_path@ == ""@,
            out.source_path is None,
            out.media_id is None,
            out.note is None,
    {
        proof {
            reveal_strlit("");
        }
        LinkEventRecord {
            run_id: None,
            run_token: None,
            action: String::new(),
            target_path: String::new(),
            source_path: None,
            media_id: None,
            note: None,
        }
    }
}

/// A recorded event of a link.
#[derive(Debug, Clone, PartialEq, Eq)]
pub struct LinkEventHistoryRecord {
    pub event_at: String,
    pub action: String,
    pub target_path: String,
    pub source_path: Option<String>,
    pub media_id: Option<String>,
    pub note: Option<String>,
}

/// How a job finds the link that it completes.
#[derive(Debug, Clone, Copy, PartialEq, Eq, Structural)]
pub enum AcquisitionRelinkKind {
    MediaId,
    MediaEpisode,
    SymlinkPath,
}

impl AcquisitionRelinkKind {
    /// The name of the value in the database.
    pub open spec fn name(self) -> Seq<char> {
        match self {
            AcquisitionRelinkKind::MediaId => "media_id"@,
            AcquisitionRelinkKind::MediaEpisode => "media_episode"@,
            AcquisitionRelinkKind::SymlinkPath => "symlink_path"@,
        }
    }

    /// The name of the value in the database.
    pub fn as_str(self) -> (out: &'static str)
        ensures
            out@ == self.name(),
    {
        match self {
            AcquisitionRelinkKind::MediaId => "media_id",
            AcquisitionRelinkKind::MediaEpisode => "media_episode",
            AcquisitionRelinkKind::SymlinkPath => "symlink_path",
        }
    }

    /// Whether a text is the name of a value.
    pub open spec fn is_name(value: Seq<char>) -> bool {
        ||| value == AcquisitionRelinkKind::MediaId.name()
        ||| value == AcquisitionRelinkKind::MediaEpisode.name()
        ||| value == AcquisitionRelinkKind::SymlinkPath.name()
    }

    /// What is said of a text that is no such name.
    pub open spec fn refusal(value: Seq<char>) -> Seq<char> {
        "Unsupported acquisition relink kind '"@ + value
            + "' in the database. Expected one of: media_id, media_episode, symlink_path"@
    }

    /// The value of that name. Any other text is an error that quotes it.
    pub fn from_db(value: &str) -> (out: Result<Self, String>)
        ensures
            match out {
                Ok(v) => v.name() == value@,
                Err(message) => !AcquisitionRelinkKind::is_name(value@) && message@
                    == AcquisitionRelinkKind::refusal(value@),
            },
    {
        if text::text_eq(value, "media_id") {
            return Ok(AcquisitionRelinkKind::MediaId);
        }
        if text::text_eq(value, "media_episode") {
            return Ok(AcquisitionRelinkKind::MediaEpisode);
        }
        if text::text_eq(value, "symlink_path") {
            return Ok(AcquisitionRelinkKind::SymlinkPath);
        }
        Err(
            text::concat3(
                "Unsupported acquisition relink kind '",
                value,
                "' in the database. Expected one of: media_id, media_episode, symlink_path",
            ),
        )
    }
}

/// Names tell values apart, so a value that was stored is read back.
pub proof fn lemma_acquisition_relink_kind_names(a: AcquisitionRelinkKind, b: AcquisitionRelinkKind)
    ensures
        AcquisitionRelinkKind::is_name(a.name()),
        a.name() == b.name() ==> a == b,
{
    reveal_strlit("media_id");
    reveal_strlit("media_episode");
    reveal_strlit("symlink_path");
    assert("media_id"@.len() != "media_episode"@.len());
    assert("media_id"@.len() != "symlink_path"@.len());
    assert("media_episode"@.len() != "symlink_path"@.len());
}

/// Where a job stands.
#[derive(Debug, Clone, Copy, PartialEq, Eq, Structural)]
pub enum AcquisitionJobStatus {
    Queued,
    Downloading,
    Relinking,
    NoResult,
    Blocked,
    CompletedLinked,
    CompletedUnlinked,
    Failed,
}

impl AcquisitionJobStatus {
    /// The name of the value in the database.
    pub open spec fn name(self) -> Seq<char> {
        match self {
            AcquisitionJobStatus::Queued => "queued"@,
            AcquisitionJobStatus::Downloading => "downloading"@,
            AcquisitionJobStatus::Relinking => "relinking"@,
            AcquisitionJobStatus::NoResult => "no_result"@,
            AcquisitionJobStatus::Blocked => "blocked"@,
            AcquisitionJobStatus::CompletedLinked => "completed_linked"@,
            AcquisitionJobStatus::CompletedUnlinked => "completed_unlinked"@,
            AcquisitionJobStatus::Failed => "failed"@,
        }
    }

    /// The name of the value in the database.
    pub fn as_str(self) -> (out: &'static str)
        ensures
            out@ == self.name(),
    {
        match self {
            AcquisitionJobStatus::Queued => "queued",
            AcquisitionJobStatus::Downloading => "downloading",
            AcquisitionJobStatus::Relinking => "relinking",
            AcquisitionJobStatus::NoResult => "no_result",
            AcquisitionJobStatus::Blocked => "blocked",
            AcquisitionJobStatus::CompletedLinked => "completed_linked",
            AcquisitionJobStatus::CompletedUnlinked => "completed_unlinked",
            AcquisitionJobStatus::Failed => "failed",
        }
    }

    /// Whether a text is the name of a value.
    pub open spec fn is_name(value: Seq<char>) -> bool {
        ||| value == AcquisitionJobStatus::Queued.name()
        ||| value == AcquisitionJobStatus::Downloading.name()
        ||| value == AcquisitionJobStatus::Relinking.name()
        ||| value == AcquisitionJobStatus::NoResult.name()
        ||| value == AcquisitionJobStatus::Blocked.name()
        ||| value == AcquisitionJobStatus::CompletedLinked.name()
        ||| value == AcquisitionJobStatus::CompletedUnlinked.name()
        ||| value == AcquisitionJobStatus::Failed.name()
    }

    /// What is said of a text that is no such name.
    pub open spec fn refusal(value: Seq<char>) -> Seq<char> {
        "Unsupported acquisition job status '"@ + value
            + "' in the database. Expected one of: queued, downloading, relinking, no_result, blocked, completed_linked, completed_unlinked, failed"@
    }

    /// The value of that name. Any other text is an error that quotes it.
    pub fn from_db(value: &str) -> (out: Result<Self, String>)
        ensures
            match out {
                Ok(v) => v.name() == value@,
                Err(message) => !AcquisitionJobStatus::is_name(value@) && message@
                    == AcquisitionJobStatus::refusal(value@),
            },
    {
        if text::text_eq(value, "queued") {
            return Ok(AcquisitionJobStatus::Queued);
        }
        if text::text_eq(value, "downloading") {
            return Ok(AcquisitionJobStatus::Downloading);
        }
        if text::text_eq(value, "relinking") {
            return Ok(AcquisitionJobStatus::Relinking);
        }
        if text::text_eq(value, "no_result") {
            return Ok(AcquisitionJobStatus::NoResult);
        }
        if text::text_eq(value, "blocked") {
            return Ok(AcquisitionJobStatus::Blocked);
        }
        if text::text_eq(value, "completed_linked") {
            return Ok(AcquisitionJobStatus::CompletedLinked);
        }
        if text::text_eq(value, "completed_unlinked") {
            return Ok(AcquisitionJobStatus::CompletedUnlinked);
        }
        if text::text_eq(value, "failed") {
            return Ok(AcquisitionJobStatus::Failed);
        }
        Err(
            text::concat3(
                "Unsupported acquisition job status '",
                value,
                "' in the database. Expected one of: queued, downloading, relinking, no_result, blocked, completed_linked, completed_unlinked, failed",
            ),
        )
    }
}

/// Names tell values apart, so a value that was stored is read back.
pub proof fn lemma_acquisition_job_status_names(a: AcquisitionJobStatus, b: AcquisitionJobStatus)
    ensures
        AcquisitionJobStatus::is_name(a.name()),
        a.name() == b.name() ==> a == b,
{
    reveal_strlit("queued");
    reveal_strlit("downloading");
    reveal_strlit("relinking");
    reveal_strlit("no_result");
    reveal_strlit("blocked");
    reveal_strlit("completed_linked");
    reveal_strlit("completed_unlinked");
    reveal_strlit("failed");
    assert("queued"@.len() != "downloading"@.len());
    assert("queued"@.len() != "relinking"@.len());
    assert("queued"@.len() != "no_result"@.len());
    assert("queued"@.len() != "blocked"@.len());
    assert("queued"@.len() != "completed_linked"@.len());
    assert("queued"@.len() != "completed_unlinked"@.len());
    assert("queued"@[0] != "failed"@[0]);
    assert("downloading"@.len() != "relinking"@.len());
    assert("downloading"@.len() != "no_result"@.len());
    assert("downloading"@.len() != "blocked"@.len());
    assert("downloading"@.len() != "completed_linked"@.len());
    assert("downloading"@.len() != "completed_unlinked"@.len());
    assert("downloading"@.len() != "failed"@.len());
    assert("relinking"@[0] != "no_result"@[0]);
    assert("relinking"@.len() != "blocked"@.len());
    assert("relinking"@.len() != "completed_linked"@.len());
    assert("relinking"@.len() != "completed_unlinked"@.len());
    assert("relinking"@.len() != "failed"@.len());
    assert("no_result"@.len() != "blocked"@.len());
    assert("no_result"@.len() != "completed_linked"@.len());
    assert("no_result"@.len() != "completed_unlinked"@.len());
    assert("no_result"@.len() != "failed"@.len());
    assert("blocked"@.len() != "completed_linked"@.len());
    assert("blocked"@.len() != "completed_unlinked"@.len());
    assert("blocked"@.len() != "failed"@.len());
    assert("completed_linked"@.len() != "completed_unlinked"@.len());
    assert("completed_linked"@.len() != "failed"@.len());
    assert("completed_unlinked"@.len() != "failed"@.len());
}

/// A job to enqueue.
#[derive(Debug, Clone, PartialEq, Eq)]
pub struct AcquisitionJobSeed {
    pub request_key: String,
    pub label: String,
    pub query: String,
    pub query_hints: Vec<String>,
    pub imdb_id: Option<String>,
    pub categories: Vec<i32>,
    pub arr: String,
    pub library_filter: Option<String>,
    pub relink_kind: AcquisitionRelinkKind,
    pub relink_value: String,
}

/// A stored job.
#[derive(Debug, Clone, PartialEq, Eq)]
pub struct AcquisitionJobRecord {
    pub id: i64,
    pub request_key: String,
    pub label: String,
    pub query: String,
    pub query_hints: Vec<String>,
    pub imdb_id: Option<String>,
    pub categories: Vec<i32>,
    pub arr: String,
    pub library_filter: Option<String>,
    pub relink_kind: AcquisitionRelinkKind,
    pub relink_value: String,
    pub status: AcquisitionJobStatus,
    pub release_title: Option<String>,
    pub info_hash: Option<String>,
    pub error: Option<String>,
    pub attempts: i64,
    pub next_retry_at: Option<Moment>,
    pub submitted_at: Option<Moment>,
    pub completed_at: Option<Moment>,
}

/// A change of the state of a job.
#[derive(Debug, Clone, PartialEq, Eq)]
pub struct AcquisitionJobUpdate {
    pub status: AcquisitionJobStatus,
    pub release_title: Option<String>,
    pub info_hash: Option<String>,
    pub error: Option<String>,
    pub next_retry_at: Option<Moment>,
    pub submitted_at: Option<Moment>,
    pub completed_at: Option<Moment>,
    pub increment_attempts: bool,
}

/// How many jobs stand where.
#[derive(Debug, Clone, PartialEq, Eq)]
pub struct AcquisitionJobCounts {
    pub queued: i64,
    pub downloading: i64,
    pub relinking: i64,
    pub blocked: i64,
    pub no_result: i64,
    pub failed: i64,
    pub completed_unlinked: i64,
}

impl Default for AcquisitionJobCounts {
    fn default() -> (out: Self)
        ensures
            out.queued == 0,
            out.downloading == 0,
            out.relinking == 0,
            out.blocked == 0,
            out.no_result == 0,
            out.failed == 0,
            out.completed_unlinked == 0,
    {
        AcquisitionJobCounts {
            queued: 0,
            downloading: 0,
            relinking: 0,
            blocked: 0,
            no_result: 0,
            failed: 0,
            completed_unlinked: 0,
        }
    }
}

impl AcquisitionJobCounts {
    /// The number of jobs that are not completed and linked.
    pub open spec fn total(&self) -> int {
        self.queued + self.downloading + self.relinking + self.blocked + self.no_result + self.failed + self.completed_unlinked
    }

    /// The number of jobs that are not completed and linked.
    pub fn active_total(&self) -> (out: i64)
        requires
            i64::MIN <= self.total() <= i64::MAX,
        ensures
            out == self.total(),
    {
        let sum: i128 = self.queued as i128 + self.downloading as i128 + self.relinking as i128 + self.blocked as i128 + self.no_result as i128 + self.failed as i128 + self.completed_unlinked as i128;
        sum as i64
    }
}

/// How many links a kind of media has.
#[derive(Debug, Clone, PartialEq, Eq)]
pub struct MediaTypeStats {
    pub media_type: String,
    pub library_items: i64,
    pub linked: i64,
    pub broken: i64,
}

/// The numbers of the dashboard.
#[derive(Debug, Clone, PartialEq, Eq)]
pub struct WebStats {
    pub active_links: i64,
    pub dead_links: i64,
    pub total_scans: i64,
    pub last_scan: Option<String>,
}

impl Default for WebStats {
    fn default() -> (out: Self)
        ensures
            out.active_links == 0,
            out.dead_links == 0,
            out.total_scans == 0,
            out.last_scan is None,
    {
        WebStats {
            active_links: 0,
            dead_links: 0,
            total_scans: 0,
            last_scan: None,
        }
    }
}

/// A recorded scan.
#[derive(Debug, Clone, PartialEq, Eq)]
pub struct ScanHistoryRecord {
    pub id: i64,
    pub started_at: String,
    pub origin: ScanRunOrigin,
    pub dry_run: bool,
    pub library_filter: Option<String>,
    pub run_token: Option<String>,
    pub search_missing: bool,
    pub library_items_found: i64,
    pub source_items_found: i64,
    pub matches_found: i64,
    pub links_created: i64,
    pub links_updated: i64,
    pub dead_marked: i64,
    pub links_removed: i64,
    pub links_skipped: i64,
    pub ambiguous_skipped: i64,
    pub skip_reason_json: Option<String>,
    pub runtime_checks_ms: i64,
    pub library_scan_ms: i64,
    pub source_inventory_ms: i64,
    pub matching_ms: i64,
    pub title_enrichment_ms: i64,
    pub linking_ms: i64,
    pub plex_refresh_ms: i64,
    pub plex_refresh_requested_paths: i64,
    pub plex_refresh_unique_paths: i64,
    pub plex_refresh_planned_batches: i64,
    pub plex_refresh_coalesced_batches: i64,
    pub plex_refresh_coalesced_paths: i64,
    pub plex_refresh_refreshed_batches: i64,
    pub plex_refresh_refreshed_paths_covered: i64,
    pub plex_refresh_skipped_batches: i64,
    pub plex_refresh_unresolved_paths: i64,
    pub plex_refresh_capped_batches: i64,
    pub plex_refresh_aborted_due_to_cap: bool,
    pub plex_refresh_failed_batches: i64,
    pub media_server_refresh_json: Option<String>,
    pub dead_link_sweep_ms: i64,
    /// The ratio as the bits of a double.
    pub cache_hit_ratio: Option<u64>,
    pub candidate_slots: i64,
    pub scored_candidates: i64,
    pub exact_id_hits: i64,
    pub auto_acquire_requests: i64,
    pub auto_acquire_missing_requests: i64,
    pub auto_acquire_cutoff_requests: i64,
    pub auto_acquire_dry_run_hits: i64,
    pub auto_acquire_submitted: i64,
    pub auto_acquire_no_result: i64,
    pub auto_acquire_blocked: i64,
    pub auto_acquire_failed: i64,
    pub auto_acquire_completed_linked: i64,
    pub auto_acquire_completed_unlinked: i64,
}

/// A pin of a source folder to an id.
#[derive(Debug, PartialEq, Eq)]
pub struct SourcePin {
    pub source_folder: String,
    pub media_id: String,
    pub origin: String,
    pub note: Option<String>,
    pub updated_at: String,
}

/// The last sign of life of the daemon.
#[derive(Debug, PartialEq, Eq)]
pub struct DaemonHeartbeatRecord {
    pub last_seen_at: String,
    pub phase: String,
    pub detail: Option<String>,
}

/// Moments are ordered by their seconds first: of two, one is not after the other, both
/// only where they are equal, and order carries over.
pub proof fn lemma_moments_are_ordered(a: Moment, b: Moment, c: Moment)
    ensures
        a.seconds < b.seconds ==> a.up_to(b) && !b.up_to(a),
        a.seconds == b.seconds && a.nanos < b.nanos ==> a.up_to(b) && !b.up_to(a),
        a.up_to(a),
        a.up_to(b) || b.up_to(a),
        a.up_to(b) && b.up_to(a) ==> a == b,
        a.up_to(b) && b.up_to(c) ==> a.up_to(c),
{
}

/// The names in the database are those that its queries use.
pub proof fn lemma_stored_names(
    origin: ScanRunOrigin,
    kind: AcquisitionRelinkKind,
    status: AcquisitionJobStatus,
)
    ensures
        origin is Unknown ==> origin.name() == "unknown"@,
        origin is Cli ==> origin.name() == "cli"@,
        origin is Daemon ==> origin.name() == "daemon"@,
        origin is Web ==> origin.name() == "web"@,
        origin is AutoAcquire ==> origin.name() == "auto_acquire"@,
        kind is MediaId ==> kind.name() == "media_id"@,
        kind is MediaEpisode ==> kind.name() == "media_episode"@,
        kind is SymlinkPath ==> kind.name() == "symlink_path"@,
        status is Queued ==> status.name() == "queued"@,
        status is Downloading ==> status.name() == "downloading"@,
        status is Relinking ==> status.name() == "relinking"@,
        status is NoResult ==> status.name() == "no_result"@,
        status is Blocked ==> status.name() == "blocked"@,
        status is CompletedLinked ==> status.name() == "completed_linked"@,
        status is CompletedUnlinked ==> status.name() == "completed_unlinked"@,
        status is Failed ==> status.name() == "failed"@,
{
}

/// Every job that is counted, in whatever state, counts once in the total.
pub proof fn lemma_every_state_counts(counts: AcquisitionJobCounts, n: i64)
    ensures
        (AcquisitionJobCounts { queued: n, ..counts }).total() - counts.total() == n
            - counts.queued,
        (AcquisitionJobCounts { downloading: n, ..counts }).total() - counts.total() == n
            - counts.downloading,
        (AcquisitionJobCounts { relinking: n, ..counts }).total() - counts.total() == n
            - counts.relinking,
        (AcquisitionJobCounts { blocked: n, ..counts }).total() - counts.total() == n
            - counts.blocked,
        (AcquisitionJobCounts { no_result: n, ..counts }).total() - counts.total() == n
            - counts.no_result,
        (AcquisitionJobCounts { failed: n, ..counts }).total() - counts.total() == n
            - counts.failed,
        (AcquisitionJobCounts { completed_unlinked: n, ..counts }).total() - counts.total() == n
            - counts.completed_unlinked,
        (AcquisitionJobCounts {
            queued: 0,
            downloading: 0,
            relinking: 0,
            blocked: 0,
            no_result: 0,
            failed: 0,
            completed_unlinked: 0,
        }).total() == 0,
{
}

/// What cannot be read back is passed on in the refusal, with the names that could be.
pub proof fn lemma_refusals_name_the_value(value: Seq<char>)
    ensures
        AcquisitionRelinkKind::refusal(value) == "Unsupported acquisition relink kind '"@ + value
            + "' in the database. Expected one of: media_id, media_episode, symlink_path"@,
        AcquisitionJobStatus::refusal(value) == "Unsupported acquisition job status '"@ + value
            + "' in the database. Expected one of: queued, downloading, relinking, no_result, blocked, completed_linked, completed_unlinked, failed"@,
{
}

} // verus!
