//! Jobs that acquire missing media.

use vstd::prelude::*;
use crate::db::links::BoundQuery;
use crate::db::moments;
use crate::db::types::{
    AcquisitionJobRecord, AcquisitionJobSeed, AcquisitionJobStatus, AcquisitionJobUpdate,
    AcquisitionRelinkKind, Moment,
};
use crate::json;
use crate::order;
use crate::text;

verus! {

/// Whether a job that is enqueued again starts over: it ended without a link, and
/// its time to be retried has come.
pub open spec fn starts_over(
    status: AcquisitionJobStatus,
    next_retry_at: Option<Moment>,
    now: Moment,
) -> bool {
    match status {
        AcquisitionJobStatus::Queued => false,
        AcquisitionJobStatus::Downloading => false,
        AcquisitionJobStatus::Relinking => false,
        AcquisitionJobStatus::CompletedLinked => false,
        _ => match next_retry_at {
            Some(at) => at.up_to(now),
            None => true,
        },
    }
}

/// Whether a job that is enqueued again starts over.
pub fn should_reset_acquisition_job(existing: &AcquisitionJobRecord, now: Moment) -> (b: bool)
    ensures
        b == starts_over(existing.status, existing.next_retry_at, now),
{
    match existing.status {
        AcquisitionJobStatus::Queued => false,
        AcquisitionJobStatus::Downloading => false,
        AcquisitionJobStatus::Relinking => false,
        AcquisitionJobStatus::CompletedLinked => false,
        _ => match existing.next_retry_at {
            Some(at) => at.is_up_to(now),
            None => true,
        },
    }
}

/// What enqueueing a job writes.
#[derive(Debug, PartialEq, Eq)]
pub struct JobWrite {
    /// The job that is changed; `None` where one is inserted.
    pub id: Option<i64>,
    /// Whether the job is queued again with nothing known of its outcome.
    pub reset: bool,
    pub request_key: String,
    pub label: String,
    pub query: String,
    pub query_hints_json: String,
    pub imdb_id: Option<String>,
    pub categories_json: String,
    pub arr: String,
    pub library_filter: Option<String>,
    pub relink_kind: String,
    pub relink_value: String,
    /// When it is written.
    pub at: String,
}

/// Whether what is written holds all that a seed asks for.
pub open spec fn asks_for(write: JobWrite, seed: AcquisitionJobSeed) -> bool {
    &&& write.request_key == seed.request_key
    &&& write.label == seed.label
    &&& write.query == seed.query
    &&& write.query_hints_json@ == json::json_of_texts(text::views(seed.query_hints@))
    &&& json::texts_of_json(write.query_hints_json@) == Ok::<Seq<Seq<char>>, Seq<char>>(
        text::views(seed.query_hints@),
    )
    &&& write.imdb_id == seed.imdb_id
    &&& write.categories_json@ == json::json_of_ints(seed.categories@)
    &&& json::ints_of_json(write.categories_json@) == Ok::<Seq<i32>, Seq<char>>(seed.categories@)
    &&& write.arr == seed.arr
    &&& write.library_filter == seed.library_filter
    &&& write.relink_kind@ == seed.relink_kind.name()
    &&& write.relink_value == seed.relink_value
}

/// What enqueueing a job writes: a job with the same key is changed, and starts over
/// where it may; else one is inserted. `None` where the moment cannot be written.
pub fn enqueue_acquisition_job(
    seed: &AcquisitionJobSeed,
    existing: Option<&AcquisitionJobRecord>,
    now: Moment,
) -> (out: Option<JobWrite>)
    ensures
        match out {
            None => moments::rfc3339_writing(now) is None,
            Some(w) => {
                &&& moments::rfc3339_writing(now) == Some(w.at@)
                &&& match existing {
                    Some(job) => w.id == Some(job.id) && w.reset == starts_over(
                        job.status,
                        job.next_retry_at,
                        now,
                    ),
                    None => w.id is None && !w.reset,
                }
                &&& asks_for(w, *seed)
            },
        },
{
    let at = match moments::write_rfc3339(now) {
        Some(at) => at,
        None => {
            return None;
        },
    };
    let (id, reset) = match existing {
        Some(job) => (Some(job.id), should_reset_acquisition_job(job, now)),
        None => (None, false),
    };
    Some(
        JobWrite {
            id,
            reset,
            request_key: seed.request_key.clone(),
            label: seed.label.clone(),
            query: seed.query.clone(),
            query_hints_json: json::write_texts(&seed.query_hints),
            imdb_id: seed.imdb_id.clone(),
            categories_json: json::write_ints(&seed.categories),
            arr: seed.arr.clone(),
            library_filter: seed.library_filter.clone(),
            relink_kind: seed.relink_kind.as_str().to_owned(),
            relink_value: seed.relink_value.clone(),
            at,
        },
    )
}

/// A row of the jobs.
#[derive(Debug, PartialEq, Eq)]
pub struct JobRow {
    pub id: i64,
    pub request_key: String,
    pub label: String,
    pub query: String,
    pub query_hints_json: String,
    pub imdb_id: Option<String>,
    pub categories_json: String,
    pub arr: String,
    pub library_filter: Option<String>,
    pub relink_kind: String,
    pub relink_value: String,
    pub status: String,
    pub release_title: Option<String>,
    pub info_hash: Option<String>,
    pub error: Option<String>,
    pub attempts: i64,
    pub next_retry_at: Option<String>,
    pub submitted_at: Option<String>,
    pub completed_at: Option<String>,
}

impl JobRow {
    /// What is wrong with the first text of the row that means nothing.
    pub open spec fn problem(&self) -> Option<Seq<char>> {
        if json::texts_of_json(self.query_hints_json@) is Err {
            Some(json::texts_of_json(self.query_hints_json@)->Err_0)
        } else if json::ints_of_json(self.categories_json@) is Err {
            Some(json::ints_of_json(self.categories_json@)->Err_0)
        } else if !AcquisitionRelinkKind::is_name(self.relink_kind@) {
            Some(AcquisitionRelinkKind::refusal(self.relink_kind@))
        } else if !AcquisitionJobStatus::is_name(self.status@) {
            Some(AcquisitionJobStatus::refusal(self.status@))
        } else if moments::opt_moment(self.next_retry_at) is Err {
            Some(moments::opt_moment(self.next_retry_at)->Err_0)
        } else if moments::opt_moment(self.submitted_at) is Err {
            Some(moments::opt_moment(self.submitted_at)->Err_0)
        } else if moments::opt_moment(self.completed_at) is Err {
            Some(moments::opt_moment(self.completed_at)->Err_0)
        } else {
            None
        }
    }

    /// Whether the texts of the row mean something.
    pub open spec fn is_readable(&self) -> bool {
        self.problem() is None
    }
}

/// Whether a record is that of a row.
pub open spec fn job_fits(job: AcquisitionJobRecord, row: JobRow) -> bool {
    &&& job.id == row.id
    &&& job.request_key == row.request_key
    &&& job.label == row.label
    &&& job.query == row.query
    &&& json::texts_of_json(row.query_hints_json@) == Ok::<Seq<Seq<char>>, Seq<char>>(
        text::views(job.query_hints@),
    )
    &&& job.imdb_id == row.imdb_id
    &&& json::ints_of_json(row.categories_json@) == Ok::<Seq<i32>, Seq<char>>(job.categories@)
    &&& job.arr == row.arr
    &&& job.library_filter == row.library_filter
    &&& job.relink_kind.name() == row.relink_kind@
    &&& job.relink_value == row.relink_value
    &&& job.status.name() == row.status@
    &&& job.release_title == row.release_title
    &&& job.info_hash == row.info_hash
    &&& job.error == row.error
    &&& job.attempts == row.attempts
    &&& moments::opt_moment(row.next_retry_at) == Ok::<Option<Moment>, Seq<char>>(job.next_retry_at)
    &&& moments::opt_moment(row.submitted_at) == Ok::<Option<Moment>, Seq<char>>(job.submitted_at)
    &&& moments::opt_moment(row.completed_at) == Ok::<Option<Moment>, Seq<char>>(job.completed_at)
}

/// The record of a row, or what is wrong with the first of its texts that means nothing.
pub fn row_to_acquisition_job(row: JobRow) -> (out: Result<AcquisitionJobRecord, String>)
    ensures
        match out {
            Ok(job) => row.is_readable() && job_fits(job, row),
            Err(e) => row.problem() == Some(e@),
        },
{
    proof {
        types_names();
    }
    let query_hints = match json::read_texts(row.query_hints_json.as_str()) {
        Ok(v) => v,
        Err(e) => {
            return Err(e);
        },
    };
    let categories = match json::read_ints(row.categories_json.as_str()) {
        Ok(v) => v,
        Err(e) => {
            return Err(e);
        },
    };
    let relink_kind = match AcquisitionRelinkKind::from_db(row.relink_kind.as_str()) {
        Ok(v) => v,
        Err(e) => {
            return Err(e);
        },
    };
    let status = match AcquisitionJobStatus::from_db(row.status.as_str()) {
        Ok(v) => v,
        Err(e) => {
            return Err(e);
        },
    };
    let next_retry_at = match moments::parse_optional_datetime(&row.next_retry_at) {
        Ok(v) => v,
        Err(e) => {
            return Err(e);
        },
    };
    let submitted_at = match moments::parse_optional_datetime(&row.submitted_at) {
        Ok(v) => v,
        Err(e) => {
            return Err(e);
        },
    };
    let completed_at = match moments::parse_optional_datetime(&row.completed_at) {
        Ok(v) => v,
        Err(e) => {
            return Err(e);
        },
    };
    Ok(
        AcquisitionJobRecord {
            id: row.id,
            request_key: row.request_key,
            label: row.label,
            query: row.query,
            query_hints,
            imdb_id: row.imdb_id,
            categories,
            arr: row.arr,
            library_filter: row.library_filter,
            relink_kind,
            relink_value: row.relink_value,
            status,
            release_title: row.release_title,
            info_hash: row.info_hash,
            error: row.error,
            attempts: row.attempts,
            next_retry_at,
            submitted_at,
            completed_at,
        },
    )
}

proof fn types_names()
    ensures
        forall|k: AcquisitionRelinkKind| AcquisitionRelinkKind::is_name(#[trigger] k.name()),
        forall|s: AcquisitionJobStatus| AcquisitionJobStatus::is_name(#[trigger] s.name()),
{
}

/// The row that inserting a job leaves in the database.
pub open spec fn is_inserted(row: JobRow, write: JobWrite) -> bool {
    &&& row.request_key == write.request_key
    &&& row.label == write.label
    &&& row.query == write.query
    &&& row.query_hints_json == write.query_hints_json
    &&& row.imdb_id == write.imdb_id
    &&& row.categories_json == write.categories_json
    &&& row.arr == write.arr
    &&& row.library_filter == write.library_filter
    &&& row.relink_kind == write.relink_kind
    &&& row.relink_value == write.relink_value
    &&& row.status@ == AcquisitionJobStatus::Queued.name()
    &&& row.next_retry_at is None
    &&& row.submitted_at is None
    &&& row.completed_at is None
}

/// A job that was enqueued is read back: its row is readable, and the record holds
/// what the seed asked for, queued.
pub proof fn lemma_enqueued_job_is_read_back(
    seed: AcquisitionJobSeed,
    write: JobWrite,
    row: JobRow,
    job: AcquisitionJobRecord,
)
    requires
        asks_for(write, seed),
        is_inserted(row, write),
        job_fits(job, row),
    ensures
        row.is_readable(),
        job.request_key == seed.request_key,
        job.label == seed.label,
        job.query == seed.query,
        text::views(job.query_hints@) == text::views(seed.query_hints@),
        job.imdb_id == seed.imdb_id,
        job.categories@ == seed.categories@,
        job.arr == seed.arr,
        job.library_filter == seed.library_filter,
        job.relink_kind == seed.relink_kind,
        job.relink_value == seed.relink_value,
        job.status is Queued,
        job.next_retry_at is None,
        job.submitted_at is None,
        job.completed_at is None,
{
    crate::db::types::lemma_acquisition_relink_kind_names(job.relink_kind, seed.relink_kind);
    crate::db::types::lemma_acquisition_job_status_names(
        job.status,
        AcquisitionJobStatus::Queued,
    );
}

/// A job in progress, and one that ended with a link, is never started over.
pub proof fn lemma_only_ended_jobs_start_over(
    status: AcquisitionJobStatus,
    next_retry_at: Option<Moment>,
    now: Moment,
)
    ensures
        starts_over(status, next_retry_at, now) ==> status is Blocked || status is NoResult
            || status is CompletedUnlinked || status is Failed,
        starts_over(status, next_retry_at, now) && next_retry_at is Some
            ==> next_retry_at->0.up_to(now),
{
}

/// What a change of a job's state writes.
#[derive(Debug, PartialEq, Eq)]
pub struct JobStateWrite {
    pub status: String,
    pub release_title: Option<String>,
    pub info_hash: Option<String>,
    pub error: Option<String>,
    pub next_retry_at: Option<String>,
    pub submitted_at: Option<String>,
    pub completed_at: Option<String>,
    pub increment_attempts: bool,
}

/// The text of an optional moment.
pub open spec fn opt_writing(moment: Option<Moment>) -> Option<Seq<char>> {
    match moment {
        Some(m) => moments::rfc3339_writing(m),
        None => None,
    }
}

/// Whether an optional moment can be written.
pub open spec fn can_write(moment: Option<Moment>) -> bool {
    moment is Some ==> moments::rfc3339_writing(moment->0) is Some
}

fn write_optional(moment: Option<Moment>) -> (out: Option<Option<String>>)
    ensures
        match out {
            Some(t) => can_write(moment) && text::opt(t) == opt_writing(moment),
            None => !can_write(moment),
        },
{
    match moment {
        Some(m) => match moments::write_rfc3339(m) {
            Some(t) => Some(Some(t)),
            None => None,
        },
        None => Some(None),
    }
}

/// What a change of a job's state writes; `None` where one of its moments cannot be
/// written.
pub fn update_acquisition_job_state(update: &AcquisitionJobUpdate) -> (out: Option<JobStateWrite>)
    ensures
        match out {
            None => !can_write(update.next_retry_at) || !can_write(update.submitted_at)
                || !can_write(update.completed_at),
            Some(w) => {
                &&& w.status@ == update.status.name()
                &&& w.release_title == update.release_title
                &&& w.info_hash == update.info_hash
                &&& w.error == update.error
                &&& text::opt(w.next_retry_at) == opt_writing(update.next_retry_at)
                &&& text::opt(w.submitted_at) == opt_writing(update.submitted_at)
                &&& text::opt(w.completed_at) == opt_writing(update.completed_at)
                &&& w.increment_attempts == update.increment_attempts
            },
        },
{
    let next_retry_at = match write_optional(update.next_retry_at) {
        Some(t) => t,
        None => {
            return None;
        },
    };
    let submitted_at = match write_optional(update.submitted_at) {
        Some(t) => t,
        None => {
            return None;
        },
    };
    let completed_at = match write_optional(update.completed_at) {
        Some(t) => t,
        None => {
            return None;
        },
    };
    Some(
        JobStateWrite {
            status: update.status.as_str().to_owned(),
            release_title: update.release_title.clone(),
            info_hash: update.info_hash.clone(),
            error: update.error.clone(),
            next_retry_at,
            submitted_at,
            completed_at,
            increment_attempts: update.increment_attempts,
        },
    )
}

// ---------------------------------------------------------------------------
// Queries by status

/// `n` question marks with commas between them.
pub open spec fn question_marks(n: nat) -> Seq<char>
    decreases n,
{
    if n == 0 {
        Seq::<char>::empty()
    } else if n == 1 {
        "?"@
    } else {
        question_marks((n - 1) as nat) + ", "@ + "?"@
    }
}

/// The names of statuses.
pub open spec fn status_names(statuses: Seq<AcquisitionJobStatus>) -> Seq<Seq<char>> {
    statuses.map_values(|s: AcquisitionJobStatus| s.name())
}

/// A query limited to jobs that stand in one of the statuses.
pub fn push_status_clause(query: &str, statuses: &Vec<AcquisitionJobStatus>) -> (out: BoundQuery)
    ensures
        out.sql@ == query@ + " WHERE status IN ("@ + question_marks(statuses@.len()) + ")"@,
        text::views(out.binds@) == status_names(statuses@),
{
    let ghost wanted = status_names(statuses@);
    let mut binds: Vec<String> = Vec::new();
    let mut sql: String = text::concat2(query, " WHERE status IN (");
    let ghost head = sql@;
    let mut i: usize = 0;
    assert(text::views(binds@) =~= wanted.take(0));
    assert(sql@ =~= head + question_marks(0));
    while i < statuses.len()
        invariant
            i <= statuses@.len(),
            wanted == status_names(statuses@),
            text::views(binds@) == wanted.take(i as int),
            sql@ == head + question_marks(i as nat),
        decreases statuses@.len() - i,
    {
        if i > 0 {
            sql.append(", ");
        }
        sql.append("?");
        text::push_text(&mut binds, statuses[i].as_str().to_owned());
        assert(text::views(binds@) =~= wanted.take(i + 1));
        assert(sql@ =~= head + question_marks((i + 1) as nat));
        i += 1;
    }
    assert(wanted.take(i as int) =~= wanted);
    sql.append(")");
    BoundQuery { sql, binds }
}

/// The query that lists jobs, newest first: those in one of the statuses, or all
/// where none is given.
pub fn list_acquisition_jobs_query(query: &str, statuses: Option<&Vec<AcquisitionJobStatus>>) -> (out:
    BoundQuery)
    ensures
        match statuses {
            Some(list) if list@.len() > 0 => out.sql@ == query@ + " WHERE status IN ("@
                + question_marks(list@.len()) + ")"@ + " ORDER BY id DESC LIMIT ?"@
                && text::views(out.binds@) == status_names(list@),
            _ => out.sql@ == query@ + " ORDER BY id DESC LIMIT ?"@ && out.binds@.len() == 0,
        },
{
    match statuses {
        Some(list) => {
            if list.len() > 0 {
                let clause = push_status_clause(query, list);
                return BoundQuery {
                    sql: text::concat2(clause.sql.as_str(), " ORDER BY id DESC LIMIT ?"),
                    binds: clause.binds,
                };
            }
        },
        None => {},
    }
    BoundQuery { sql: text::concat2(query, " ORDER BY id DESC LIMIT ?"), binds: Vec::new() }
}

// ---------------------------------------------------------------------------
// Recovery

/// The moment some minutes before; a job that was submitted earlier is stale.
pub fn stale_cutoff(now: Moment, timeout_minutes: u64) -> (out: Moment)
    requires
        i64::MIN <= now.seconds - 60 * timeout_minutes,
    ensures
        out.seconds == now.seconds - 60 * timeout_minutes,
        out.nanos == now.nanos,
{
    let seconds: i128 = now.seconds as i128 - 60 * (timeout_minutes as i128);
    Moment { seconds: seconds as i64, nanos: now.nanos }
}

/// When a recovered job is tried again: half an hour later.
pub fn recovery_retry(now: Moment) -> (out: Moment)
    requires
        now.seconds <= i64::MAX - 1800,
    ensures
        out.seconds == now.seconds + 1800,
        out.nanos == now.nanos,
{
    Moment { seconds: now.seconds + 1800, nanos: now.nanos }
}

/// A job that is downloading: its number, and when it was submitted.
#[derive(Debug, PartialEq, Eq)]
pub struct DownloadingRow {
    pub id: i64,
    pub submitted_at: Option<String>,
}

/// Whether a download is stale: it was submitted before the cutoff, or nobody knows
/// when.
pub open spec fn is_stale(row: DownloadingRow, cutoff: Seq<char>) -> bool {
    match row.submitted_at {
        Some(at) => order::text_before(at@, cutoff),
        None => true,
    }
}

/// The numbers of the stale downloads, in order.
pub open spec fn stale_ids(rows: Seq<DownloadingRow>, cutoff: Seq<char>) -> Seq<i64>
    decreases rows.len(),
{
    if rows.len() == 0 {
        Seq::<i64>::empty()
    } else if is_stale(rows.last(), cutoff) {
        stale_ids(rows.drop_last(), cutoff).push(rows.last().id)
    } else {
        stale_ids(rows.drop_last(), cutoff)
    }
}

/// The numbers of the downloads that are to be marked as failed.
pub fn recover_stale_downloading_jobs(rows: &Vec<DownloadingRow>, cutoff: &str) -> (out: Vec<i64>)
    ensures
        out@ == stale_ids(rows@, cutoff@),
{
    let mut out: Vec<i64> = Vec::new();
    let mut i: usize = 0;
    assert(rows@.take(0) =~= Seq::<DownloadingRow>::empty());
    while i < rows.len()
        invariant
            i <= rows@.len(),
            out@ == stale_ids(rows@.take(i as int), cutoff@),
        decreases rows@.len() - i,
    {
        assert(rows@.take(i + 1).drop_last() =~= rows@.take(i as int));
        let stale = match &rows[i].submitted_at {
            Some(at) => order::comes_before(at.as_str(), cutoff),
            None => true,
        };
        if stale {
            out.push(rows[i].id);
        }
        i += 1;
    }
    assert(rows@.take(i as int) =~= rows@);
    out
}

// ---------------------------------------------------------------------------
// What starting over and recovery amount to

/// A job starts over exactly where it ended without a link and its time to be retried has
/// come, or none is set.
pub proof fn lemma_ended_jobs_start_over(
    status: AcquisitionJobStatus,
    next_retry_at: Option<Moment>,
    now: Moment,
)
    ensures
        starts_over(status, next_retry_at, now) <==> (status is NoResult || status is Blocked
            || status is CompletedUnlinked || status is Failed) && (next_retry_at matches Some(at)
            ==> at.seconds < now.seconds || at.seconds == now.seconds && at.nanos <= now.nanos),
{
}

/// A job that starts over once starts over at every later moment too.
pub proof fn lemma_waiting_is_enough(
    status: AcquisitionJobStatus,
    next_retry_at: Option<Moment>,
    now: Moment,
    later: Moment,
)
    requires
        starts_over(status, next_retry_at, now),
        now.up_to(later),
    ensures
        starts_over(status, next_retry_at, later),
{
}

/// A row is readable exactly where each of its texts means something.
pub proof fn lemma_readable_rows(row: JobRow)
    ensures
        row.is_readable() <==> {
            &&& json::texts_of_json(row.query_hints_json@) is Ok
            &&& json::ints_of_json(row.categories_json@) is Ok
            &&& AcquisitionRelinkKind::is_name(row.relink_kind@)
            &&& AcquisitionJobStatus::is_name(row.status@)
            &&& moments::opt_moment(row.next_retry_at) is Ok
            &&& moments::opt_moment(row.submitted_at) is Ok
            &&& moments::opt_moment(row.completed_at) is Ok
        },
{
}

/// The record of a row tells how far the job has come: its state, what was found for it,
/// its attempts and its times.
pub proof fn lemma_job_tells_its_row(job: AcquisitionJobRecord, row: JobRow)
    requires
        job_fits(job, row),
    ensures
        job.id == row.id,
        job.status.name() == row.status@,
        job.release_title == row.release_title,
        job.info_hash == row.info_hash,
        job.error == row.error,
        job.attempts == row.attempts,
        row.next_retry_at is None <==> job.next_retry_at is None,
        row.submitted_at is None <==> job.submitted_at is None,
        row.completed_at is None <==> job.completed_at is None,
        row.next_retry_at matches Some(t) ==> moments::stored_moment(t@) == Ok::<Moment, Seq<char>>(
            job.next_retry_at->0,
        ),
        row.submitted_at matches Some(t) ==> moments::stored_moment(t@) == Ok::<Moment, Seq<char>>(
            job.submitted_at->0,
        ),
        row.completed_at matches Some(t) ==> moments::stored_moment(t@) == Ok::<Moment, Seq<char>>(
            job.completed_at->0,
        ),
{
}

/// A download is recovered exactly where it was submitted before the cutoff or nobody knows
/// when.
pub proof fn lemma_stale_downloads_are_recovered(
    rows: Seq<DownloadingRow>,
    cutoff: Seq<char>,
    id: i64,
)
    ensures
        stale_ids(rows, cutoff).contains(id) <==> exists|k: int|
            #![trigger rows[k]]
            0 <= k < rows.len() && rows[k].id == id && (rows[k].submitted_at matches Some(at)
                ==> order::text_before(at@, cutoff)),
        stale_ids(rows, cutoff).len() <= rows.len(),
    decreases rows.len(),
{
    if rows.len() > 0 {
        let rest = rows.drop_last();
        lemma_stale_downloads_are_recovered(rest, cutoff, id);
        let before = stale_ids(rest, cutoff);
        let now = stale_ids(rows, cutoff);
        let n = rows.len() - 1;
        if now.contains(id) {
            let i = choose|i: int| 0 <= i < now.len() && now[i] == id;
            if i < before.len() {
                assert(before[i] == id);
                assert(before.contains(id));
                let k = choose|k: int|
                    #![trigger rest[k]]
                    0 <= k < rest.len() && rest[k].id == id && (rest[k].submitted_at matches Some(
                        at,
                    ) ==> order::text_before(at@, cutoff));
                assert(rows[k] == rest[k]);
            } else {
                assert(rows[n].id == id);
            }
        }
        if exists|k: int|
            #![trigger rows[k]]
            0 <= k < rows.len() && rows[k].id == id && (rows[k].submitted_at matches Some(at)
                ==> order::text_before(at@, cutoff)) {
            let k = choose|k: int|
                #![trigger rows[k]]
                0 <= k < rows.len() && rows[k].id == id && (rows[k].submitted_at matches Some(at)
                    ==> order::text_before(at@, cutoff));
            if k < n {
                assert(rest[k] == rows[k]);
                assert(before.contains(id));
                let i = choose|i: int| 0 <= i < before.len() && before[i] == id;
                assert(now[i] == id);
            } else {
                assert(now[now.len() - 1] == id);
            }
        }
    }
}

/// A text without question marks adds none.
proof fn lemma_split_same(text: Seq<char>, piece: Seq<char>, sep: char)
    requires
        !piece.contains(sep),
    ensures
        text::split(text + piece, sep).len() == text::split(text, sep).len(),
    decreases piece.len(),
{
    if piece.len() == 0 {
        assert(text + piece =~= text);
    } else {
        let rest = piece.drop_last();
        assert(!rest.contains(sep)) by {
            if rest.contains(sep) {
                let i = choose|i: int| 0 <= i < rest.len() && rest[i] == sep;
                assert(piece[i] == sep);
            }
        }
        lemma_split_same(text, rest, sep);
        assert((text + piece).drop_last() =~= text + rest);
        assert(piece.contains(piece.last()));
        text::lemma_split_nonempty(text + rest, sep);
    }
}

/// A query has a question mark for each status that is bound.
pub proof fn lemma_question_marks(n: nat)
    ensures
        text::split(question_marks(n), '?').len() == n + 1,
    decreases n,
{
    reveal_strlit("?");
    reveal_strlit(", ");
    let none = Seq::<char>::empty();
    assert("?"@ =~= seq!['?']);
    if n == 0 {
        assert(text::split(none, '?') =~= seq![none]);
    } else if n == 1 {
        text::lemma_split_grows(none, none, '?');
        assert(none.push('?') + none =~= "?"@);
        assert(text::split(none, '?') =~= seq![none]);
    } else {
        let before = question_marks((n - 1) as nat);
        lemma_question_marks((n - 1) as nat);
        lemma_split_same(before, ", "@, '?');
        let head = before + ", "@;
        text::lemma_split_grows(head, none, '?');
        assert(head.push('?') + none =~= head + "?"@);
    }
}

/// A moment that is set is written as it is, one that is not is left out, and only one out
/// of range cannot be written.
pub proof fn lemma_moments_are_written(moment: Option<Moment>)
    ensures
        moment is None ==> opt_writing(moment) is None && can_write(moment),
        moment matches Some(m) ==> opt_writing(moment) == moments::rfc3339_writing(m) && (can_write(
            moment,
        ) <==> moments::rfc3339_writing(m) is Some),
{
}

/// The statuses are bound in their order, by their names.
pub proof fn lemma_statuses_are_bound(statuses: Seq<AcquisitionJobStatus>, i: int)
    requires
        0 <= i < statuses.len(),
    ensures
        status_names(statuses).len() == statuses.len(),
        status_names(statuses)[i] == statuses[i].name(),
{
}

} // verus!
