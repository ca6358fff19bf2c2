//! Runs of scheduled jobs.

use vstd::prelude::*;

verus! {

/// Where a run of a scheduled job stands.
#[derive(Debug, Clone, Copy, PartialEq, Eq, Structural)]
pub enum JobRunStatus {
    Queued,
    Running,
    Succeeded,
    Failed,
    Skipped,
}

impl JobRunStatus {
    /// The name of the status.
    pub open spec fn name(self) -> Seq<char> {
        match self {
            JobRunStatus::Queued => "queued"@,
            JobRunStatus::Running => "running"@,
            JobRunStatus::Succeeded => "succeeded"@,
            JobRunStatus::Failed => "failed"@,
            JobRunStatus::Skipped => "skipped"@,
        }
    }

    /// The name of the status.
    pub fn as_str(self) -> (out: &'static str)
        ensures
            out@ == self.name(),
    {
        match self {
            JobRunStatus::Queued => "queued",
            JobRunStatus::Running => "running",
            JobRunStatus::Succeeded => "succeeded",
            JobRunStatus::Failed => "failed",
            JobRunStatus::Skipped => "skipped",
        }
    }
}

/// When a run that is recorded in a status started and finished: now, where the
/// status says that it does.
pub fn run_times<'a>(status: JobRunStatus, now: &'a str) -> (out: (Option<&'a str>, Option<&'a str>))
    ensures
        out.0 == (if status is Running {
            Some(now)
        } else {
            None
        }),
        out.1 == (if status is Succeeded || status is Failed || status is Skipped {
            Some(now)
        } else {
            None
        }),
{
    match status {
        JobRunStatus::Running => (Some(now), None),
        JobRunStatus::Succeeded => (None, Some(now)),
        JobRunStatus::Failed => (None, Some(now)),
        JobRunStatus::Skipped => (None, Some(now)),
        JobRunStatus::Queued => (None, None),
    }
}

/// The names of states are those that are stored.
pub proof fn lemma_run_status_names(status: JobRunStatus)
    ensures
        status is Queued ==> status.name() == "queued"@,
        status is Running ==> status.name() == "running"@,
        status is Succeeded ==> status.name() == "succeeded"@,
        status is Failed ==> status.name() == "failed"@,
        status is Skipped ==> status.name() == "skipped"@,
{
}

} // verus!
