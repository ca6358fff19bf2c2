//! Operations that hold a lock while they run.

use vstd::prelude::*;
use crate::text;

verus! {

/// The lock of operations on a library.
pub const LIBRARY_OPERATION_LOCK: &'static str = "library-operation";

/// How long an operation holds its lock without a sign of life.
pub const OPERATION_LEASE_SECONDS: i64 = 300;

/// A recorded operation.
#[derive(Debug, PartialEq, Eq)]
pub struct OperationRunRecord {
    pub id: i64,
    pub lock_key: String,
    pub kind: String,
    pub origin: String,
    pub scope: Option<String>,
    pub status: String,
    pub started_at: String,
    pub heartbeat_at: String,
    pub finished_at: Option<String>,
    pub message: Option<String>,
    pub result_json: Option<String>,
}

/// The operation that holds the lock that another one wanted.
#[derive(Debug, PartialEq, Eq)]
pub struct OperationConflict {
    pub active: OperationRunRecord,
}

/// How far back a running operation must have shown a sign of life.
pub fn stale_modifier() -> (out: String)
    ensures
        out@ == "-"@ + text::decimal(300) + " seconds"@,
{
    text::concat3("-", text::decimal_text(OPERATION_LEASE_SECONDS as u64).as_str(), " seconds")
}

/// What came of an attempt to start an operation. `started` is the operation's row
/// where exactly one row was inserted; `active` is the row of the running operation
/// with the same lock.
pub fn acquisition_outcome(
    started: Option<OperationRunRecord>,
    active: Option<OperationRunRecord>,
) -> (out: Result<Result<OperationRunRecord, OperationConflict>, String>)
    ensures
        match (started, active) {
            (Some(s), _) => out == Ok::<
                Result<OperationRunRecord, OperationConflict>,
                String,
            >(Ok(s)),
            (None, Some(a)) => out == Ok::<
                Result<OperationRunRecord, OperationConflict>,
                String,
            >(Err(OperationConflict { active: a })),
            (None, None) => out is Err && out->Err_0@
                == "operation acquisition lost without an active operation"@,
        },
{
    match started {
        Some(s) => Ok(Ok(s)),
        None => match active {
            Some(a) => Ok(Err(OperationConflict { active: a })),
            None => Err("operation acquisition lost without an active operation".to_owned()),
        },
    }
}

/// Whether an operation can end in a status.
pub open spec fn ends_operation(status: Seq<char>) -> bool {
    status == "succeeded"@ || status == "failed"@ || status == "interrupted"@
}

/// Whether an operation can end in a status.
pub fn is_final_status(status: &str) -> (b: bool)
    ensures
        b == ends_operation(status@),
{
    text::text_eq(status, "succeeded") || text::text_eq(status, "failed") || text::text_eq(
        status,
        "interrupted",
    )
}

/// The number of operations that are listed at once, between one and five hundred.
pub fn clamped_limit(limit: i64) -> (out: i64)
    ensures
        out == (if limit < 1 {
            1
        } else if limit > 500 {
            500
        } else {
            limit as int
        }),
{
    if limit < 1 {
        1
    } else if limit > 500 {
        500
    } else {
        limit
    }
}

/// An operation ends in one of three ways, and while it runs in none of them.
pub proof fn lemma_operations_end_in_three_ways(status: Seq<char>)
    ensures
        ends_operation(status) <==> seq!["succeeded"@, "failed"@, "interrupted"@].contains(status),
        !ends_operation("running"@),
{
    let ways = seq!["succeeded"@, "failed"@, "interrupted"@];
    assert(ways[0] == "succeeded"@ && ways[1] == "failed"@ && ways[2] == "interrupted"@);
    reveal_strlit("succeeded");
    reveal_strlit("failed");
    reveal_strlit("interrupted");
    reveal_strlit("running");
    assert("running"@.len() != "succeeded"@.len());
    assert("running"@.len() != "failed"@.len());
    assert("running"@.len() != "interrupted"@.len());
}

} // verus!
