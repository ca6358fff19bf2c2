//! Writing one link, step by step: each step says what has to be looked at or
//! done next, and what was found decides the step after it.

use vstd::prelude::*;
use crate::linker::readiness::SourceReadiness;
use crate::linker::{
    increment_skip_reason, lemma_total_counted, reason_count, total, LinkProcessSummary,
    LinkWriteOutcome, Linker,
};
use crate::models::{LinkRecord, LinkStatus, MatchResult, PathState};
use crate::paths;
use crate::text;

verus! {

/// How far the writing of a link has come.
#[derive(Debug, Clone, Copy, PartialEq, Eq, Structural)]
pub enum LinkStage {
    /// The link is on record: look whether the disk agrees.
    Compare,
    /// Look at what stands at the target.
    Inspect,
    /// Ask whether the source can be read.
    Probe,
    /// Create the directory of the target, and look at the target once more.
    Prepare,
    /// Record the link in a transaction, put the symlink in place, and look at
    /// what stands there; commit only what is `Written`.
    Write,
    /// Record and disk agree.
    AlreadyCorrect,
    /// The disk is right; what was not on record has to be recorded.
    AlreadyCorrectDisk,
    /// A file that is no symlink stands at the target.
    RegularFile,
    /// The source cannot be read.
    SourceUnreadable,
    /// All is set, but nothing is to be changed.
    DryRun,
    /// The symlink stands and was verified.
    Written,
    /// A directory stands at the target.
    Directory,
    /// Something that is no symlink came to stand at the target.
    NotSymlink,
    /// What was put in place is no symlink any more.
    NoLongerSymlink,
    /// What was put in place points elsewhere.
    WrongDestination,
    /// What was put in place cannot be inspected.
    Unverified,
}

/// The writing of a link.
#[derive(Debug, Clone, Copy, PartialEq, Eq, Structural)]
pub struct LinkTask {
    pub stage: LinkStage,
    /// Whether the link counts as updated.
    pub is_update: bool,
    /// Whether the link is on record as active with this source.
    pub recorded: bool,
}

/// What was found out.
#[derive(Debug, PartialEq, Eq)]
pub enum LinkEvent {
    /// What stands at the target.
    Saw(PathState),
    /// Whether the source can be read.
    Probed(SourceReadiness),
}

/// Whether the record is an active link to this source.
pub open spec fn is_recorded(existing: Option<LinkRecord>, source: Seq<char>) -> bool {
    match existing {
        Some(link) => link.status == LinkStatus::Active && paths::same(link.source_path@, source),
        None => false,
    }
}

/// Whether the record is a link to another source.
pub open spec fn source_changed(existing: Option<LinkRecord>, source: Seq<char>) -> bool {
    match existing {
        Some(link) => !paths::same(link.source_path@, source),
        None => false,
    }
}

impl Linker {
    /// The first step: a link on record is compared with the disk.
    pub open spec fn first_step(&self, source: Seq<char>, existing: Option<LinkRecord>) -> LinkTask {
        LinkTask {
            stage: if is_recorded(existing, source) {
                LinkStage::Compare
            } else {
                LinkStage::Inspect
            },
            is_update: source_changed(existing, source) && self.reconcile_links,
            recorded: is_recorded(existing, source),
        }
    }

    /// The step when the target is clear: a dry run ends, a gate probes, and
    /// otherwise the target is prepared.
    pub open spec fn clear_stage(&self) -> LinkStage {
        if self.dry_run {
            LinkStage::DryRun
        } else if self.source_readiness_gate is Some {
            LinkStage::Probe
        } else {
            LinkStage::Prepare
        }
    }

    /// The step after the target was looked at.
    pub open spec fn after_look(
        &self,
        task: LinkTask,
        source: Seq<char>,
        target: Seq<char>,
        seen: PathState,
    ) -> LinkTask {
        match task.stage {
            LinkStage::Compare => if seen.links_to(source) {
                LinkTask { stage: LinkStage::AlreadyCorrect, ..task }
            } else {
                LinkTask { stage: LinkStage::Inspect, is_update: true, ..task }
            },
            LinkStage::Inspect => LinkTask {
                stage: if seen is Directory {
                    LinkStage::Directory
                } else if seen is File {
                    LinkStage::RegularFile
                } else if seen.links_to(source) {
                    LinkStage::AlreadyCorrectDisk
                } else {
                    self.clear_stage()
                },
                ..task
            },
            LinkStage::Prepare => LinkTask {
                stage: if seen is Absent || seen is Symlink {
                    LinkStage::Write
                } else {
                    LinkStage::NotSymlink
                },
                ..task
            },
            LinkStage::Write => LinkTask { stage: verdict(source, target, seen), ..task },
            _ => task,
        }
    }

    /// The step after the source was probed.
    pub open spec fn after_probe(&self, task: LinkTask, found: SourceReadiness) -> LinkTask {
        if task.stage == LinkStage::Probe {
            LinkTask {
                stage: if found is Ready {
                    LinkStage::Prepare
                } else {
                    LinkStage::SourceUnreadable
                },
                ..task
            }
        } else {
            task
        }
    }

    /// The step after something was found out.
    pub open spec fn after_event(
        &self,
        task: LinkTask,
        source: Seq<char>,
        target: Seq<char>,
        event: LinkEvent,
    ) -> LinkTask {
        match event {
            LinkEvent::Saw(seen) => self.after_look(task, source, target, seen),
            LinkEvent::Probed(found) => self.after_probe(task, found),
        }
    }

    /// Creates the link of a match, step by step: tells what comes after something was
    /// found out. `start_link` gives the first step, and `LinkTask::conclude` what came of
    /// the last.
    pub fn create_link(
        &self,
        m: &MatchResult,
        target_path: &str,
        task: LinkTask,
        event: &LinkEvent,
    ) -> (out: LinkTask)
        ensures
            out == self.after_event(task, m.source_item.path@, target_path@, *event),
    {
        match event {
            LinkEvent::Saw(seen) => self.saw_target(task, m, target_path, seen),
            LinkEvent::Probed(found) => self.probed_source(task, found),
        }
    }

    /// The first step of writing the link of a match.
    pub fn start_link(&self, m: &MatchResult, existing: Option<&LinkRecord>) -> (out: LinkTask)
        ensures
            out == self.first_step(
                m.source_item.path@,
                match existing {
                    Some(link) => Some(*link),
                    None => None,
                },
            ),
    {
        match existing {
            Some(link) => {
                let same = paths::same_path(
                    link.source_path.as_str(),
                    m.source_item.path.as_str(),
                );
                let recorded = same && link.status == LinkStatus::Active;
                LinkTask {
                    stage: if recorded {
                        LinkStage::Compare
                    } else {
                        LinkStage::Inspect
                    },
                    is_update: !same && self.reconcile_links,
                    recorded,
                }
            },
            None => LinkTask { stage: LinkStage::Inspect, is_update: false, recorded: false },
        }
    }

    /// The step after the target was looked at.
    pub fn saw_target(
        &self,
        task: LinkTask,
        m: &MatchResult,
        target_path: &str,
        seen: &PathState,
    ) -> (out: LinkTask)
        ensures
            out == self.after_look(task, m.source_item.path@, target_path@, *seen),
    {
        let source = m.source_item.path.as_str();
        match task.stage {
            LinkStage::Compare => if seen.is_link_to(source) {
                LinkTask {
                    stage: LinkStage::AlreadyCorrect,
                    is_update: task.is_update,
                    recorded: task.recorded,
                }
            } else {
                LinkTask { stage: LinkStage::Inspect, is_update: true, recorded: task.recorded }
            },
            LinkStage::Inspect => {
                let stage = match seen {
                    PathState::Directory => LinkStage::Directory,
                    PathState::File => LinkStage::RegularFile,
                    _ => if seen.is_link_to(source) {
                        LinkStage::AlreadyCorrectDisk
                    } else if self.dry_run {
                        LinkStage::DryRun
                    } else if self.source_readiness_gate.is_some() {
                        LinkStage::Probe
                    } else {
                        LinkStage::Prepare
                    },
                };
                LinkTask { stage, is_update: task.is_update, recorded: task.recorded }
            },
            LinkStage::Prepare => {
                let stage = match seen {
                    PathState::Absent(_) => LinkStage::Write,
                    PathState::Symlink(_) => LinkStage::Write,
                    _ => LinkStage::NotSymlink,
                };
                LinkTask { stage, is_update: task.is_update, recorded: task.recorded }
            },
            LinkStage::Write => LinkTask {
                stage: verify_link_target(target_path, source, seen),
                is_update: task.is_update,
                recorded: task.recorded,
            },
            _ => task,
        }
    }

    /// The step after the source was probed.
    pub fn probed_source(&self, task: LinkTask, found: &SourceReadiness) -> (out: LinkTask)
        ensures
            out == self.after_probe(task, *found),
    {
        if task.stage == LinkStage::Probe {
            let stage = match found {
                SourceReadiness::Ready => LinkStage::Prepare,
                SourceReadiness::Unreadable(_) => LinkStage::SourceUnreadable,
            };
            LinkTask { stage, is_update: task.is_update, recorded: task.recorded }
        } else {
            task
        }
    }
}

/// Whether what stands at the target is a symlink to the source.
pub open spec fn verdict(source: Seq<char>, target: Seq<char>, seen: PathState) -> LinkStage {
    match seen {
        PathState::Absent(_) => LinkStage::Unverified,
        PathState::Symlink(Err(_)) => LinkStage::Unverified,
        PathState::Symlink(Ok(held)) => if paths::same(
            paths::link_destination(target, held@),
            source,
        ) {
            LinkStage::Written
        } else {
            LinkStage::WrongDestination
        },
        _ => LinkStage::NoLongerSymlink,
    }
}

/// Whether what stands at the target is a symlink to the expected source.
pub fn verify_link_target(target_path: &str, expected_source: &str, seen: &PathState) -> (out:
    LinkStage)
    ensures
        out == verdict(expected_source@, target_path@, *seen),
{
    match seen {
        PathState::Absent(_) => LinkStage::Unverified,
        PathState::Symlink(held) => match held {
            Err(_) => LinkStage::Unverified,
            Ok(text) => {
                let resolved = paths::resolve_link_target(target_path, text.as_str());
                if paths::same_path(resolved.as_str(), expected_source) {
                    LinkStage::Written
                } else {
                    LinkStage::WrongDestination
                }
            },
        },
        _ => LinkStage::NoLongerSymlink,
    }
}

// ---------------------------------------------------------------------------
// How a task ends

/// What became of a link.
#[derive(Debug, Clone, PartialEq, Eq)]
pub struct LinkWriteResult {
    pub outcome: LinkWriteOutcome,
    pub skip_reason: Option<&'static str>,
    /// The library folder to be refreshed.
    pub refresh_path: Option<String>,
}

/// Why a link could not be written.
#[derive(Debug, Clone, Copy, PartialEq, Eq, Structural)]
pub enum LinkFailure {
    Directory,
    NotSymlink,
    NoLongerSymlink,
    WrongDestination,
    Unverified,
}

/// What the system says where a target cannot be inspected.
pub open spec fn refusal(seen: PathState) -> Seq<char> {
    match seen {
        PathState::Absent(reason) => reason@,
        PathState::Symlink(Err(reason)) => reason@,
        _ => Seq::<char>::empty(),
    }
}

/// Where what was found at a target leads, where it is a symlink.
pub open spec fn found_source(target: Seq<char>, seen: PathState) -> Seq<char> {
    match seen {
        PathState::Symlink(Ok(held)) => paths::link_destination(target, held@),
        _ => Seq::<char>::empty(),
    }
}

impl LinkFailure {
    /// The failure in words: what was wrong with the target, and where it leads instead of
    /// to the source; or what the system says where it cannot be inspected.
    pub open spec fn worded(
        &self,
        target: Seq<char>,
        source: Seq<char>,
        seen: PathState,
    ) -> Seq<char> {
        match *self {
            LinkFailure::Directory => "SAFETY GUARD: "@ + paths::debugged(target)
                + " is a directory. Symlinkarr does not create symlinks over directories — they are managed by *arr apps."@,
            LinkFailure::NotSymlink => "Refusing to overwrite non-symlink target: "@
                + paths::debugged(target),
            LinkFailure::NoLongerSymlink => "post-write verification failed: "@ + paths::debugged(
                target,
            ) + " is no longer a symlink"@,
            LinkFailure::WrongDestination => "post-write verification failed: "@ + paths::debugged(
                target,
            ) + " points to "@ + paths::debugged(found_source(target, seen)) + " instead of "@
                + paths::debugged(source),
            LinkFailure::Unverified => refusal(seen),
        }
    }

    /// The failure in words; `seen` is what was last seen at the target.
    pub fn message(&self, target: &str, source: &str, seen: &PathState) -> (out: String)
        ensures
            out@ == self.worded(target@, source@, *seen),
    {
        let shown = paths::debug_text(target);
        match self {
            LinkFailure::Directory => text::concat3(
                "SAFETY GUARD: ",
                shown.as_str(),
                " is a directory. Symlinkarr does not create symlinks over directories — they are managed by *arr apps.",
            ),
            LinkFailure::NotSymlink => text::concat2(
                "Refusing to overwrite non-symlink target: ",
                shown.as_str(),
            ),
            LinkFailure::NoLongerSymlink => text::concat3(
                "post-write verification failed: ",
                shown.as_str(),
                " is no longer a symlink",
            ),
            LinkFailure::WrongDestination => {
                let found = match seen {
                    PathState::Symlink(Ok(held)) => paths::resolve_link_target(
                        target,
                        held.as_str(),
                    ),
                    _ => String::new(),
                };
                assert(found@ =~= found_source(target@, *seen));
                text::concat6(
                    "post-write verification failed: ",
                    shown.as_str(),
                    " points to ",
                    paths::debug_text(found.as_str()).as_str(),
                    " instead of ",
                    paths::debug_text(source).as_str(),
                )
            },
            LinkFailure::Unverified => match seen {
                PathState::Absent(reason) => reason.clone(),
                PathState::Symlink(Err(reason)) => reason.clone(),
                _ => {
                    let nothing = String::new();
                    assert(nothing@ =~= refusal(*seen));
                    nothing
                },
            },
        }
    }
}

/// An entry of the log of links.
#[derive(Debug, Clone, Copy, PartialEq, Eq)]
pub struct LinkLogEntry {
    pub action: &'static str,
    pub note: Option<&'static str>,
}

/// Whether nothing is left to look at or do.
pub open spec fn is_final(stage: LinkStage) -> bool {
    !(stage == LinkStage::Compare || stage == LinkStage::Inspect || stage == LinkStage::Probe
        || stage == LinkStage::Prepare || stage == LinkStage::Write)
}

/// The reason for which a link was left alone.
pub open spec fn skip_reason(stage: LinkStage) -> Option<Seq<char>> {
    match stage {
        LinkStage::AlreadyCorrect => Some("already_correct"@),
        LinkStage::AlreadyCorrectDisk => Some("already_correct_disk"@),
        LinkStage::RegularFile => Some("regular_file_guard"@),
        LinkStage::SourceUnreadable => Some("source_unreadable_before_link"@),
        _ => None,
    }
}

/// The failure of a stage.
pub open spec fn failure(stage: LinkStage) -> Option<LinkFailure> {
    match stage {
        LinkStage::Directory => Some(LinkFailure::Directory),
        LinkStage::NotSymlink => Some(LinkFailure::NotSymlink),
        LinkStage::NoLongerSymlink => Some(LinkFailure::NoLongerSymlink),
        LinkStage::WrongDestination => Some(LinkFailure::WrongDestination),
        LinkStage::Unverified => Some(LinkFailure::Unverified),
        _ => None,
    }
}

/// Whether a result tells how a task ended: skipped for a reason; or created or
/// updated, and then the folder is refreshed unless it was a dry run.
pub open spec fn result_fits(result: LinkWriteResult, task: LinkTask, m: MatchResult) -> bool {
    match skip_reason(task.stage) {
        Some(reason) => {
            &&& result.outcome == LinkWriteOutcome::Skipped
            &&& result.skip_reason is Some && result.skip_reason->0@ == reason
            &&& result.refresh_path is None
        },
        None => {
            &&& result.outcome == (if task.is_update {
                LinkWriteOutcome::Updated
            } else {
                LinkWriteOutcome::Created
            })
            &&& result.skip_reason is None
            &&& if task.stage == LinkStage::Written {
                result.refresh_path is Some && result.refresh_path->0 == m.library_item.path
            } else {
                result.refresh_path is None
            }
        },
    }
}

impl LinkTask {
    /// Whether nothing is left to look at or do.
    pub fn is_done(&self) -> (b: bool)
        ensures
            b == is_final(self.stage),
    {
        match self.stage {
            LinkStage::Compare => false,
            LinkStage::Inspect => false,
            LinkStage::Probe => false,
            LinkStage::Prepare => false,
            LinkStage::Write => false,
            _ => true,
        }
    }

    /// What became of the link.
    pub fn conclude(&self, m: &MatchResult) -> (out: Result<LinkWriteResult, LinkFailure>)
        requires
            is_final(self.stage),
        ensures
            match failure(self.stage) {
                Some(f) => out == Err::<LinkWriteResult, LinkFailure>(f),
                None => out is Ok && result_fits(out->Ok_0, *self, *m),
            },
    {
        let skipped: &'static str = match self.stage {
            LinkStage::Directory => {
                return Err(LinkFailure::Directory);
            },
            LinkStage::NotSymlink => {
                return Err(LinkFailure::NotSymlink);
            },
            LinkStage::NoLongerSymlink => {
                return Err(LinkFailure::NoLongerSymlink);
            },
            LinkStage::WrongDestination => {
                return Err(LinkFailure::WrongDestination);
            },
            LinkStage::Unverified => {
                return Err(LinkFailure::Unverified);
            },
            LinkStage::AlreadyCorrect => "already_correct",
            LinkStage::AlreadyCorrectDisk => "already_correct_disk",
            LinkStage::RegularFile => "regular_file_guard",
            LinkStage::SourceUnreadable => "source_unreadable_before_link",
            _ => {
                let outcome = if self.is_update {
                    LinkWriteOutcome::Updated
                } else {
                    LinkWriteOutcome::Created
                };
                let refresh_path = match self.stage {
                    LinkStage::Written => Some(m.library_item.path.clone()),
                    _ => None,
                };
                return Ok(LinkWriteResult { outcome, skip_reason: None, refresh_path });
            },
        };
        Ok(
            LinkWriteResult {
                outcome: LinkWriteOutcome::Skipped,
                skip_reason: Some(skipped),
                refresh_path: None,
            },
        )
    }

    /// The log entry of a task that ended without a failure.
    pub open spec fn logged(&self) -> Option<(Seq<char>, Option<Seq<char>>)> {
        match self.stage {
            LinkStage::AlreadyCorrectDisk if !self.recorded => Some(
                ("backfilled"@, Some("already_correct_disk"@)),
            ),
            LinkStage::DryRun => Some(
                (
                    if self.is_update {
                        "dry_run_updated"@
                    } else {
                        "dry_run_created"@
                    },
                    Some("dry_run"@),
                ),
            ),
            LinkStage::Written => Some(
                (
                    if self.is_update {
                        "updated"@
                    } else {
                        "created"@
                    },
                    None,
                ),
            ),
            _ => match skip_reason(self.stage) {
                Some(reason) => Some(("skipped"@, Some(reason))),
                None => None,
            },
        }
    }

    /// The log entry of a task that ended without a failure.
    pub fn log_entry(&self) -> (out: Option<LinkLogEntry>)
        ensures
            match out {
                Some(e) => self.logged() == Some(
                    (
                        e.action@,
                        match e.note {
                            Some(n) => Some(n@),
                            None => None,
                        },
                    ),
                ),
                None => self.logged() is None,
            },
    {
        match self.stage {
            LinkStage::AlreadyCorrect => Some(
                LinkLogEntry { action: "skipped", note: Some("already_correct") },
            ),
            LinkStage::AlreadyCorrectDisk => if self.recorded {
                Some(LinkLogEntry { action: "skipped", note: Some("already_correct_disk") })
            } else {
                Some(LinkLogEntry { action: "backfilled", note: Some("already_correct_disk") })
            },
            LinkStage::RegularFile => Some(
                LinkLogEntry { action: "skipped", note: Some("regular_file_guard") },
            ),
            LinkStage::SourceUnreadable => Some(
                LinkLogEntry { action: "skipped", note: Some("source_unreadable_before_link") },
            ),
            LinkStage::DryRun => Some(
                LinkLogEntry {
                    action: if self.is_update {
                        "dry_run_updated"
                    } else {
                        "dry_run_created"
                    },
                    note: Some("dry_run"),
                },
            ),
            LinkStage::Written => Some(
                LinkLogEntry {
                    action: if self.is_update {
                        "updated"
                    } else {
                        "created"
                    },
                    note: None,
                },
            ),
            _ => None,
        }
    }

    /// Whether the link has to be recorded: where it is written, and where the
    /// disk is right but the record is not.
    pub fn needs_record(&self) -> (b: bool)
        ensures
            b == (self.stage == LinkStage::Write || self.stage == LinkStage::AlreadyCorrectDisk
                && !self.recorded),
    {
        match self.stage {
            LinkStage::Write => true,
            LinkStage::AlreadyCorrectDisk => !self.recorded,
            _ => false,
        }
    }
}

/// The record of the link of a match.
pub fn link_record(m: &MatchResult, target_path: &str) -> (out: LinkRecord)
    ensures
        out.id is None,
        out.source_path == m.source_item.path,
        out.target_path@ == target_path@,
        out.media_id@ == m.library_item.id.spelled(),
        out.media_type == m.library_item.media_type,
        out.status == LinkStatus::Active,
        out.created_at is None,
        out.updated_at is None,
{
    LinkRecord {
        id: None,
        source_path: m.source_item.path.clone(),
        target_path: target_path.to_owned(),
        media_id: m.library_item.id.label(),
        media_type: m.library_item.media_type,
        status: LinkStatus::Active,
        created_at: None,
        updated_at: None,
    }
}

// ---------------------------------------------------------------------------
// What holds of every course of a task

/// How a task ends that sees these states in turn: `compared` at the comparison,
/// `inspected` at the inspection, `prepared` before and `written` after writing.
pub open spec fn course(
    linker: Linker,
    source: Seq<char>,
    target: Seq<char>,
    existing: Option<LinkRecord>,
    compared: PathState,
    inspected: PathState,
    probed: SourceReadiness,
    prepared: PathState,
    written: PathState,
) -> LinkTask {
    let first = linker.first_step(source, existing);
    let second = if first.stage == LinkStage::Compare {
        linker.after_look(first, source, target, compared)
    } else {
        first
    };
    let third = linker.after_look(second, source, target, inspected);
    let fourth = linker.after_probe(third, probed);
    let fifth = linker.after_look(fourth, source, target, prepared);
    linker.after_look(fifth, source, target, written)
}

/// Every course comes to an end. A link is written only where it is no dry run,
/// nothing or a symlink stands at the target at both looks, a gate, where there
/// is any, found the source readable, and what was put in place was seen to be a
/// symlink to the source.
pub proof fn lemma_write_is_safe(
    linker: Linker,
    source: Seq<char>,
    target: Seq<char>,
    existing: Option<LinkRecord>,
    compared: PathState,
    inspected: PathState,
    probed: SourceReadiness,
    prepared: PathState,
    written: PathState,
)
    ensures
        ({
            let task = course(
                linker,
                source,
                target,
                existing,
                compared,
                inspected,
                probed,
                prepared,
                written,
            );
            &&& is_final(task.stage)
            &&& task.stage == LinkStage::Written ==> {
                &&& !linker.dry_run
                &&& inspected is Absent || inspected is Symlink
                &&& prepared is Absent || prepared is Symlink
                &&& linker.source_readiness_gate is Some ==> probed is Ready
                &&& written matches PathState::Symlink(Ok(held)) && paths::same(
                    paths::link_destination(target, held@),
                    source,
                )
            }
        }),
{
}

/// In a dry run nothing is ever written, and what would be is told.
pub proof fn lemma_dry_run_writes_nothing(
    linker: Linker,
    source: Seq<char>,
    target: Seq<char>,
    existing: Option<LinkRecord>,
    compared: PathState,
    inspected: PathState,
    probed: SourceReadiness,
    prepared: PathState,
    written: PathState,
)
    requires
        linker.dry_run,
    ensures
        ({
            let task = course(
                linker,
                source,
                target,
                existing,
                compared,
                inspected,
                probed,
                prepared,
                written,
            );
            task.stage == LinkStage::DryRun || task.stage == LinkStage::AlreadyCorrect || task.stage
                == LinkStage::AlreadyCorrectDisk || task.stage == LinkStage::RegularFile
                || task.stage == LinkStage::Directory
        }),
{
}

/// A link that is on record and stands on the disk is left alone: linking again
/// changes nothing.
pub proof fn lemma_linking_again_changes_nothing(
    linker: Linker,
    source: Seq<char>,
    target: Seq<char>,
    existing: LinkRecord,
    seen: PathState,
    probed: SourceReadiness,
)
    requires
        existing.status == LinkStatus::Active,
        paths::same(existing.source_path@, source),
        seen.links_to(source),
    ensures
        course(linker, source, target, Some(existing), seen, seen, probed, seen, seen).stage
            == LinkStage::AlreadyCorrect,
{
}

// ---------------------------------------------------------------------------
// What was seen decides how a task ends

/// A link is said to be correct only where it stands: a course ends in `AlreadyCorrect`
/// exactly where an active link with this source is on record and the comparison saw a
/// symlink that holds the source, and in `AlreadyCorrectDisk` exactly where that was not so
/// and the inspection saw such a symlink.
pub proof fn lemma_correct_links_stand(
    linker: Linker,
    source: Seq<char>,
    target: Seq<char>,
    existing: Option<LinkRecord>,
    compared: PathState,
    inspected: PathState,
    probed: SourceReadiness,
    prepared: PathState,
    written: PathState,
)
    ensures
        ({
            let stage = course(
                linker,
                source,
                target,
                existing,
                compared,
                inspected,
                probed,
                prepared,
                written,
            ).stage;
            let agree = (existing matches Some(link) && link.status == LinkStatus::Active
                && paths::components(link.source_path@) == paths::components(source)) && (
            compared matches PathState::Symlink(Ok(held)) && paths::components(held@)
                == paths::components(source));
            let stands = inspected matches PathState::Symlink(Ok(held)) && paths::components(held@)
                == paths::components(source);
            &&& stage == LinkStage::AlreadyCorrect <==> agree
            &&& stage == LinkStage::AlreadyCorrectDisk <==> !agree && stands
        }),
{
}

/// A link that does not stand is written, whatever is on record: outside a dry run, where
/// neither look finds the symlink, nothing but a symlink is in the way, a gate, where there
/// is any, finds the source ready, and what was put in place leads to the source.
pub proof fn lemma_missing_link_is_written(
    linker: Linker,
    source: Seq<char>,
    target: Seq<char>,
    existing: Option<LinkRecord>,
    compared: PathState,
    inspected: PathState,
    probed: SourceReadiness,
    prepared: PathState,
    held: String,
)
    requires
        !linker.dry_run,
        !(compared matches PathState::Symlink(Ok(h)) && paths::same(h@, source)),
        !(inspected matches PathState::Symlink(Ok(h)) && paths::same(h@, source)),
        inspected is Absent || inspected is Symlink,
        prepared is Absent || prepared is Symlink,
        linker.source_readiness_gate is None || probed is Ready,
        paths::same(paths::link_destination(target, held@), source),
    ensures
        course(
            linker,
            source,
            target,
            existing,
            compared,
            inspected,
            probed,
            prepared,
            PathState::Symlink(Ok(held)),
        ).stage == LinkStage::Written,
{
}

/// What is no symlink is never written over, and each obstacle is told: a file at the
/// inspection is skipped, a directory there fails, one of both that came to stand before
/// the writing fails, and a source that a gate finds unreadable is skipped.
pub proof fn lemma_obstacles_are_told(
    linker: Linker,
    source: Seq<char>,
    target: Seq<char>,
    existing: Option<LinkRecord>,
    compared: PathState,
    inspected: PathState,
    probed: SourceReadiness,
    prepared: PathState,
    written: PathState,
)
    requires
        !(compared matches PathState::Symlink(Ok(h)) && paths::same(h@, source)),
        !(inspected matches PathState::Symlink(Ok(h)) && paths::same(h@, source)),
    ensures
        ({
            let stage = course(
                linker,
                source,
                target,
                existing,
                compared,
                inspected,
                probed,
                prepared,
                written,
            ).stage;
            let clear = inspected is Absent || inspected is Symlink;
            let unread = linker.source_readiness_gate is Some && probed is Unreadable;
            &&& stage == LinkStage::RegularFile <==> inspected is File
            &&& stage == LinkStage::Directory <==> inspected is Directory
            &&& stage == LinkStage::DryRun <==> linker.dry_run && clear
            &&& stage == LinkStage::SourceUnreadable <==> !linker.dry_run && clear && unread
            &&& stage == LinkStage::NotSymlink <==> !linker.dry_run && clear && !unread && (
            prepared is File || prepared is Directory)
        }),
{
}

/// A link that was put in place is trusted only where it leads to the source: one that
/// leads elsewhere, that is no symlink or that cannot be inspected fails, each in its way.
pub proof fn lemma_written_links_are_verified(
    linker: Linker,
    source: Seq<char>,
    target: Seq<char>,
    task: LinkTask,
    seen: PathState,
)
    requires
        task.stage == LinkStage::Write,
    ensures
        ({
            let next = linker.after_look(task, source, target, seen);
            &&& next.is_update == task.is_update && next.recorded == task.recorded
            &&& next.stage == LinkStage::Written <==> (seen matches PathState::Symlink(Ok(held))
                && paths::same(paths::link_destination(target, held@), source))
            &&& next.stage == LinkStage::WrongDestination <==> (seen matches PathState::Symlink(
                Ok(held),
            ) && !paths::same(paths::link_destination(target, held@), source))
            &&& next.stage == LinkStage::NoLongerSymlink <==> seen is File || seen is Directory
            &&& next.stage == LinkStage::Unverified <==> seen is Absent || (
            seen matches PathState::Symlink(held) && held is Err)
            &&& failure(next.stage) is None <==> next.stage == LinkStage::Written
        }),
{
}

/// A link counts as updated where one with this source is on record as active but does not
/// stand, and where one with another source is on record and links are reconciled; it
/// counts as created otherwise. Nothing that is seen later changes that.
pub proof fn lemma_updates_are_told(
    linker: Linker,
    source: Seq<char>,
    target: Seq<char>,
    existing: Option<LinkRecord>,
    compared: PathState,
    inspected: PathState,
    probed: SourceReadiness,
    prepared: PathState,
    written: PathState,
)
    ensures
        ({
            let task = course(
                linker,
                source,
                target,
                existing,
                compared,
                inspected,
                probed,
                prepared,
                written,
            );
            let active = existing matches Some(link) && link.status == LinkStatus::Active
                && paths::same(link.source_path@, source);
            let other = existing matches Some(link) && !paths::same(link.source_path@, source);
            &&& task.recorded == active
            &&& task.stage == LinkStage::Written || task.stage == LinkStage::DryRun ==> (
            task.is_update <==> active || other && linker.reconcile_links)
            &&& existing is None ==> !task.is_update
        }),
{
}

/// What a task concludes with tells what became of the link: only a written one is created
/// or updated on the disk and has its library folder refreshed, a dry run tells what it
/// would be, and a skipped one names its reason, a different one for each end.
pub proof fn lemma_results_are_told(task: LinkTask, m: MatchResult, result: LinkWriteResult)
    requires
        is_final(task.stage),
        failure(task.stage) is None,
        result_fits(result, task, m),
    ensures
        result.outcome == LinkWriteOutcome::Updated <==> (task.stage == LinkStage::Written
            || task.stage == LinkStage::DryRun) && task.is_update,
        result.outcome == LinkWriteOutcome::Created <==> (task.stage == LinkStage::Written
            || task.stage == LinkStage::DryRun) && !task.is_update,
        result.refresh_path == (if task.stage == LinkStage::Written {
            Some(m.library_item.path)
        } else {
            None
        }),
        result.skip_reason is Some <==> result.outcome == LinkWriteOutcome::Skipped,
        task.stage == LinkStage::AlreadyCorrect ==> result.skip_reason->0@ == "already_correct"@,
        task.stage == LinkStage::AlreadyCorrectDisk ==> result.skip_reason->0@
            == "already_correct_disk"@,
        task.stage == LinkStage::RegularFile ==> result.skip_reason->0@ == "regular_file_guard"@,
        task.stage == LinkStage::SourceUnreadable ==> result.skip_reason->0@
            == "source_unreadable_before_link"@,
{
}

/// The log agrees with the result: what is skipped is logged as such with its reason, but
/// for a link that stood and was not on record, which is backfilled; a dry run says so; and
/// only a written link is logged without a note.
pub proof fn lemma_log_agrees(task: LinkTask, m: MatchResult, result: LinkWriteResult)
    requires
        is_final(task.stage),
        failure(task.stage) is None,
        result_fits(result, task, m),
    ensures
        task.logged() is Some,
        task.logged() matches Some((action, note)) ==> {
            let backfilled = task.stage == LinkStage::AlreadyCorrectDisk && !task.recorded;
            let updated = result.outcome == LinkWriteOutcome::Updated;
            &&& backfilled ==> action == "backfilled"@
            &&& result.outcome == LinkWriteOutcome::Skipped && !backfilled ==> action == "skipped"@
            &&& result.outcome == LinkWriteOutcome::Skipped ==> note == Some(result.skip_reason->0@)
            &&& task.stage == LinkStage::DryRun ==> note == Some("dry_run"@) && action == (
            if updated {
                "dry_run_updated"@
            } else {
                "dry_run_created"@
            })
            &&& task.stage == LinkStage::Written ==> note is None && action == (if updated {
                "updated"@
            } else {
                "created"@
            })
        },
{
}

/// A failure is worded after its target, and one after the writing says so; a target that
/// cannot be inspected is worded as the system words it.
pub proof fn lemma_failures_are_worded(
    stage: LinkStage,
    target: Seq<char>,
    source: Seq<char>,
    seen: PathState,
)
    requires
        failure(stage) is Some,
    ensures
        ({
            let words = failure(stage)->0.worded(target, source, seen);
            let named = paths::debugged(target);
            &&& stage == LinkStage::Directory ==> text::begins(words, "SAFETY GUARD: "@ + named)
            &&& stage == LinkStage::NotSymlink ==> words
                == "Refusing to overwrite non-symlink target: "@ + named
            &&& stage == LinkStage::NoLongerSymlink || stage == LinkStage::WrongDestination
                ==> text::begins(words, "post-write verification failed: "@ + named)
            &&& stage == LinkStage::WrongDestination ==> text::ends(
                words,
                " instead of "@ + paths::debugged(source),
            )
            &&& stage == LinkStage::Unverified ==> (seen matches PathState::Absent(reason) ==> words
                == reason@) && (seen matches PathState::Symlink(Err(reason)) ==> words == reason@)
        }),
{
    let words = failure(stage)->0.worded(target, source, seen);
    let named = paths::debugged(target);
    if stage == LinkStage::Directory {
        let head = "SAFETY GUARD: "@ + named;
        assert(words.subrange(0, head.len() as int) =~= head);
    }
    let head = "post-write verification failed: "@ + named;
    if stage == LinkStage::NoLongerSymlink {
        assert(words.subrange(0, head.len() as int) =~= head);
    }
    if stage == LinkStage::WrongDestination {
        assert(words.subrange(0, head.len() as int) =~= head);
        let tail = " instead of "@ + paths::debugged(source);
        assert(words.subrange(words.len() - tail.len(), words.len() as int) =~= tail);
    }
}

// ---------------------------------------------------------------------------
// A run over matches

/// What became of a match.
#[derive(Debug, PartialEq, Eq)]
pub enum MatchOutcome {
    /// Its source was gone before the link was written.
    SourceMissing,
    Linked(LinkWriteResult),
    /// Its link could not be written.
    Failed,
}

/// The log entry of a match whose source was gone before the link was written.
pub fn missing_source_entry() -> (out: LinkLogEntry)
    ensures
        out.action@ == "skipped"@,
        out.note is Some && Some(out.note->0@) == counted_reason(MatchOutcome::SourceMissing),
{
    LinkLogEntry { action: "skipped", note: Some("source_missing_before_link") }
}

/// Whether the outcome counts as created.
pub open spec fn is_created(outcome: MatchOutcome) -> bool {
    outcome matches MatchOutcome::Linked(r) && r.outcome == LinkWriteOutcome::Created
}

/// Whether the outcome counts as updated.
pub open spec fn is_updated(outcome: MatchOutcome) -> bool {
    outcome matches MatchOutcome::Linked(r) && r.outcome == LinkWriteOutcome::Updated
}

/// Whether the outcome counts as skipped.
pub open spec fn is_skipped(outcome: MatchOutcome) -> bool {
    outcome is SourceMissing || (outcome matches MatchOutcome::Linked(r) && r.outcome
        == LinkWriteOutcome::Skipped)
}

/// The reason for which the match was skipped, where one is counted.
pub open spec fn counted_reason(outcome: MatchOutcome) -> Option<Seq<char>> {
    match outcome {
        MatchOutcome::SourceMissing => Some("source_missing_before_link"@),
        MatchOutcome::Linked(r) => if r.outcome == LinkWriteOutcome::Skipped && r.skip_reason is Some {
            Some(r.skip_reason->0@)
        } else {
            None
        },
        MatchOutcome::Failed => None,
    }
}

/// The number of outcomes of a kind.
pub open spec fn tally(outcomes: Seq<MatchOutcome>, kind: spec_fn(MatchOutcome) -> bool) -> nat
    decreases outcomes.len(),
{
    if outcomes.len() == 0 {
        0
    } else {
        tally(outcomes.drop_last(), kind) + if kind(outcomes.last()) {
            1nat
        } else {
            0nat
        }
    }
}

/// The counts of the reasons.
pub open spec fn reasons(outcomes: Seq<MatchOutcome>) -> Map<Seq<char>, u64>
    decreases outcomes.len(),
{
    if outcomes.len() == 0 {
        Map::empty()
    } else {
        match counted_reason(outcomes.last()) {
            Some(reason) => crate::linker::counted(reasons(outcomes.drop_last()), reason),
            None => reasons(outcomes.drop_last()),
        }
    }
}

/// The folders to be refreshed, in the order of the outcomes.
pub open spec fn refreshed(outcomes: Seq<MatchOutcome>) -> Seq<Seq<char>>
    decreases outcomes.len(),
{
    if outcomes.len() == 0 {
        Seq::<Seq<char>>::empty()
    } else {
        match outcomes.last() {
            MatchOutcome::Linked(r) => match r.refresh_path {
                Some(path) => refreshed(outcomes.drop_last()).push(path@),
                None => refreshed(outcomes.drop_last()),
            },
            _ => refreshed(outcomes.drop_last()),
        }
    }
}

proof fn lemma_tally_bound(outcomes: Seq<MatchOutcome>, kind: spec_fn(MatchOutcome) -> bool)
    ensures
        tally(outcomes, kind) <= outcomes.len(),
    decreases outcomes.len(),
{
    if outcomes.len() > 0 {
        lemma_tally_bound(outcomes.drop_last(), kind);
    }
}

proof fn lemma_reason_bound(outcomes: Seq<MatchOutcome>, reason: Seq<char>)
    requires
        outcomes.len() <= u64::MAX,
    ensures
        reason_count(reasons(outcomes), reason) <= outcomes.len(),
    decreases outcomes.len(),
{
    if outcomes.len() > 0 {
        lemma_reason_bound(outcomes.drop_last(), reason);
    }
}

/// Every match is created, updated, skipped or failed, and counted once.
pub proof fn lemma_every_match_is_counted(outcomes: Seq<MatchOutcome>)
    ensures
        tally(outcomes, |o: MatchOutcome| is_created(o)) + tally(
            outcomes,
            |o: MatchOutcome| is_updated(o),
        ) + tally(outcomes, |o: MatchOutcome| is_skipped(o)) + tally(
            outcomes,
            |o: MatchOutcome| o is Failed,
        ) == outcomes.len(),
    decreases outcomes.len(),
{
    if outcomes.len() > 0 {
        lemma_every_match_is_counted(outcomes.drop_last());
    }
}

/// Whether a summary tells what the outcomes amount to.
pub open spec fn summary_fits(summary: LinkProcessSummary, outcomes: Seq<MatchOutcome>) -> bool {
    &&& summary.created == tally(outcomes, |o: MatchOutcome| is_created(o))
    &&& summary.updated == tally(outcomes, |o: MatchOutcome| is_updated(o))
    &&& summary.skipped == tally(outcomes, |o: MatchOutcome| is_skipped(o))
    &&& summary.skip_reasons.wf()
    &&& summary.skip_reasons@ == reasons(outcomes)
    &&& text::views(summary.refresh_paths@) == refreshed(outcomes)
}

impl Linker {
    /// Sums up the outcomes of a run over matches.
    pub fn process_matches(&self, outcomes: &Vec<MatchOutcome>) -> (summary: LinkProcessSummary)
        ensures
            summary_fits(summary, outcomes@),
    {
        let mut summary = LinkProcessSummary::default();
        let mut i: usize = 0;
        assert(outcomes@.take(0) == Seq::<MatchOutcome>::empty());
        assert(text::views(summary.refresh_paths@) =~= Seq::<Seq<char>>::empty());
        while i < outcomes.len()
            invariant
                i <= outcomes@.len(),
                summary_fits(summary, outcomes@.take(i as int)),
            decreases outcomes@.len() - i,
        {
            let ghost so_far = outcomes@.take(i as int);
            proof {
                assert(outcomes@.take(i + 1).drop_last() == so_far);
                lemma_tally_bound(so_far, |o: MatchOutcome| is_created(o));
                lemma_tally_bound(so_far, |o: MatchOutcome| is_updated(o));
                lemma_tally_bound(so_far, |o: MatchOutcome| is_skipped(o));
            }
            match &outcomes[i] {
                MatchOutcome::SourceMissing => {
                    proof {
                        lemma_reason_bound(so_far, "source_missing_before_link"@);
                    }
                    summary.skipped = summary.skipped + 1;
                    increment_skip_reason(&mut summary.skip_reasons, "source_missing_before_link");
                },
                MatchOutcome::Linked(result) => {
                    match result.outcome {
                        LinkWriteOutcome::Created => {
                            summary.created = summary.created + 1;
                        },
                        LinkWriteOutcome::Updated => {
                            summary.updated = summary.updated + 1;
                        },
                        LinkWriteOutcome::Skipped => {
                            summary.skipped = summary.skipped + 1;
                            if let Some(reason) = result.skip_reason {
                                proof {
                                    lemma_reason_bound(so_far, reason@);
                                }
                                increment_skip_reason(&mut summary.skip_reasons, reason);
                            }
                        },
                    }
                    if let Some(path) = &result.refresh_path {
                        let ghost before = text::views(summary.refresh_paths@);
                        summary.refresh_paths.push(path.clone());
                        assert(text::views(summary.refresh_paths@) =~= before.push(path@));
                    }
                },
                MatchOutcome::Failed => {},
            }
            i += 1;
        }
        assert(outcomes@.take(outcomes@.len() as int) == outcomes@);
        summary
    }
}

/// Whether a result concludes a course of a linker's task.
pub open spec fn concludes(
    linker: Linker,
    result: LinkWriteResult,
    m: MatchResult,
    target: Seq<char>,
    existing: Option<LinkRecord>,
    looks: (PathState, PathState, PathState, PathState),
    probed: SourceReadiness,
) -> bool {
    let task = course(
        linker,
        m.source_item.path@,
        target,
        existing,
        looks.0,
        looks.1,
        probed,
        looks.2,
        looks.3,
    );
    failure(task.stage) is None && result_fits(result, task, m)
}

/// Whether an outcome can be that of a match in a linker's run: a source that is
/// missing, a failure, or what a task concludes with.
pub open spec fn is_reached(linker: Linker, outcome: MatchOutcome) -> bool {
    match outcome {
        MatchOutcome::Linked(result) => exists|
            m: MatchResult,
            target: Seq<char>,
            existing: Option<LinkRecord>,
            looks: (PathState, PathState, PathState, PathState),
            probed: SourceReadiness,
        | #[trigger]
            concludes(linker, result, m, target, existing, looks, probed),
        _ => true,
    }
}

proof fn lemma_reached(linker: Linker, outcome: MatchOutcome)
    requires
        is_reached(linker, outcome),
    ensures
        is_skipped(outcome) == (counted_reason(outcome) is Some),
        outcome matches MatchOutcome::Linked(r) ==> (r.refresh_path is Some) == (!linker.dry_run
            && (is_created(outcome) || is_updated(outcome))),
{
    if let MatchOutcome::Linked(result) = outcome {
        let (m, target, existing, looks, probed) = choose|
            m: MatchResult,
            target: Seq<char>,
            existing: Option<LinkRecord>,
            looks: (PathState, PathState, PathState, PathState),
            probed: SourceReadiness,
        | #[trigger]
            concludes(linker, result, m, target, existing, looks, probed);
        let source = m.source_item.path@;
        lemma_write_is_safe(
            linker,
            source,
            target,
            existing,
            looks.0,
            looks.1,
            probed,
            looks.2,
            looks.3,
        );
        if linker.dry_run {
            lemma_dry_run_writes_nothing(
                linker,
                source,
                target,
                existing,
                looks.0,
                looks.1,
                probed,
                looks.2,
                looks.3,
            );
        }
    }
}

proof fn lemma_outcomes_add_up(linker: Linker, outcomes: Seq<MatchOutcome>)
    requires
        outcomes.len() <= u64::MAX,
        forall|i: int| 0 <= i < outcomes.len() ==> is_reached(linker, #[trigger] outcomes[i]),
    ensures
        reasons(outcomes).dom().finite(),
        total(reasons(outcomes)) == tally(outcomes, |o: MatchOutcome| is_skipped(o)),
        refreshed(outcomes).len() == (if linker.dry_run {
            0
        } else {
            tally(outcomes, |o: MatchOutcome| is_created(o)) + tally(
                outcomes,
                |o: MatchOutcome| is_updated(o),
            )
        }),
    decreases outcomes.len(),
{
    if outcomes.len() > 0 {
        let rest = outcomes.drop_last();
        assert forall|i: int| 0 <= i < rest.len() implies is_reached(
            linker,
            #[trigger] rest[i],
        ) by {
            assert(rest[i] == outcomes[i]);
        }
        lemma_outcomes_add_up(linker, rest);
        let last = outcomes.last();
        assert(is_reached(linker, last));
        lemma_reached(linker, last);
        if counted_reason(last) is Some {
            lemma_reason_bound(rest, counted_reason(last)->0);
            lemma_total_counted(reasons(rest), counted_reason(last)->0);
        }
    }
}

/// A run over matches adds up: each skipped match is counted under one reason, and the
/// folder of each link that was created or updated is refreshed, but none in a dry run.
pub proof fn lemma_run_adds_up(
    linker: Linker,
    outcomes: Seq<MatchOutcome>,
    summary: LinkProcessSummary,
)
    requires
        outcomes.len() <= u64::MAX,
        forall|i: int| 0 <= i < outcomes.len() ==> is_reached(linker, #[trigger] outcomes[i]),
        summary_fits(summary, outcomes),
    ensures
        total(summary.skip_reasons@) == summary.skipped,
        summary.refresh_paths@.len() == (if linker.dry_run {
            0
        } else {
            summary.created + summary.updated
        }),
{
    lemma_outcomes_add_up(linker, outcomes);
    assert(text::views(summary.refresh_paths@).len() == summary.refresh_paths@.len());
}

/// One match more changes a summary by what became of it: its outcome is counted once
/// under its own kind, its reason once, and its folder comes last among those refreshed.
pub proof fn lemma_one_match_more(
    outcomes: Seq<MatchOutcome>,
    outcome: MatchOutcome,
    before: LinkProcessSummary,
    after: LinkProcessSummary,
)
    requires
        outcomes.len() < u64::MAX,
        summary_fits(before, outcomes),
        summary_fits(after, outcomes.push(outcome)),
    ensures
        after.created - before.created == (if outcome matches MatchOutcome::Linked(r) && r.outcome
            == LinkWriteOutcome::Created {
            1int
        } else {
            0
        }),
        after.updated - before.updated == (if outcome matches MatchOutcome::Linked(r) && r.outcome
            == LinkWriteOutcome::Updated {
            1int
        } else {
            0
        }),
        after.skipped - before.skipped == (if outcome is SourceMissing || (
        outcome matches MatchOutcome::Linked(r) && r.outcome == LinkWriteOutcome::Skipped) {
            1int
        } else {
            0
        }),
        outcome is SourceMissing ==> reason_count(
            after.skip_reasons@,
            "source_missing_before_link"@,
        ) == reason_count(before.skip_reasons@, "source_missing_before_link"@) + 1,
        (outcome matches MatchOutcome::Linked(r) && r.outcome == LinkWriteOutcome::Skipped
            && r.skip_reason is Some) ==> reason_count(
            after.skip_reasons@,
            outcome->Linked_0.skip_reason->0@,
        ) == reason_count(before.skip_reasons@, outcome->Linked_0.skip_reason->0@) + 1,
        outcome is Failed ==> after.skip_reasons@ == before.skip_reasons@ && text::views(
            after.refresh_paths@,
        ) == text::views(before.refresh_paths@),
        text::views(after.refresh_paths@) == (match outcome {
            MatchOutcome::Linked(r) => match r.refresh_path {
                Some(path) => text::views(before.refresh_paths@).push(path@),
                None => text::views(before.refresh_paths@),
            },
            _ => text::views(before.refresh_paths@),
        }),
{
    assert(outcomes.push(outcome).drop_last() =~= outcomes);
    lemma_reason_bound(outcomes, "source_missing_before_link"@);
    if let MatchOutcome::Linked(r) = outcome {
        if r.skip_reason is Some {
            lemma_reason_bound(outcomes, r.skip_reason->0@);
        }
    }
}

/// Each event moves a task on only from the step that asked for it: a probe of the source
/// from `Probe`, a look at the target from every other step that is not the last; the last
/// steps stay whatever happens, and what is recorded of the link never changes.
pub proof fn lemma_events_move_tasks(
    linker: Linker,
    task: LinkTask,
    source: Seq<char>,
    target: Seq<char>,
    event: LinkEvent,
)
    ensures
        ({
            let next = linker.after_event(task, source, target, event);
            let stands = event matches LinkEvent::Saw(PathState::Symlink(Ok(held)))
                && paths::components(held@) == paths::components(source);
            &&& next.recorded == task.recorded
            &&& is_final(task.stage) ==> next == task
            &&& event is Probed && task.stage != LinkStage::Probe ==> next == task
            &&& event is Saw && task.stage == LinkStage::Probe ==> next == task
            &&& task.stage == LinkStage::Probe ==> {
                &&& event == LinkEvent::Probed(SourceReadiness::Ready) ==> next.stage
                    == LinkStage::Prepare
                &&& (event matches LinkEvent::Probed(found) && found is Unreadable) ==> next.stage
                    == LinkStage::SourceUnreadable
            }
            &&& event is Saw && task.stage == LinkStage::Compare ==> next.stage == (if stands {
                LinkStage::AlreadyCorrect
            } else {
                LinkStage::Inspect
            }) && next.is_update == (task.is_update || !stands)
            &&& task.stage != LinkStage::Compare ==> next.is_update == task.is_update
            &&& task.stage == LinkStage::Inspect && stands ==> next.stage
                == LinkStage::AlreadyCorrectDisk
            &&& task.stage == LinkStage::Inspect && (event matches LinkEvent::Saw(seen) && (seen
                is Absent || seen is Symlink && !stands)) ==> next.stage == (if linker.dry_run {
                LinkStage::DryRun
            } else if linker.source_readiness_gate is Some {
                LinkStage::Probe
            } else {
                LinkStage::Prepare
            })
            &&& task.stage == LinkStage::Prepare && (event matches LinkEvent::Saw(seen) && (seen
                is Absent || seen is Symlink)) ==> next.stage == LinkStage::Write
        }),
{
}

/// A task begins by comparing a link that is on record as active with this source, and by
/// looking at the target otherwise.
pub proof fn lemma_tasks_begin(linker: Linker, source: Seq<char>, existing: Option<LinkRecord>)
    ensures
        ({
            let first = linker.first_step(source, existing);
            let same = existing matches Some(link) && paths::components(link.source_path@)
                == paths::components(source);
            let active = same && existing->0.status == LinkStatus::Active;
            &&& first.stage == (if active {
                LinkStage::Compare
            } else {
                LinkStage::Inspect
            })
            &&& first.recorded == active
            &&& first.is_update == (existing is Some && !same && linker.reconcile_links)
        }),
{
}

/// A match whose source is gone is skipped and logged under the reason it is counted by.
pub proof fn lemma_missing_sources_are_counted(outcomes: Seq<MatchOutcome>)
    requires
        outcomes.len() < u64::MAX,
    ensures
        counted_reason(MatchOutcome::SourceMissing) == Some("source_missing_before_link"@),
        reason_count(
            reasons(outcomes.push(MatchOutcome::SourceMissing)),
            "source_missing_before_link"@,
        ) == reason_count(reasons(outcomes), "source_missing_before_link"@) + 1,
{
    assert(outcomes.push(MatchOutcome::SourceMissing).drop_last() =~= outcomes);
    lemma_reason_bound(outcomes, "source_missing_before_link"@);
}

} // verus!
