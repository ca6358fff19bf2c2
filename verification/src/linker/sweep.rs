//! Finding dead links: what is known of a source, when a link is dead, and what
//! may be removed.

use vstd::prelude::*;
use crate::linker::{
    counted, increment_skip_reason, lemma_total_counted, reason_count, total, DeadLinkSummary, Linker,
};
use crate::models::{LinkRecord, PathHealth, PathState};
use crate::paths;
use crate::tables::PathMap;
use crate::text;

verus! {

// ---------------------------------------------------------------------------
// What is known of a source

/// What has to be probed before the health of a source is known.
#[derive(Debug, PartialEq, Eq)]
pub enum HealthStep {
    Known(PathHealth),
    /// Probe this directory, which holds the source.
    ProbeParent(String),
    /// Probe the source itself.
    ProbeSource,
}

/// The health of a source as far as it is known: what was found before; else
/// that of its directory, where that is not healthy.
pub open spec fn known_health(
    source: Seq<char>,
    sources: Map<Seq<Seq<char>>, PathHealth>,
    parents: Map<Seq<Seq<char>>, PathHealth>,
) -> Option<PathHealth> {
    if sources.contains_key(paths::components(source)) {
        Some(sources[paths::components(source)])
    } else {
        match paths::parent(source) {
            Some(dir) => if parents.contains_key(paths::components(dir)) && parents[paths::components(
                dir,
            )] != PathHealth::Healthy {
                Some(parents[paths::components(dir)])
            } else {
                None
            },
            None => None,
        }
    }
}

/// Whether the directory of a source is the next to be probed.
pub open spec fn parent_unknown(source: Seq<char>, parents: Map<Seq<Seq<char>>, PathHealth>) -> bool {
    match paths::parent(source) {
        Some(dir) => !parents.contains_key(paths::components(dir)),
        None => false,
    }
}

/// What is known of a source; what follows from its directory is remembered.
pub fn cached_source_health(
    source_path: &str,
    source_health_cache: &mut PathMap<PathHealth>,
    parent_health_cache: &PathMap<PathHealth>,
) -> (out: HealthStep)
    requires
        old(source_health_cache).wf(),
        parent_health_cache.wf(),
    ensures
        final(source_health_cache).wf(),
        match known_health(source_path@, old(source_health_cache)@, parent_health_cache@) {
            Some(health) => out == HealthStep::Known(health) && final(source_health_cache)@
                == old(source_health_cache)@.insert(paths::components(source_path@), health),
            None => final(source_health_cache)@ == old(source_health_cache)@ && if parent_unknown(
                source_path@,
                parent_health_cache@,
            ) {
                out matches HealthStep::ProbeParent(dir) && paths::parent(source_path@) == Some(
                    dir@,
                )
            } else {
                out == HealthStep::ProbeSource
            },
        },
{
    let ghost key = paths::components(source_path@);
    if let Some(health) = source_health_cache.get(source_path) {
        assert(source_health_cache@.insert(key, *health) =~= source_health_cache@);
        return HealthStep::Known(health.clone());
    }
    match paths::parent_of(source_path) {
        None => HealthStep::ProbeSource,
        Some(dir) => match parent_health_cache.get(dir.as_str()) {
            None => HealthStep::ProbeParent(dir),
            Some(health) => if health.is_healthy() {
                HealthStep::ProbeSource
            } else {
                source_health_cache.insert(source_path, health.clone());
                HealthStep::Known(health.clone())
            },
        },
    }
}

/// What is known of the existence of a source.
#[derive(Debug, PartialEq, Eq)]
pub enum SourceCheck {
    Exists(bool),
    ProbeParent(String),
    ProbeSource,
}

/// The message with which an operation stops when a source is not healthy.
pub open spec fn unhealthy_message(operation: Seq<char>, source: Seq<char>, health: PathHealth) -> Seq<
    char,
> {
    "Aborting "@ + operation + ": source path became unhealthy: "@ + health.described(source)
}

/// Whether a source exists, for an operation that deletes where it does not: a
/// source whose mount does not answer stops the operation.
pub fn destructive_source_exists(
    operation: &str,
    source_path: &str,
    source_health_cache: &mut PathMap<PathHealth>,
    parent_health_cache: &PathMap<PathHealth>,
) -> (out: Result<SourceCheck, String>)
    requires
        old(source_health_cache).wf(),
        parent_health_cache.wf(),
    ensures
        final(source_health_cache).wf(),
        match known_health(source_path@, old(source_health_cache)@, parent_health_cache@) {
            Some(health) => final(source_health_cache)@ == old(source_health_cache)@.insert(
                paths::components(source_path@),
                health,
            ) && if health.blocks() {
                out is Err && out->Err_0@ == unhealthy_message(operation@, source_path@, health)
            } else {
                out == Ok::<SourceCheck, String>(
                    SourceCheck::Exists(health == PathHealth::Healthy),
                )
            },
            None => final(source_health_cache)@ == old(source_health_cache)@ && if parent_unknown(
                source_path@,
                parent_health_cache@,
            ) {
                out is Ok && (out->Ok_0 matches SourceCheck::ProbeParent(dir) && paths::parent(
                    source_path@,
                ) == Some(dir@))
            } else {
                out == Ok::<SourceCheck, String>(SourceCheck::ProbeSource)
            },
        },
{
    match cached_source_health(source_path, source_health_cache, parent_health_cache) {
        HealthStep::ProbeParent(dir) => Ok(SourceCheck::ProbeParent(dir)),
        HealthStep::ProbeSource => Ok(SourceCheck::ProbeSource),
        HealthStep::Known(health) => {
            if health.blocks_destructive_ops() {
                return Err(
                    text::concat4(
                        "Aborting ",
                        operation,
                        ": source path became unhealthy: ",
                        health.describe(source_path).as_str(),
                    ),
                );
            }
            Ok(SourceCheck::Exists(health.is_healthy()))
        },
    }
}

/// Whether a source exists as far as it is known: what was found before; else
/// that it does not, where its directory does not.
pub open spec fn known_existence(
    source: Seq<char>,
    sources: Map<Seq<Seq<char>>, bool>,
    parents: Map<Seq<Seq<char>>, bool>,
) -> Option<bool> {
    if sources.contains_key(paths::components(source)) {
        Some(sources[paths::components(source)])
    } else {
        match paths::parent(source) {
            Some(dir) => if parents.contains_key(paths::components(dir)) && !parents[paths::components(
                dir,
            )] {
                Some(false)
            } else {
                None
            },
            None => None,
        }
    }
}

/// Whether a source exists as far as it is known; what follows from its
/// directory is remembered.
pub fn cached_source_exists(
    source_path: &str,
    source_cache: &mut PathMap<bool>,
    parent_cache: &PathMap<bool>,
) -> (out: SourceCheck)
    requires
        old(source_cache).wf(),
        parent_cache.wf(),
    ensures
        final(source_cache).wf(),
        match known_existence(source_path@, old(source_cache)@, parent_cache@) {
            Some(b) => out == SourceCheck::Exists(b) && final(source_cache)@ == old(
                source_cache,
            )@.insert(paths::components(source_path@), b),
            None => final(source_cache)@ == old(source_cache)@ && match paths::parent(source_path@) {
                Some(dir) => if parent_cache@.contains_key(paths::components(dir)) {
                    out == SourceCheck::ProbeSource
                } else {
                    out matches SourceCheck::ProbeParent(d) && d@ == dir
                },
                None => out == SourceCheck::ProbeSource,
            },
        },
{
    let ghost key = paths::components(source_path@);
    if let Some(b) = source_cache.get(source_path) {
        assert(source_cache@.insert(key, *b) =~= source_cache@);
        return SourceCheck::Exists(*b);
    }
    match paths::parent_of(source_path) {
        None => SourceCheck::ProbeSource,
        Some(dir) => match parent_cache.get(dir.as_str()) {
            None => SourceCheck::ProbeParent(dir),
            Some(b) => if *b {
                SourceCheck::ProbeSource
            } else {
                source_cache.insert(source_path, false);
                SourceCheck::Exists(false)
            },
        },
    }
}

// ---------------------------------------------------------------------------
// Dead links

/// Whether a link is dead: its source is gone, or what stands at its target is
/// not a symlink that holds the source.
pub open spec fn is_dead(link: LinkRecord, source_exists: bool, seen: PathState) -> bool {
    !source_exists || !seen.links_to(link.source_path@)
}

/// Whether a link is dead.
pub fn link_is_dead(link: &LinkRecord, source_exists: bool, seen: &PathState) -> (b: bool)
    ensures
        b == is_dead(*link, source_exists, *seen),
{
    !source_exists || !seen.is_link_to(link.source_path.as_str())
}

/// Whether a link is in the scope of a sweep.
pub open spec fn in_scope(link: LinkRecord, roots: Option<Seq<Seq<char>>>) -> bool {
    match roots {
        Some(list) => paths::under_any(link.target_path@, list),
        None => true,
    }
}

/// Whether a link is in the scope of a sweep.
pub fn link_in_scope(link: &LinkRecord, roots: Option<&Vec<String>>) -> (b: bool)
    ensures
        b == in_scope(
            *link,
            match roots {
                Some(list) => Some(text::views(list@)),
                None => None,
            },
        ),
{
    match roots {
        Some(list) => paths::path_under_roots(link.target_path.as_str(), list),
        None => true,
    }
}

/// What became of a link in a sweep.
#[derive(Debug, Clone, Copy, PartialEq, Eq, Structural)]
pub enum SweepOutcome {
    Alive,
    /// Dead, and nothing is to be changed.
    DeadKept,
    /// Dead, and its symlink is to be removed.
    DeadRemoved,
    /// Dead, but a directory stands at the target.
    DeadDirectory,
    /// Dead, but no symlink stands at the target.
    DeadNotSymlink,
}

impl Linker {
    /// What becomes of a dead link, by two looks at its target.
    pub open spec fn dead_outcome(&self, first: PathState, second: PathState) -> SweepOutcome {
        if self.dry_run {
            SweepOutcome::DeadKept
        } else if !(first is Symlink) {
            SweepOutcome::DeadNotSymlink
        } else if second is Directory {
            SweepOutcome::DeadDirectory
        } else {
            SweepOutcome::DeadRemoved
        }
    }

    /// What becomes of a dead link, by two looks at its target.
    pub fn dead_link_action(&self, first: &PathState, second: &PathState) -> (out: SweepOutcome)
        ensures
            out == self.dead_outcome(*first, *second),
    {
        if self.dry_run {
            return SweepOutcome::DeadKept;
        }
        match first {
            PathState::Symlink(_) => match second {
                PathState::Directory => SweepOutcome::DeadDirectory,
                _ => SweepOutcome::DeadRemoved,
            },
            _ => SweepOutcome::DeadNotSymlink,
        }
    }
}

/// What becomes of a link in a sweep, by whether its source exists and three looks at
/// its target; `None` where the link is out of the scope.
pub open spec fn sweep_outcome(
    linker: Linker,
    link: LinkRecord,
    roots: Option<Seq<Seq<char>>>,
    source_exists: bool,
    seen: PathState,
    first: PathState,
    second: PathState,
) -> Option<SweepOutcome> {
    if !in_scope(link, roots) {
        None
    } else if is_dead(link, source_exists, seen) {
        Some(linker.dead_outcome(first, second))
    } else {
        Some(SweepOutcome::Alive)
    }
}

impl Linker {
    /// What becomes of a link in a sweep; `None` where it is out of the scope. The link
    /// is judged by `seen`, and what may be done by the two looks behind that.
    pub fn sweep_step(
        &self,
        link: &LinkRecord,
        roots: Option<&Vec<String>>,
        source_exists: bool,
        seen: &PathState,
        first: &PathState,
        second: &PathState,
    ) -> (out: Option<SweepOutcome>)
        ensures
            out == sweep_outcome(
                *self,
                *link,
                match roots {
                    Some(list) => Some(text::views(list@)),
                    None => None,
                },
                source_exists,
                *seen,
                *first,
                *second,
            ),
    {
        if !link_in_scope(link, roots) {
            None
        } else if link_is_dead(link, source_exists, seen) {
            Some(self.dead_link_action(first, second))
        } else {
            Some(SweepOutcome::Alive)
        }
    }
}

/// The log entry of a dead link behind the one that marks it dead: action and
/// note.
pub open spec fn sweep_log(outcome: SweepOutcome) -> Option<(Seq<char>, Option<Seq<char>>)> {
    match outcome {
        SweepOutcome::DeadRemoved => Some(("dead_removed"@, None)),
        SweepOutcome::DeadDirectory => Some(("dead_skipped"@, Some("directory_guard"@))),
        SweepOutcome::DeadNotSymlink => Some(("dead_skipped"@, Some("not_symlink"@))),
        _ => None,
    }
}

/// The log entry that marks a link dead.
pub fn dead_mark_entry() -> (out: crate::linker::writing::LinkLogEntry)
    ensures
        out.action@ == "dead_marked"@,
        out.note is Some && out.note->0@ == "source_or_target_invalid"@,
{
    crate::linker::writing::LinkLogEntry {
        action: "dead_marked",
        note: Some("source_or_target_invalid"),
    }
}

impl SweepOutcome {
    /// The log entry of a dead link behind the one that marks it dead.
    pub fn log_entry(&self) -> (out: Option<crate::linker::writing::LinkLogEntry>)
        ensures
            match out {
                Some(e) => sweep_log(*self) == Some(
                    (
                        e.action@,
                        match e.note {
                            Some(n) => Some(n@),
                            None => None,
                        },
                    ),
                ),
                None => sweep_log(*self) is None,
            },
    {
        match self {
            SweepOutcome::DeadRemoved => Some(
                crate::linker::writing::LinkLogEntry { action: "dead_removed", note: None },
            ),
            SweepOutcome::DeadDirectory => Some(
                crate::linker::writing::LinkLogEntry {
                    action: "dead_skipped",
                    note: Some("directory_guard"),
                },
            ),
            SweepOutcome::DeadNotSymlink => Some(
                crate::linker::writing::LinkLogEntry {
                    action: "dead_skipped",
                    note: Some("not_symlink"),
                },
            ),
            _ => None,
        }
    }
}

/// Only a symlink is ever removed, and none in a dry run.
pub proof fn lemma_only_symlinks_are_removed(linker: Linker, first: PathState, second: PathState)
    requires
        linker.dead_outcome(first, second) == SweepOutcome::DeadRemoved,
    ensures
        !linker.dry_run,
        first is Symlink,
        !(second is Directory),
{
}

/// A source whose mount does not answer never counts as gone.
pub proof fn lemma_blocked_source_is_not_gone(health: PathHealth)
    requires
        health.blocks(),
    ensures
        health != PathHealth::Missing,
        health != PathHealth::Healthy,
{
}

/// The number of outcomes of a kind.
pub open spec fn sweep_tally(
    outcomes: Seq<SweepOutcome>,
    kind: spec_fn(SweepOutcome) -> bool,
) -> nat
    decreases outcomes.len(),
{
    if outcomes.len() == 0 {
        0
    } else {
        sweep_tally(outcomes.drop_last(), kind) + if kind(outcomes.last()) {
            1nat
        } else {
            0nat
        }
    }
}

/// The counts of the reasons for which dead links were left.
pub open spec fn sweep_reasons(outcomes: Seq<SweepOutcome>) -> Map<Seq<char>, u64>
    decreases outcomes.len(),
{
    if outcomes.len() == 0 {
        Map::empty()
    } else {
        let before = sweep_reasons(outcomes.drop_last());
        match outcomes.last() {
            SweepOutcome::DeadDirectory => counted(before, "directory_guard"@),
            SweepOutcome::DeadNotSymlink => counted(before, "not_symlink"@),
            _ => before,
        }
    }
}

proof fn lemma_sweep_bounds(
    outcomes: Seq<SweepOutcome>,
    kind: spec_fn(SweepOutcome) -> bool,
    reason: Seq<char>,
)
    requires
        outcomes.len() <= u64::MAX,
    ensures
        sweep_tally(outcomes, kind) <= outcomes.len(),
        reason_count(sweep_reasons(outcomes), reason) <= outcomes.len(),
    decreases outcomes.len(),
{
    if outcomes.len() > 0 {
        lemma_sweep_bounds(outcomes.drop_last(), kind, reason);
    }
}

/// Whether a summary tells what the outcomes amount to.
pub open spec fn sweep_fits(summary: DeadLinkSummary, outcomes: Seq<SweepOutcome>) -> bool {
    &&& summary.dead_marked == sweep_tally(outcomes, |o: SweepOutcome| o != SweepOutcome::Alive)
    &&& summary.removed == sweep_tally(outcomes, |o: SweepOutcome| o == SweepOutcome::DeadRemoved)
    &&& summary.skipped == sweep_tally(
        outcomes,
        |o: SweepOutcome| o == SweepOutcome::DeadDirectory || o == SweepOutcome::DeadNotSymlink,
    )
    &&& summary.skip_reasons.wf()
    &&& summary.skip_reasons@ == sweep_reasons(outcomes)
}

impl Linker {
    /// Sums up what became of the links of a sweep.
    pub fn check_dead_links_scoped(&self, outcomes: &Vec<SweepOutcome>) -> (summary:
        DeadLinkSummary)
        ensures
            sweep_fits(summary, outcomes@),
    {
        let mut summary = DeadLinkSummary::default();
        let mut i: usize = 0;
        assert(outcomes@.take(0) == Seq::<SweepOutcome>::empty());
        while i < outcomes.len()
            invariant
                i <= outcomes@.len(),
                sweep_fits(summary, outcomes@.take(i as int)),
            decreases outcomes@.len() - i,
        {
            let ghost so_far = outcomes@.take(i as int);
            proof {
                assert(outcomes@.take(i + 1).drop_last() == so_far);
                lemma_sweep_bounds(
                    so_far,
                    |o: SweepOutcome| o != SweepOutcome::Alive,
                    "directory_guard"@,
                );
                lemma_sweep_bounds(
                    so_far,
                    |o: SweepOutcome| o == SweepOutcome::DeadRemoved,
                    "not_symlink"@,
                );
                lemma_sweep_bounds(
                    so_far,
                    |o: SweepOutcome|
                        o == SweepOutcome::DeadDirectory || o == SweepOutcome::DeadNotSymlink,
                    "not_symlink"@,
                );
            }
            match outcomes[i] {
                SweepOutcome::Alive => {},
                SweepOutcome::DeadKept => {
                    summary.dead_marked = summary.dead_marked + 1;
                },
                SweepOutcome::DeadRemoved => {
                    summary.dead_marked = summary.dead_marked + 1;
                    summary.removed = summary.removed + 1;
                },
                SweepOutcome::DeadDirectory => {
                    summary.dead_marked = summary.dead_marked + 1;
                    summary.skipped = summary.skipped + 1;
                    increment_skip_reason(&mut summary.skip_reasons, "directory_guard");
                },
                SweepOutcome::DeadNotSymlink => {
                    summary.dead_marked = summary.dead_marked + 1;
                    summary.skipped = summary.skipped + 1;
                    increment_skip_reason(&mut summary.skip_reasons, "not_symlink");
                },
            }
            i += 1;
        }
        assert(outcomes@.take(outcomes@.len() as int) == outcomes@);
        summary
    }
}

/// Whether an outcome is that of a step of a linker's sweep.
pub open spec fn is_swept(linker: Linker, outcome: SweepOutcome) -> bool {
    exists|
        link: LinkRecord,
        roots: Option<Seq<Seq<char>>>,
        source_exists: bool,
        seen: PathState,
        first: PathState,
        second: PathState,
    | #[trigger]
        sweep_outcome(linker, link, roots, source_exists, seen, first, second) == Some(outcome)
}

proof fn lemma_outcomes_add_up(linker: Linker, outcomes: Seq<SweepOutcome>)
    requires
        outcomes.len() <= u64::MAX,
        forall|i: int| 0 <= i < outcomes.len() ==> is_swept(linker, #[trigger] outcomes[i]),
    ensures
        sweep_tally(outcomes, |o: SweepOutcome| o == SweepOutcome::DeadRemoved) + sweep_tally(
            outcomes,
            |o: SweepOutcome| o == SweepOutcome::DeadDirectory || o == SweepOutcome::DeadNotSymlink,
        ) == (if linker.dry_run {
            0
        } else {
            sweep_tally(outcomes, |o: SweepOutcome| o != SweepOutcome::Alive)
        }),
        sweep_reasons(outcomes).dom().finite(),
        total(sweep_reasons(outcomes)) == sweep_tally(
            outcomes,
            |o: SweepOutcome| o == SweepOutcome::DeadDirectory || o == SweepOutcome::DeadNotSymlink,
        ),
    decreases outcomes.len(),
{
    if outcomes.len() > 0 {
        let rest = outcomes.drop_last();
        assert forall|i: int| 0 <= i < rest.len() implies is_swept(linker, #[trigger] rest[i]) by {
            assert(rest[i] == outcomes[i]);
        }
        lemma_outcomes_add_up(linker, rest);
        assert(is_swept(linker, outcomes.last()));
        lemma_sweep_bounds(rest, |o: SweepOutcome| true, "directory_guard"@);
        lemma_sweep_bounds(rest, |o: SweepOutcome| true, "not_symlink"@);
        lemma_total_counted(sweep_reasons(rest), "directory_guard"@);
        lemma_total_counted(sweep_reasons(rest), "not_symlink"@);
    }
}

/// A sweep adds up: outside a dry run each link that is marked dead is either removed or
/// skipped, in a dry run none is, and each skipped one is counted under one reason.
pub proof fn lemma_sweep_adds_up(
    linker: Linker,
    outcomes: Seq<SweepOutcome>,
    summary: DeadLinkSummary,
)
    requires
        outcomes.len() <= u64::MAX,
        forall|i: int| 0 <= i < outcomes.len() ==> is_swept(linker, #[trigger] outcomes[i]),
        sweep_fits(summary, outcomes),
    ensures
        summary.removed + summary.skipped == (if linker.dry_run {
            0
        } else {
            summary.dead_marked as int
        }),
        total(summary.skip_reasons@) == summary.skipped,
{
    lemma_outcomes_add_up(linker, outcomes);
}

// ---------------------------------------------------------------------------
// What was seen decides what becomes of a link

/// A link that a sweep leaves alive stands: it is in the scope, its source exists, and a
/// symlink that holds the source was seen at its target. Every other link in the scope is
/// dead, and a link out of the scope is left alone.
pub proof fn lemma_alive_links_stand(
    linker: Linker,
    link: LinkRecord,
    roots: Option<Seq<Seq<char>>>,
    source_exists: bool,
    seen: PathState,
    first: PathState,
    second: PathState,
)
    ensures
        ({
            let outcome = sweep_outcome(linker, link, roots, source_exists, seen, first, second);
            let within = roots matches Some(list) ==> exists|i: int|
                0 <= i < list.len() && paths::under(link.target_path@, #[trigger] list[i]);
            let stands = seen matches PathState::Symlink(Ok(held)) && paths::components(held@)
                == paths::components(link.source_path@);
            &&& outcome is None <==> !within
            &&& outcome == Some(SweepOutcome::Alive) <==> within && source_exists && stands
            &&& outcome == Some(SweepOutcome::DeadKept) <==> within && !(source_exists && stands)
                && linker.dry_run
            &&& outcome == Some(SweepOutcome::DeadRemoved) <==> within && !(source_exists && stands)
                && !linker.dry_run && first is Symlink && !(second is Directory)
            &&& outcome == Some(SweepOutcome::DeadDirectory) <==> within && !(source_exists
                && stands) && !linker.dry_run && first is Symlink && second is Directory
            &&& outcome == Some(SweepOutcome::DeadNotSymlink) <==> within && !(source_exists
                && stands) && !linker.dry_run && !(first is Symlink)
        }),
{
}

/// A link that was just written is alive as long as its source exists and the symlink
/// still holds the source's path.
pub proof fn lemma_written_links_are_alive(
    linker: Linker,
    link: LinkRecord,
    held: String,
    first: PathState,
    second: PathState,
)
    requires
        paths::same(held@, link.source_path@),
    ensures
        sweep_outcome(
            linker,
            link,
            None,
            true,
            PathState::Symlink(Ok(held)),
            first,
            second,
        ) == Some(SweepOutcome::Alive),
{
}

/// One link more changes a summary by what became of it: a dead one is marked, and outside
/// a dry run it is either removed or skipped for its own reason.
pub proof fn lemma_one_link_more(
    outcomes: Seq<SweepOutcome>,
    outcome: SweepOutcome,
    before: DeadLinkSummary,
    after: DeadLinkSummary,
)
    requires
        outcomes.len() < u64::MAX,
        sweep_fits(before, outcomes),
        sweep_fits(after, outcomes.push(outcome)),
    ensures
        outcome == SweepOutcome::Alive <==> after.dead_marked == before.dead_marked,
        outcome != SweepOutcome::Alive <==> after.dead_marked == before.dead_marked + 1,
        after.removed == before.removed + (if outcome == SweepOutcome::DeadRemoved {
            1int
        } else {
            0
        }),
        after.skipped == before.skipped + (if outcome == SweepOutcome::DeadDirectory || outcome
            == SweepOutcome::DeadNotSymlink {
            1int
        } else {
            0
        }),
        outcome == SweepOutcome::DeadDirectory ==> reason_count(
            after.skip_reasons@,
            "directory_guard"@,
        ) == reason_count(before.skip_reasons@, "directory_guard"@) + 1,
        outcome == SweepOutcome::DeadNotSymlink ==> reason_count(
            after.skip_reasons@,
            "not_symlink"@,
        ) == reason_count(before.skip_reasons@, "not_symlink"@) + 1,
        outcome == SweepOutcome::Alive || outcome == SweepOutcome::DeadKept || outcome
            == SweepOutcome::DeadRemoved ==> after.skip_reasons@ == before.skip_reasons@,
{
    assert(outcomes.push(outcome).drop_last() =~= outcomes);
    lemma_sweep_bounds(outcomes, |o: SweepOutcome| true, "directory_guard"@);
    lemma_sweep_bounds(outcomes, |o: SweepOutcome| true, "not_symlink"@);
}

/// The log of a dead link tells what became of it: a removed one has no note, one that was
/// left has the reason under which it is counted, and nothing is logged where nothing was
/// to be changed.
pub proof fn lemma_sweep_log_agrees(outcome: SweepOutcome)
    ensures
        sweep_log(outcome) is None <==> outcome == SweepOutcome::Alive || outcome
            == SweepOutcome::DeadKept,
        sweep_log(outcome) matches Some((action, note)) ==> {
            &&& outcome == SweepOutcome::DeadRemoved ==> action == "dead_removed"@ && note is None
            &&& outcome != SweepOutcome::DeadRemoved ==> action == "dead_skipped"@ && note is Some
            &&& note matches Some(reason) ==> sweep_reasons(seq![outcome]) == map![reason => 1u64]
        },
{
    reveal_with_fuel(sweep_reasons, 2);
    assert(seq![outcome].drop_last() =~= Seq::<SweepOutcome>::empty());
    if let Some((action, note)) = sweep_log(outcome) {
        if let Some(reason) = note {
            assert(sweep_reasons(seq![outcome]) =~= map![reason => 1u64]);
        }
    }
}

/// What is known of a source comes from the source itself, where it was probed; else from
/// its directory, where that was probed and is not healthy. A healthy directory says
/// nothing, and what was found is found again.
pub proof fn lemma_health_is_known(
    source: Seq<char>,
    sources: Map<Seq<Seq<char>>, PathHealth>,
    parents: Map<Seq<Seq<char>>, PathHealth>,
)
    ensures
        sources.contains_key(paths::components(source)) ==> known_health(source, sources, parents)
            == Some(sources[paths::components(source)]),
        !sources.contains_key(paths::components(source)) ==> (known_health(
            source,
            sources,
            parents,
        ) matches Some(health) ==> health != PathHealth::Healthy && paths::parent(source) is Some
            && parents.contains_key(paths::components(source).drop_last())
            && parents[paths::components(source).drop_last()] == health),
        (paths::parent(source) is Some && parents.contains_key(
            paths::components(source).drop_last(),
        ) && parents[paths::components(source).drop_last()] != PathHealth::Healthy) ==> known_health(
            source,
            sources,
            parents,
        ) is Some,
        known_health(source, sources, parents) matches Some(health) ==> known_health(
            source,
            sources.insert(paths::components(source), health),
            parents,
        ) == Some(health),
        parent_unknown(source, parents) <==> paths::parent(source) is Some && !parents.contains_key(
            paths::components(source).drop_last(),
        ),
{
    paths::lemma_parent_drops_the_last(source);
}

/// The same of existence: a source that was looked for is known, one whose directory is
/// gone is gone, and a directory that exists says nothing.
pub proof fn lemma_existence_is_known(
    source: Seq<char>,
    sources: Map<Seq<Seq<char>>, bool>,
    parents: Map<Seq<Seq<char>>, bool>,
)
    ensures
        sources.contains_key(paths::components(source)) ==> known_existence(
            source,
            sources,
            parents,
        ) == Some(sources[paths::components(source)]),
        !sources.contains_key(paths::components(source)) ==> (known_existence(
            source,
            sources,
            parents,
        ) == (if paths::parent(source) is Some && parents.contains_key(
            paths::components(source).drop_last(),
        ) && !parents[paths::components(source).drop_last()] {
            Some(false)
        } else {
            None
        })),
{
    paths::lemma_parent_drops_the_last(source);
}

/// Nothing is deleted on the word of a mount that does not answer: only a source that is
/// missing counts as gone, one that is healthy exists, and every other finding stops the
/// operation with a message that names the operation and the source.
pub proof fn lemma_only_missing_sources_are_gone(
    health: PathHealth,
    operation: Seq<char>,
    source: Seq<char>,
)
    ensures
        health.blocks() <==> health != PathHealth::Healthy && health != PathHealth::Missing,
        text::begins(
            unhealthy_message(operation, source, health),
            "Aborting "@ + operation + ": source path became unhealthy: "@ + source,
        ),
{
    let head = "Aborting "@ + operation + ": source path became unhealthy: "@ + source;
    assert(unhealthy_message(operation, source, health).subrange(0, head.len() as int) =~= head);
}

} // verus!
