//! Planning placements: what linking the matches would create, update or find
//! in its way, by folder and by file.

use vstd::prelude::*;
use crate::linker::{Linker, TargetPathError};
use crate::models::{LinkRecord, MatchResult, PathState};
use crate::order;
use crate::paths;
use crate::tables::PathMap;
use crate::text;

verus! {

/// What linking would do at a target.
#[derive(Debug, Clone, Copy, PartialEq, Eq, Structural)]
pub enum DiscoverPlacementAction {
    Create,
    Update,
    BlockedRegularFile,
    BlockedDirectory,
}

impl DiscoverPlacementAction {
    /// The name of the action.
    pub open spec fn name(self) -> Seq<char> {
        match self {
            DiscoverPlacementAction::Create => "create"@,
            DiscoverPlacementAction::Update => "update"@,
            DiscoverPlacementAction::BlockedRegularFile => "blocked_regular_file"@,
            DiscoverPlacementAction::BlockedDirectory => "blocked_directory"@,
        }
    }

    /// The name of the action.
    pub fn as_str(self) -> (out: &'static str)
        ensures
            out@ == self.name(),
    {
        match self {
            DiscoverPlacementAction::Create => "create",
            DiscoverPlacementAction::Update => "update",
            DiscoverPlacementAction::BlockedRegularFile => "blocked_regular_file",
            DiscoverPlacementAction::BlockedDirectory => "blocked_directory",
        }
    }

    /// Whether something is in the way.
    pub open spec fn blocked(self) -> bool {
        self is BlockedRegularFile || self is BlockedDirectory
    }

    /// Whether something is in the way.
    pub fn is_blocked(self) -> (b: bool)
        ensures
            b == self.blocked(),
    {
        match self {
            DiscoverPlacementAction::BlockedRegularFile => true,
            DiscoverPlacementAction::BlockedDirectory => true,
            _ => false,
        }
    }
}

/// One planned link.
#[derive(Debug, Clone, PartialEq, Eq)]
pub struct DiscoverPlacement {
    pub library_name: String,
    pub media_id: String,
    pub title: String,
    pub folder_path: String,
    pub source_path: String,
    pub target_path: String,
    pub source_name: String,
    pub action: DiscoverPlacementAction,
    pub season: Option<u32>,
    pub episode: Option<u32>,
}

impl DiscoverPlacement {
    /// The name of the action.
    pub fn action_label(&self) -> (out: &'static str)
        ensures
            out@ == (match self.action {
                DiscoverPlacementAction::Create => "create"@,
                DiscoverPlacementAction::Update => "update"@,
                DiscoverPlacementAction::BlockedRegularFile => "blocked_regular_file"@,
                DiscoverPlacementAction::BlockedDirectory => "blocked_directory"@,
            }),
    {
        self.action.as_str()
    }

    /// The style class of the action's badge.
    pub fn action_badge_class(&self) -> (out: &'static str)
        ensures
            out@ == (if self.action.blocked() {
                "badge-danger"@
            } else if self.action == DiscoverPlacementAction::Create {
                "badge-success"@
            } else {
                "badge-warning"@
            }),
    {
        match self.action {
            DiscoverPlacementAction::Create => "badge-success",
            DiscoverPlacementAction::Update => "badge-warning",
            _ => "badge-danger",
        }
    }
}

/// What is planned for a folder.
#[derive(Debug, Clone, PartialEq, Eq)]
pub struct DiscoverFolderPlan {
    pub library_name: String,
    pub media_id: String,
    pub title: String,
    pub folder_path: String,
    pub existing_links: usize,
    pub planned_creates: usize,
    pub planned_updates: usize,
    pub blocked: usize,
}

/// The counts of a plan.
#[derive(Debug, Default, Clone, Copy, PartialEq, Eq, Structural)]
pub struct DiscoverSummary {
    pub folders: usize,
    pub placements: usize,
    pub creates: usize,
    pub updates: usize,
    pub blocked: usize,
}

/// The plan.
#[derive(Debug, Default, Clone, PartialEq, Eq)]
pub struct DiscoverPlan {
    pub folders: Vec<DiscoverFolderPlan>,
    pub placements: Vec<DiscoverPlacement>,
}

/// The number of placements with an action of a kind.
pub open spec fn placements_of(
    placements: Seq<DiscoverPlacement>,
    kind: spec_fn(DiscoverPlacementAction) -> bool,
) -> nat
    decreases placements.len(),
{
    if placements.len() == 0 {
        0
    } else {
        placements_of(placements.drop_last(), kind) + if kind(placements.last().action) {
            1nat
        } else {
            0nat
        }
    }
}

proof fn lemma_placements_bound(
    placements: Seq<DiscoverPlacement>,
    kind: spec_fn(DiscoverPlacementAction) -> bool,
)
    ensures
        placements_of(placements, kind) <= placements.len(),
    decreases placements.len(),
{
    if placements.len() > 0 {
        lemma_placements_bound(placements.drop_last(), kind);
    }
}

pub open spec fn is_create(action: DiscoverPlacementAction) -> bool {
    action == DiscoverPlacementAction::Create
}

pub open spec fn is_update(action: DiscoverPlacementAction) -> bool {
    action == DiscoverPlacementAction::Update
}

/// Every placement is a creation, an update or blocked.
pub proof fn lemma_placements_add_up(placements: Seq<DiscoverPlacement>)
    ensures
        placements_of(placements, |a: DiscoverPlacementAction| is_create(a)) + placements_of(
            placements,
            |a: DiscoverPlacementAction| is_update(a),
        ) + placements_of(placements, |a: DiscoverPlacementAction| a.blocked()) == placements.len(),
    decreases placements.len(),
{
    if placements.len() > 0 {
        lemma_placements_add_up(placements.drop_last());
    }
}

impl DiscoverPlan {
    /// Counts what is planned.
    pub fn summary(&self) -> (out: DiscoverSummary)
        ensures
            out.folders == self.folders@.len(),
            out.placements == self.placements@.len(),
            out.creates == placements_of(
                self.placements@,
                |a: DiscoverPlacementAction| is_create(a),
            ),
            out.updates == placements_of(
                self.placements@,
                |a: DiscoverPlacementAction| is_update(a),
            ),
            out.blocked == placements_of(self.placements@, |a: DiscoverPlacementAction| a.blocked()),
    {
        let mut summary = DiscoverSummary {
            folders: self.folders.len(),
            placements: self.placements.len(),
            creates: 0,
            updates: 0,
            blocked: 0,
        };
        let mut i: usize = 0;
        assert(self.placements@.take(0) == Seq::<DiscoverPlacement>::empty());
        while i < self.placements.len()
            invariant
                i <= self.placements@.len(),
                summary.folders == self.folders@.len(),
                summary.placements == self.placements@.len(),
                summary.creates == placements_of(
                    self.placements@.take(i as int),
                    |a: DiscoverPlacementAction| is_create(a),
                ),
                summary.updates == placements_of(
                    self.placements@.take(i as int),
                    |a: DiscoverPlacementAction| is_update(a),
                ),
                summary.blocked == placements_of(
                    self.placements@.take(i as int),
                    |a: DiscoverPlacementAction| a.blocked(),
                ),
            decreases self.placements@.len() - i,
        {
            let ghost so_far = self.placements@.take(i as int);
            proof {
                assert(self.placements@.take(i + 1).drop_last() == so_far);
                lemma_placements_bound(so_far, |a: DiscoverPlacementAction| is_create(a));
                lemma_placements_bound(so_far, |a: DiscoverPlacementAction| is_update(a));
                lemma_placements_bound(so_far, |a: DiscoverPlacementAction| a.blocked());
            }
            match self.placements[i].action {
                DiscoverPlacementAction::Create => {
                    summary.creates = summary.creates + 1;
                },
                DiscoverPlacementAction::Update => {
                    summary.updates = summary.updates + 1;
                },
                _ => {
                    summary.blocked = summary.blocked + 1;
                },
            }
            i += 1;
        }
        assert(self.placements@.take(self.placements@.len() as int) == self.placements@);
        summary
    }
}

// ---------------------------------------------------------------------------
// Orders

/// A number, or 0 where there is none.
pub open spec fn or_zero(n: Option<u32>) -> int {
    match n {
        Some(v) => v as int,
        None => 0,
    }
}

fn number_or_zero(n: Option<u32>) -> (out: u32)
    ensures
        out == or_zero(n),
{
    match n {
        Some(v) => v,
        None => 0,
    }
}

impl order::Ranked for DiscoverPlacement {
    /// By library, title, season, episode and source name.
    open spec fn precedes(&self, other: &Self) -> bool {
        if self.library_name@ != other.library_name@ {
            order::text_before(self.library_name@, other.library_name@)
        } else if self.title@ != other.title@ {
            order::text_before(self.title@, other.title@)
        } else if or_zero(self.season) != or_zero(other.season) {
            or_zero(self.season) < or_zero(other.season)
        } else if or_zero(self.episode) != or_zero(other.episode) {
            or_zero(self.episode) < or_zero(other.episode)
        } else {
            order::text_before(self.source_name@, other.source_name@)
        }
    }

    proof fn rank_order(a: &Self, b: &Self, c: &Self) {
        order::lemma_text_order(a.library_name@, b.library_name@, c.library_name@);
        order::lemma_text_order(a.title@, b.title@, c.title@);
        order::lemma_text_order(a.source_name@, b.source_name@, c.source_name@);
    }

    fn ranks_before(&self, other: &Self) -> (b: bool) {
        if !text::text_eq(self.library_name.as_str(), other.library_name.as_str()) {
            order::comes_before(self.library_name.as_str(), other.library_name.as_str())
        } else if !text::text_eq(self.title.as_str(), other.title.as_str()) {
            order::comes_before(self.title.as_str(), other.title.as_str())
        } else {
            let s1 = number_or_zero(self.season);
            let s2 = number_or_zero(other.season);
            let e1 = number_or_zero(self.episode);
            let e2 = number_or_zero(other.episode);
            if s1 != s2 {
                s1 < s2
            } else if e1 != e2 {
                e1 < e2
            } else {
                order::comes_before(self.source_name.as_str(), other.source_name.as_str())
            }
        }
    }
}

impl order::Ranked for DiscoverFolderPlan {
    /// By library, title and path.
    open spec fn precedes(&self, other: &Self) -> bool {
        if self.library_name@ != other.library_name@ {
            order::text_before(self.library_name@, other.library_name@)
        } else if self.title@ != other.title@ {
            order::text_before(self.title@, other.title@)
        } else {
            order::text_before(self.folder_path@, other.folder_path@)
        }
    }

    proof fn rank_order(a: &Self, b: &Self, c: &Self) {
        order::lemma_text_order(a.library_name@, b.library_name@, c.library_name@);
        order::lemma_text_order(a.title@, b.title@, c.title@);
        order::lemma_text_order(a.folder_path@, b.folder_path@, c.folder_path@);
    }

    fn ranks_before(&self, other: &Self) -> (b: bool) {
        if !text::text_eq(self.library_name.as_str(), other.library_name.as_str()) {
            order::comes_before(self.library_name.as_str(), other.library_name.as_str())
        } else if !text::text_eq(self.title.as_str(), other.title.as_str()) {
            order::comes_before(self.title.as_str(), other.title.as_str())
        } else {
            order::comes_before(self.folder_path.as_str(), other.folder_path.as_str())
        }
    }
}

// ---------------------------------------------------------------------------
// What linking would do

/// What linking would do at a target: nothing where a symlink to the source
/// stands there, or one that cannot be read.
pub open spec fn action_at(
    target: Seq<char>,
    source: Seq<char>,
    on_record: bool,
    seen: PathState,
) -> Option<DiscoverPlacementAction> {
    match seen {
        PathState::Directory => Some(DiscoverPlacementAction::BlockedDirectory),
        PathState::File => Some(DiscoverPlacementAction::BlockedRegularFile),
        PathState::Symlink(Err(_)) => None,
        PathState::Symlink(Ok(held)) => if paths::same(
            paths::link_destination(target, held@),
            source,
        ) {
            None
        } else {
            Some(DiscoverPlacementAction::Update)
        },
        PathState::Absent(_) => if on_record {
            Some(DiscoverPlacementAction::Update)
        } else {
            Some(DiscoverPlacementAction::Create)
        },
    }
}

/// What linking would do at a target.
pub fn classify_target_path(
    target_path: &str,
    expected_source: &str,
    on_record: bool,
    seen: &PathState,
) -> (out: Option<DiscoverPlacementAction>)
    ensures
        out == action_at(target_path@, expected_source@, on_record, *seen),
{
    match seen {
        PathState::Directory => Some(DiscoverPlacementAction::BlockedDirectory),
        PathState::File => Some(DiscoverPlacementAction::BlockedRegularFile),
        PathState::Symlink(held) => match held {
            Err(_) => None,
            Ok(t) => {
                let resolved = paths::resolve_link_target(target_path, t.as_str());
                if paths::same_path(resolved.as_str(), expected_source) {
                    None
                } else {
                    Some(DiscoverPlacementAction::Update)
                }
            },
        },
        PathState::Absent(_) => if on_record {
            Some(DiscoverPlacementAction::Update)
        } else {
            Some(DiscoverPlacementAction::Create)
        },
    }
}

// ---------------------------------------------------------------------------
// Links per folder

/// The components of paths.
pub open spec fn all_components(list: Seq<String>) -> Seq<Seq<Seq<char>>> {
    list.map_values(|path: String| paths::components(path@))
}

/// The longest prefix of `target`, of at most `n` and at least `low` components,
/// that is one of the roots.
pub open spec fn nearest_root(
    target: Seq<Seq<char>>,
    roots: Seq<Seq<Seq<char>>>,
    n: int,
    low: int,
) -> Option<Seq<Seq<char>>>
    decreases n - low + 1,
{
    if n < low || n < 0 {
        None
    } else if roots.contains(target.take(n)) {
        Some(target.take(n))
    } else {
        nearest_root(target, roots, n - 1, low)
    }
}

/// The root that a path belongs to: the nearest of the path and the directories
/// above it that is one.
pub open spec fn root_of(path: Seq<char>, roots: Seq<Seq<Seq<char>>>) -> Option<Seq<Seq<char>>> {
    let target = paths::components(path);
    nearest_root(
        target,
        roots,
        target.len() as int,
        if paths::rooted(path) {
            1
        } else {
            0
        },
    )
}

/// The number of links that belong to a root.
pub open spec fn links_below(
    links: Seq<LinkRecord>,
    roots: Seq<Seq<Seq<char>>>,
    root: Seq<Seq<char>>,
) -> nat
    decreases links.len(),
{
    if links.len() == 0 {
        0
    } else {
        links_below(links.drop_last(), roots, root) + if root_of(links.last().target_path@, roots)
            == Some(root) {
            1nat
        } else {
            0nat
        }
    }
}

proof fn lemma_links_below_bound(
    links: Seq<LinkRecord>,
    roots: Seq<Seq<Seq<char>>>,
    root: Seq<Seq<char>>,
)
    ensures
        links_below(links, roots, root) <= links.len(),
    decreases links.len(),
{
    if links.len() > 0 {
        lemma_links_below_bound(links.drop_last(), roots, root);
    }
}

/// Whether a map holds exactly the counts that are not zero.
pub open spec fn counts_fit(
    counts: Map<Seq<Seq<char>>, usize>,
    links: Seq<LinkRecord>,
    roots: Seq<Seq<Seq<char>>>,
) -> bool {
    forall|root: Seq<Seq<char>>|
        #![trigger counts.contains_key(root)]
        counts.contains_key(root) == (links_below(links, roots, root) > 0) && (counts.contains_key(
            root,
        ) ==> counts[root] == links_below(links, roots, root))
}

/// The root that a path belongs to, by its index.
fn find_root(path: &str, folder_roots: &Vec<String>) -> (out: Option<usize>)
    ensures
        match out {
            Some(i) => i < folder_roots@.len() && root_of(path@, all_components(folder_roots@))
                == Some(paths::components(folder_roots@[i as int]@)),
            None => root_of(path@, all_components(folder_roots@)) is None,
        },
{
    let mut own = paths::path_components(path);
    let ghost target = text::views(own@);
    let ghost roots = all_components(folder_roots@);
    let low: usize = if paths::is_absolute(path) {
        1
    } else {
        0
    };
    assert(target.take(target.len() as int) == target);
    loop
        invariant
            target == paths::components(path@),
            roots == all_components(folder_roots@),
            own@.len() <= target.len(),
            text::views(own@) == target.take(own@.len() as int),
            low == (if paths::rooted(path@) {
                1int
            } else {
                0int
            }),
            root_of(path@, roots) == nearest_root(target, roots, own@.len() as int, low as int),
        decreases own@.len(),
    {
        if own.len() < low {
            return None;
        }
        let mut i: usize = 0;
        while i < folder_roots.len()
            invariant
                i <= folder_roots@.len(),
                roots == all_components(folder_roots@),
                target == paths::components(path@),
                own@.len() <= target.len(),
                own@.len() >= low,
                text::views(own@) == target.take(own@.len() as int),
                root_of(path@, roots) == nearest_root(target, roots, own@.len() as int, low as int),
                forall|k: int| 0 <= k < i ==> #[trigger] roots[k] != text::views(own@),
            decreases folder_roots@.len() - i,
        {
            let root = paths::path_components(folder_roots[i].as_str());
            assert(roots[i as int] == text::views(root@));
            if paths::same_texts(&own, &root) {
                assert(roots.contains(target.take(own@.len() as int)));
                return Some(i);
            }
            i += 1;
        }
        assert(!roots.contains(target.take(own@.len() as int)));
        let ghost shorter = own@.len() - 1;
        match own.pop() {
            Some(_) => {
                assert(text::views(own@) =~= target.take(shorter));
            },
            None => {
                assert(nearest_root(target, roots, -1int, low as int) is None);
                return None;
            },
        }
    }
}

/// Counts the links of each folder; folders without links have no entry.
pub fn existing_link_counts_by_folder(
    folder_roots: &Vec<String>,
    active_links: &Vec<LinkRecord>,
) -> (counts: PathMap<usize>)
    ensures
        counts.wf(),
        counts_fit(counts@, active_links@, all_components(folder_roots@)),
{
    let ghost roots = all_components(folder_roots@);
    let mut counts: PathMap<usize> = PathMap::new();
    let mut i: usize = 0;
    assert(active_links@.take(0) == Seq::<LinkRecord>::empty());
    while i < active_links.len()
        invariant
            i <= active_links@.len(),
            roots == all_components(folder_roots@),
            counts.wf(),
            counts_fit(counts@, active_links@.take(i as int), roots),
        decreases active_links@.len() - i,
    {
        let ghost so_far = active_links@.take(i as int);
        assert(active_links@.take(i + 1).drop_last() == so_far);
        match find_root(active_links[i].target_path.as_str(), folder_roots) {
            Some(k) => {
                let root = folder_roots[k].as_str();
                let ghost key = paths::components(root@);
                proof {
                    lemma_links_below_bound(so_far, roots, key);
                    assert(counts@.contains_key(key) == (links_below(so_far, roots, key) > 0));
                }
                let count: usize = match counts.get(root) {
                    Some(n) => *n,
                    None => 0,
                };
                counts.insert(root, count + 1);
            },
            None => {},
        }
        i += 1;
    }
    assert(active_links@.take(active_links@.len() as int) == active_links@);
    counts
}

// ---------------------------------------------------------------------------
// The plan

/// What a plan is made from: the matches, where their links go, what stands
/// there, which targets are on record, and the active links.
pub struct PlanInputs {
    pub matches: Seq<MatchResult>,
    pub targets: Seq<String>,
    pub seen: Seq<PathState>,
    pub on_record: Map<Seq<Seq<char>>, LinkRecord>,
    pub active_links: Seq<LinkRecord>,
}

impl PlanInputs {
    /// What linking the match at `i` would do.
    pub open spec fn action(&self, i: int) -> Option<DiscoverPlacementAction> {
        action_at(
            self.targets[i]@,
            self.matches[i].source_item.path@,
            self.on_record.contains_key(paths::components(self.targets[i]@)),
            self.seen[i],
        )
    }

    /// The folder of the match at `i`.
    pub open spec fn folder(&self, i: int) -> Seq<Seq<char>> {
        paths::components(self.matches[i].library_item.path@)
    }

    /// Whether linking the match at `i` would do anything in `folder`.
    pub open spec fn acts_in(&self, i: int, folder: Seq<Seq<char>>) -> bool {
        self.action(i) is Some && self.folder(i) == folder
    }

    /// Whether the match at `i` is the first to act in its folder.
    pub open spec fn opens_folder(&self, i: int) -> bool {
        &&& self.action(i) is Some
        &&& forall|j: int| 0 <= j < i ==> !self.acts_in(j, self.folder(i))
    }

    /// The number of actions of a kind that the first `n` matches have in a folder.
    pub open spec fn planned(
        &self,
        n: int,
        folder: Seq<Seq<char>>,
        kind: spec_fn(DiscoverPlacementAction) -> bool,
    ) -> nat
        decreases n,
    {
        if n <= 0 {
            0
        } else {
            self.planned(n - 1, folder, kind) + if self.acts_in(n - 1, folder) && kind(
                self.action(n - 1)->0,
            ) {
                1nat
            } else {
                0nat
            }
        }
    }

    /// The components of the folders of all matches.
    pub open spec fn folders(&self) -> Seq<Seq<Seq<char>>> {
        Seq::new(self.matches.len(), |i: int| self.folder(i))
    }

    /// Whether a placement is the one of the match at `i`.
    pub open spec fn placement_fits(&self, placement: DiscoverPlacement, i: int) -> bool {
        let m = self.matches[i];
        &&& placement.library_name == m.library_item.library_name
        &&& placement.media_id@ == m.library_item.id.spelled()
        &&& placement.title == m.library_item.title
        &&& placement.folder_path == m.library_item.path
        &&& placement.source_path == m.source_item.path
        &&& placement.target_path == self.targets[i]
        &&& placement.source_name@ == (match paths::file_name(m.source_item.path@) {
            Some(name) => name,
            None => ""@,
        })
        &&& self.action(i) == Some(placement.action)
        &&& placement.season == m.source_item.season
        &&& placement.episode == m.source_item.episode
    }

    /// Whether the list holds the placements of the first `n` matches, in order.
    pub open spec fn placements_fit(&self, list: Seq<DiscoverPlacement>, n: int) -> bool
        decreases n,
    {
        if n <= 0 {
            list.len() == 0
        } else if self.action(n - 1) is Some {
            list.len() > 0 && self.placement_fits(list.last(), n - 1) && self.placements_fit(
                list.drop_last(),
                n - 1,
            )
        } else {
            self.placements_fit(list, n - 1)
        }
    }

    /// Whether a folder plan tells what the first `n` matches do in its folder,
    /// named after the match at `i`, the first that acts there.
    pub open spec fn folder_fits(&self, plan: DiscoverFolderPlan, i: int, n: int) -> bool {
        let item = self.matches[i].library_item;
        let folder = self.folder(i);
        &&& 0 <= i < n
        &&& self.opens_folder(i)
        &&& plan.library_name == item.library_name
        &&& plan.media_id@ == item.id.spelled()
        &&& plan.title == item.title
        &&& plan.folder_path == item.path
        &&& plan.existing_links == links_below(self.active_links, self.folders(), folder)
        &&& plan.planned_creates == self.planned(
            n,
            folder,
            |a: DiscoverPlacementAction| is_create(a),
        )
        &&& plan.planned_updates == self.planned(
            n,
            folder,
            |a: DiscoverPlacementAction| is_update(a),
        )
        &&& plan.blocked == self.planned(n, folder, |a: DiscoverPlacementAction| a.blocked())
    }

    /// Whether a folder plan tells what the first `n` matches do in its folder.
    pub open spec fn tells_of(&self, plan: DiscoverFolderPlan, n: int) -> bool {
        exists|i: int| #[trigger] self.folder_fits(plan, i, n)
    }

    /// Whether the list holds a folder plan for each folder in which one of the
    /// first `n` matches acts, and each folder once.
    pub open spec fn folders_fit(&self, list: Seq<DiscoverFolderPlan>, n: int) -> bool {
        &&& forall|k: int|
            #![trigger list[k]]
            0 <= k < list.len() ==> self.tells_of(list[k], n)
        &&& forall|i: int|
            #![trigger self.action(i)]
            0 <= i < n && self.action(i) is Some ==> lists_folder(list, self.folder(i))
        &&& forall|k: int, l: int|
            #![trigger list[k], list[l]]
            0 <= k < l < list.len() ==> !paths::same(list[k].folder_path@, list[l].folder_path@)
    }

    proof fn lemma_planned_bound(
        &self,
        n: int,
        folder: Seq<Seq<char>>,
        kind: spec_fn(DiscoverPlacementAction) -> bool,
    )
        requires
            0 <= n,
        ensures
            self.planned(n, folder, kind) <= n,
        decreases n,
    {
        if n > 0 {
            self.lemma_planned_bound(n - 1, folder, kind);
        }
    }

    proof fn lemma_nothing_planned(
        &self,
        n: int,
        folder: Seq<Seq<char>>,
        kind: spec_fn(DiscoverPlacementAction) -> bool,
    )
        requires
            forall|j: int| 0 <= j < n ==> !self.acts_in(j, folder),
        ensures
            self.planned(n, folder, kind) == 0,
        decreases n,
    {
        if n > 0 {
            self.lemma_nothing_planned(n - 1, folder, kind);
        }
    }
}

/// Whether the list has a plan for the folder.
pub open spec fn lists_folder(list: Seq<DiscoverFolderPlan>, folder: Seq<Seq<char>>) -> bool {
    exists|k: int| 0 <= k < list.len() && paths::components((#[trigger] list[k]).folder_path@) == folder
}

/// Plans what linking matches would do.
#[derive(Debug, Clone, Copy)]
pub struct Discovery;

fn find_folder(list: &Vec<DiscoverFolderPlan>, path: &str) -> (at: usize)
    ensures
        at <= list@.len(),
        at < list@.len() ==> paths::same(list@[at as int].folder_path@, path@),
        at == list@.len() ==> !lists_folder(list@, paths::components(path@)),
{
    let mut at: usize = 0;
    while at < list.len() && !paths::same_path(list[at].folder_path.as_str(), path)
        invariant
            at <= list@.len(),
            forall|k: int|
                0 <= k < at ==> !paths::same((#[trigger] list@[k]).folder_path@, path@),
        decreases list@.len() - at,
    {
        at += 1;
    }
    at
}

fn folder_paths(matches: &Vec<MatchResult>) -> (out: Vec<String>)
    ensures
        all_components(out@) == Seq::new(
            matches@.len(),
            |i: int| paths::components(matches@[i].library_item.path@),
        ),
{
    let mut out: Vec<String> = Vec::new();
    let mut i: usize = 0;
    while i < matches.len()
        invariant
            i <= matches@.len(),
            out@.len() == i,
            forall|k: int| 0 <= k < i ==> (#[trigger] out@[k])@ == matches@[k].library_item.path@,
        decreases matches@.len() - i,
    {
        out.push(matches[i].library_item.path.clone());
        i += 1;
    }
    assert(all_components(out@) =~= Seq::new(
        matches@.len(),
        |i: int| paths::components(matches@[i].library_item.path@),
    ));
    out
}

/// Where the links of matches go; the first match without a target ends it.
pub fn target_paths(linker: &Linker, matches: &Vec<MatchResult>) -> (out: Result<
    Vec<String>,
    TargetPathError,
>)
    ensures
        match out {
            Ok(list) => list@.len() == matches@.len() && forall|i: int|
                #![trigger list@[i]]
                0 <= i < list@.len() ==> linker.target_path(matches@[i]) == Ok::<
                    Seq<char>,
                    TargetPathError,
                >(list@[i]@),
            Err(e) => exists|i: int|
                #![trigger matches@[i]]
                0 <= i < matches@.len() && linker.target_path(matches@[i]) == Err::<
                    Seq<char>,
                    TargetPathError,
                >(e) && forall|j: int| 0 <= j < i ==> linker.target_path(#[trigger] matches@[j]) is Ok,
        },
{
    let mut list: Vec<String> = Vec::new();
    let mut i: usize = 0;
    while i < matches.len()
        invariant
            i <= matches@.len(),
            list@.len() == i,
            forall|k: int|
                #![trigger list@[k]]
                0 <= k < i ==> linker.target_path(matches@[k]) == Ok::<Seq<char>, TargetPathError>(
                    list@[k]@,
                ),
        decreases matches@.len() - i,
    {
        match linker.build_target_path(&matches[i]) {
            Ok(path) => {
                list.push(path);
            },
            Err(e) => {
                assert forall|j: int| 0 <= j < i implies linker.target_path(
                    #[trigger] matches@[j],
                ) is Ok by {
                    assert(linker.target_path(matches@[j]) == Ok::<Seq<char>, TargetPathError>(
                        list@[j]@,
                    ));
                }
                assert(linker.target_path(matches@[i as int]) == Err::<Seq<char>, TargetPathError>(
                    e,
                ));
                return Err(e);
            },
        }
        i += 1;
    }
    Ok(list)
}

/// Whether a path is one of the roots.
pub open spec fn is_root(roots: Seq<Seq<char>>, path: Seq<char>) -> bool {
    exists|i: int| 0 <= i < roots.len() && paths::same(#[trigger] roots[i], path)
}

/// The library folders of the matches, each once, in the order in which they come first.
pub open spec fn roots_of(matches: Seq<MatchResult>) -> Seq<Seq<char>>
    decreases matches.len(),
{
    if matches.len() == 0 {
        Seq::<Seq<char>>::empty()
    } else {
        let before = roots_of(matches.drop_last());
        let path = matches.last().library_item.path@;
        if is_root(before, path) {
            before
        } else {
            before.push(path)
        }
    }
}

fn lists_root(roots: &Vec<String>, path: &str) -> (b: bool)
    ensures
        b == is_root(text::views(roots@), path@),
{
    let mut i: usize = 0;
    while i < roots.len()
        invariant
            i <= roots@.len(),
            forall|k: int| 0 <= k < i ==> !paths::same(#[trigger] text::views(roots@)[k], path@),
        decreases roots@.len() - i,
    {
        assert(text::views(roots@)[i as int] == roots@[i as int]@);
        if paths::same_path(roots[i].as_str(), path) {
            return true;
        }
        i += 1;
    }
    false
}

/// The library folders of the matches, each once: those whose links a plan counts.
pub fn folder_roots(matches: &Vec<MatchResult>) -> (out: Vec<String>)
    ensures
        text::views(out@) == roots_of(matches@),
{
    let mut out: Vec<String> = Vec::new();
    let mut i: usize = 0;
    assert(matches@.take(0) =~= Seq::<MatchResult>::empty());
    assert(text::views(out@) =~= Seq::<Seq<char>>::empty());
    while i < matches.len()
        invariant
            i <= matches@.len(),
            text::views(out@) == roots_of(matches@.take(i as int)),
        decreases matches@.len() - i,
    {
        assert(matches@.take(i + 1).drop_last() =~= matches@.take(i as int));
        if !lists_root(&out, matches[i].library_item.path.as_str()) {
            text::push_text(&mut out, matches[i].library_item.path.clone());
        }
        i += 1;
    }
    assert(matches@.take(i as int) =~= matches@);
    out
}

impl Discovery {
    /// A planner.
    pub fn new() -> (out: Self)
        ensures
            out == Discovery,
    {
        Discovery
    }

    /// Plans what linking the matches would do: a placement for each match for
    /// which there is something to do, ordered by library, title, number and
    /// source; and a plan for each folder, ordered by library, title and path.
    pub fn build_link_plan(
        &self,
        matches: &Vec<MatchResult>,
        targets: &Vec<String>,
        seen: &Vec<PathState>,
        existing: &PathMap<LinkRecord>,
        active_links: &Vec<LinkRecord>,
    ) -> (plan: DiscoverPlan)
        requires
            targets@.len() == matches@.len(),
            seen@.len() == matches@.len(),
            existing.wf(),
        ensures
            ({
                let inputs = PlanInputs {
                    matches: matches@,
                    targets: targets@,
                    seen: seen@,
                    on_record: existing@,
                    active_links: active_links@,
                };
                &&& exists|list: Seq<DiscoverPlacement>| #[trigger]
                    inputs.placements_fit(list, matches@.len() as int) && plan.placements@
                        == order::ranked(list)
                &&& inputs.folders_fit(plan.folders@, matches@.len() as int)
                &&& order::in_rank_order(plan.folders@)
            }),
    {
        let ghost inputs = PlanInputs {
            matches: matches@,
            targets: targets@,
            seen: seen@,
            on_record: existing@,
            active_links: active_links@,
        };
        let roots = folder_paths(matches);
        let counts = existing_link_counts_by_folder(&roots, active_links);
        assert(all_components(roots@) =~= inputs.folders());
        let mut placements: Vec<DiscoverPlacement> = Vec::new();
        let mut folders: Vec<DiscoverFolderPlan> = Vec::new();
        let mut i: usize = 0;
        while i < matches.len()
            invariant
                i <= matches@.len(),
                targets@.len() == matches@.len(),
                seen@.len() == matches@.len(),
                existing.wf(),
                counts.wf(),
                inputs == (PlanInputs {
                    matches: matches@,
                    targets: targets@,
                    seen: seen@,
                    on_record: existing@,
                    active_links: active_links@,
                }),
                counts_fit(counts@, active_links@, inputs.folders()),
                inputs.placements_fit(placements@, i as int),
                inputs.folders_fit(folders@, i as int),
            decreases matches@.len() - i,
        {
            let m = &matches[i];
            let on_record = existing.get(targets[i].as_str()).is_some();
            let action = classify_target_path(
                targets[i].as_str(),
                m.source_item.path.as_str(),
                on_record,
                &seen[i],
            );
            assert(action == inputs.action(i as int));
            match action {
                None => {
                    proof {
                        lemma_idle_match(inputs, folders@, i as int);
                    }
                },
                Some(act) => {
                    let ghost old_placements = placements@;
                    let source_name = match paths::file_name_of(m.source_item.path.as_str()) {
                        Some(name) => name,
                        None => "".to_owned(),
                    };
                    placements.push(
                        DiscoverPlacement {
                            library_name: m.library_item.library_name.clone(),
                            media_id: m.library_item.id.label(),
                            title: m.library_item.title.clone(),
                            folder_path: m.library_item.path.clone(),
                            source_path: m.source_item.path.clone(),
                            target_path: targets[i].clone(),
                            source_name,
                            action: act,
                            season: m.source_item.season,
                            episode: m.source_item.episode,
                        },
                    );
                    assert(placements@.drop_last() == old_placements);
                    add_to_folder(&mut folders, m, act, &counts, Ghost(inputs), Ghost(i as int));
                },
            }
            i += 1;
        }
        let ghost listed = placements@;
        let ghost unsorted = folders@;
        let placements = order::sort_ranked(placements);
        let folders = order::sort_ranked(folders);
        proof {
            order::lemma_ranked(unsorted);
            lemma_folders_reordered(inputs, unsorted, folders@, matches@.len() as int);
            assert(inputs.placements_fit(listed, matches@.len() as int));
        }
        DiscoverPlan { folders, placements }
    }
}

/// The parts of the line of a folder in a report.
pub open spec fn folder_line(folder: DiscoverFolderPlan) -> Seq<Seq<char>> {
    seq![
        "  - "@,
        folder.title@,
        " ["@,
        folder.media_id@,
        "] existing="@,
        text::decimal(folder.existing_links as nat),
        " create="@,
        text::decimal(folder.planned_creates as nat),
        " update="@,
        text::decimal(folder.planned_updates as nat),
        " blocked="@,
        text::decimal(folder.blocked as nat),
        " :: "@,
        folder.folder_path@,
    ]
}

fn write_folder_line(folder: &DiscoverFolderPlan) -> (line: String)
    ensures
        line@ == text::glued(folder_line(*folder)),
{
    let existing = text::decimal_text(folder.existing_links as u64);
    let creates = text::decimal_text(folder.planned_creates as u64);
    let updates = text::decimal_text(folder.planned_updates as u64);
    let blocked = text::decimal_text(folder.blocked as u64);
    let parts: [&str; 14] = [
        "  - ",
        folder.title.as_str(),
        " [",
        folder.media_id.as_str(),
        "] existing=",
        existing.as_str(),
        " create=",
        creates.as_str(),
        " update=",
        updates.as_str(),
        " blocked=",
        blocked.as_str(),
        " :: ",
        folder.folder_path.as_str(),
    ];
    assert(text::strs(parts@) =~= folder_line(*folder));
    text::glue(&parts)
}

/// The parts of the line of a placement in a report.
pub open spec fn placement_line(placement: DiscoverPlacement) -> Seq<Seq<char>> {
    seq![
        "  - ["@,
        placement.action.name(),
        "] "@,
        placement.source_path@,
        " -> "@,
        placement.target_path@,
    ]
}

/// The parts of the first line of a report.
pub open spec fn summary_line(plan: DiscoverPlan) -> Seq<Seq<char>> {
    seq![
        "\n📦 "@,
        text::decimal(plan.placements@.len()),
        " placement(s) across "@,
        text::decimal(plan.folders@.len()),
        " folder(s): create="@,
        text::decimal(
            placements_of(plan.placements@, |a: DiscoverPlacementAction| is_create(a)),
        ),
        ", update="@,
        text::decimal(
            placements_of(plan.placements@, |a: DiscoverPlacementAction| is_update(a)),
        ),
        ", blocked="@,
        text::decimal(
            placements_of(plan.placements@, |a: DiscoverPlacementAction| a.blocked()),
        ),
        "\n"@,
    ]
}

/// The lines of a report on a plan.
pub open spec fn report_lines(plan: DiscoverPlan) -> Seq<Seq<char>> {
    if plan.placements@.len() == 0 {
        seq!["✅ No discoverable placements found for underlinked library folders."@]
    } else {
        seq![text::glued(summary_line(plan)), "Folder summary:"@]
            + plan.folders@.map_values(|folder: DiscoverFolderPlan| text::glued(folder_line(folder)))
            + seq!["\nPlacement report:"@] + plan.placements@.map_values(
            |placement: DiscoverPlacement| text::glued(placement_line(placement)),
        )
    }
}

fn write_placement_line(placement: &DiscoverPlacement) -> (line: String)
    ensures
        line@ == text::glued(placement_line(*placement)),
{
    let parts: [&str; 6] = [
        "  - [",
        placement.action.as_str(),
        "] ",
        placement.source_path.as_str(),
        " -> ",
        placement.target_path.as_str(),
    ];
    assert(text::strs(parts@) =~= placement_line(*placement));
    text::glue(&parts)
}

fn write_summary_line(plan: &DiscoverPlan) -> (line: String)
    ensures
        line@ == text::glued(summary_line(*plan)),
{
    let summary = plan.summary();
    let placements = text::decimal_text(summary.placements as u64);
    let folders = text::decimal_text(summary.folders as u64);
    let creates = text::decimal_text(summary.creates as u64);
    let updates = text::decimal_text(summary.updates as u64);
    let blocked = text::decimal_text(summary.blocked as u64);
    let parts: [&str; 11] = [
        "\n📦 ",
        placements.as_str(),
        " placement(s) across ",
        folders.as_str(),
        " folder(s): create=",
        creates.as_str(),
        ", update=",
        updates.as_str(),
        ", blocked=",
        blocked.as_str(),
        "\n",
    ];
    assert(text::strs(parts@) =~= summary_line(*plan));
    text::glue(&parts)
}

impl Discovery {
    /// The lines to print of a plan.
    pub fn print_summary(plan: &DiscoverPlan) -> (lines: Vec<String>)
        ensures
            text::views(lines@) == report_lines(*plan),
    {
        let mut lines: Vec<String> = Vec::new();
        if plan.placements.len() == 0 {
            lines.push(
                "✅ No discoverable placements found for underlinked library folders.".to_owned(),
            );
            assert(text::views(lines@) =~= report_lines(*plan));
            return lines;
        }
        lines.push(write_summary_line(plan));
        lines.push("Folder summary:".to_owned());
        let ghost head = text::views(lines@);
        assert(head =~= seq![text::glued(summary_line(*plan)), "Folder summary:"@]);
        let ghost middle = plan.folders@.map_values(
            |folder: DiscoverFolderPlan| text::glued(folder_line(folder)),
        );
        let mut i: usize = 0;
        while i < plan.folders.len()
            invariant
                i <= plan.folders@.len(),
                middle == plan.folders@.map_values(
                    |folder: DiscoverFolderPlan| text::glued(folder_line(folder)),
                ),
                text::views(lines@) == head + middle.take(i as int),
            decreases plan.folders@.len() - i,
        {
            text::push_text(&mut lines, write_folder_line(&plan.folders[i]));
            assert(text::views(lines@) =~= head + middle.take(i + 1));
            i += 1;
        }
        assert(middle.take(i as int) =~= middle);
        text::push_text(&mut lines, "\nPlacement report:".to_owned());
        let ghost tail = plan.placements@.map_values(
            |placement: DiscoverPlacement| text::glued(placement_line(placement)),
        );
        let ghost begun = text::views(lines@);
        assert(begun =~= head + middle + seq!["\nPlacement report:"@]);
        let mut j: usize = 0;
        while j < plan.placements.len()
            invariant
                j <= plan.placements@.len(),
                tail == plan.placements@.map_values(
                    |placement: DiscoverPlacement| text::glued(placement_line(placement)),
                ),
                text::views(lines@) == begun + tail.take(j as int),
            decreases plan.placements@.len() - j,
        {
            text::push_text(&mut lines, write_placement_line(&plan.placements[j]));
            assert(text::views(lines@) =~= begun + tail.take(j + 1));
            j += 1;
        }
        assert(tail.take(j as int) =~= tail);
        lines
    }
}

/// A match that does nothing leaves the folder plans as they are.
proof fn lemma_idle_match(inputs: PlanInputs, list: Seq<DiscoverFolderPlan>, n: int)
    requires
        0 <= n,
        inputs.folders_fit(list, n),
        inputs.action(n) is None,
    ensures
        inputs.folders_fit(list, n + 1),
{
    assert forall|k: int|
        #![trigger list[k]]
        0 <= k < list.len() implies inputs.tells_of(list[k], n + 1) by {
        assert(inputs.tells_of(list[k], n));
        let i = choose|i: int| #[trigger] inputs.folder_fits(list[k], i, n);
        assert(inputs.folder_fits(list[k], i, n + 1));
    }
    assert forall|i: int|
        #![trigger inputs.action(i)]
        0 <= i < n + 1 && inputs.action(i) is Some implies lists_folder(
        list,
        inputs.folder(i),
    ) by {
        assert(i < n);
    }
}

/// Folder plans fit in any order.
proof fn lemma_folders_reordered(
    inputs: PlanInputs,
    list: Seq<DiscoverFolderPlan>,
    other: Seq<DiscoverFolderPlan>,
    n: int,
)
    requires
        inputs.folders_fit(list, n),
        other.to_multiset() == list.to_multiset(),
        other.len() == list.len(),
    ensures
        inputs.folders_fit(other, n),
{
    list.to_multiset_ensures();
    other.to_multiset_ensures();
    assert forall|k: int|
        #![trigger other[k]]
        0 <= k < other.len() implies inputs.tells_of(other[k], n) by {
        assert(other.contains(other[k]));
        assert(other.to_multiset().contains(other[k]));
        assert(list.contains(other[k]));
        let l = choose|l: int| 0 <= l < list.len() && list[l] == other[k];
        assert(inputs.tells_of(list[l], n));
    }
    assert forall|i: int|
        #![trigger inputs.action(i)]
        0 <= i < n && inputs.action(i) is Some implies lists_folder(other, inputs.folder(i)) by {
        assert(lists_folder(list, inputs.folder(i)));
        let k = choose|k: int|
            0 <= k < list.len() && paths::components((#[trigger] list[k]).folder_path@)
                == inputs.folder(i);
        assert(list.contains(list[k]));
        assert(list.to_multiset().contains(list[k]));
        assert(other.contains(list[k]));
        let l = choose|l: int| 0 <= l < other.len() && other[l] == list[k];
        assert(paths::components(other[l].folder_path@) == inputs.folder(i));
    }
    assert forall|k: int, l: int|
        #![trigger other[k], other[l]]
        0 <= k < l < other.len() implies !paths::same(
        other[k].folder_path@,
        other[l].folder_path@,
    ) by {
        order::lemma_apart_in_any_order(
            list,
            other,
            |x: DiscoverFolderPlan, y: DiscoverFolderPlan|
                !paths::same(x.folder_path@, y.folder_path@),
            k,
            l,
        );
    }
}

/// Counts an action in the plan of its folder, which it opens if need be.
fn add_to_folder(
    folders: &mut Vec<DiscoverFolderPlan>,
    m: &MatchResult,
    action: DiscoverPlacementAction,
    counts: &PathMap<usize>,
    Ghost(inputs): Ghost<PlanInputs>,
    Ghost(n): Ghost<int>,
)
    requires
        0 <= n < inputs.matches.len(),
        n < usize::MAX,
        inputs.matches[n] == *m,
        inputs.action(n) == Some(action),
        counts.wf(),
        counts_fit(counts@, inputs.active_links, inputs.folders()),
        inputs.folders_fit(old(folders)@, n),
    ensures
        inputs.folders_fit(final(folders)@, n + 1),
{
    let ghost before = folders@;
    let ghost folder = inputs.folder(n);
    let at = find_folder(folders, m.library_item.path.as_str());
    if at == folders.len() {
        let existing: usize = match counts.get(m.library_item.path.as_str()) {
            Some(c) => *c,
            None => 0,
        };
        folders.push(
            DiscoverFolderPlan {
                library_name: m.library_item.library_name.clone(),
                media_id: m.library_item.id.label(),
                title: m.library_item.title.clone(),
                folder_path: m.library_item.path.clone(),
                existing_links: existing,
                planned_creates: 0,
                planned_updates: 0,
                blocked: 0,
            },
        );
        proof {
            assert forall|j: int| 0 <= j < n implies !inputs.acts_in(j, folder) by {
                if inputs.acts_in(j, folder) {
                    assert(inputs.action(j) is Some);
                    assert(lists_folder(before, folder));
                }
            }
            inputs.lemma_nothing_planned(n, folder, |a: DiscoverPlacementAction| is_create(a));
            inputs.lemma_nothing_planned(n, folder, |a: DiscoverPlacementAction| is_update(a));
            inputs.lemma_nothing_planned(n, folder, |a: DiscoverPlacementAction| a.blocked());
            assert(counts@.contains_key(folder) == (links_below(
                inputs.active_links,
                inputs.folders(),
                folder,
            ) > 0));
            assert(inputs.opens_folder(n));
        }
    }
    let ghost opened = folders@;
    let ghost first = if at < before.len() {
        choose|i: int| #[trigger] inputs.folder_fits(before[at as int], i, n)
    } else {
        n
    };
    proof {
        if at < before.len() {
            assert(inputs.tells_of(before[at as int], n));
            assert(inputs.folder(first) == folder);
        }
        inputs.lemma_planned_bound(n, folder, |a: DiscoverPlacementAction| is_create(a));
        inputs.lemma_planned_bound(n, folder, |a: DiscoverPlacementAction| is_update(a));
        inputs.lemma_planned_bound(n, folder, |a: DiscoverPlacementAction| a.blocked());
        assert(opened[at as int].planned_creates == inputs.planned(
            n,
            folder,
            |a: DiscoverPlacementAction| is_create(a),
        ));
        assert(opened[at as int].planned_updates == inputs.planned(
            n,
            folder,
            |a: DiscoverPlacementAction| is_update(a),
        ));
        assert(opened[at as int].blocked == inputs.planned(
            n,
            folder,
            |a: DiscoverPlacementAction| a.blocked(),
        ));
    }
    match action {
        DiscoverPlacementAction::Create => {
            folders[at].planned_creates = folders[at].planned_creates + 1;
        },
        DiscoverPlacementAction::Update => {
            folders[at].planned_updates = folders[at].planned_updates + 1;
        },
        _ => {
            folders[at].blocked = folders[at].blocked + 1;
        },
    }
    proof {
        let list = folders@;
        assert(list.len() == opened.len());
        assert(forall|k: int| 0 <= k < list.len() && k != at ==> #[trigger] list[k] == opened[k]);
        assert(list[at as int].folder_path == opened[at as int].folder_path);
        assert(inputs.folder_fits(list[at as int], first, n + 1));
        assert forall|k: int|
            #![trigger list[k]]
            0 <= k < list.len() implies inputs.tells_of(list[k], n + 1) by {
            if k != at {
                assert(list[k] == before[k]);
                assert(inputs.tells_of(before[k], n));
                let i = choose|i: int| #[trigger] inputs.folder_fits(before[k], i, n);
                assert(inputs.folder(i) == paths::components(before[k].folder_path@));
                assert(inputs.folder(i) != folder) by {
                    if at < before.len() {
                        if k < at {
                            assert(!paths::same(
                                before[k].folder_path@,
                                before[at as int].folder_path@,
                            ));
                        } else {
                            assert(!paths::same(
                                before[at as int].folder_path@,
                                before[k].folder_path@,
                            ));
                        }
                    } else {
                        assert(!lists_folder(before, folder));
                    }
                }
                assert(inputs.folder_fits(list[k], i, n + 1));
            }
        }
        assert forall|i: int|
            #![trigger inputs.action(i)]
            0 <= i < n + 1 && inputs.action(i) is Some implies lists_folder(
            list,
            inputs.folder(i),
        ) by {
            if i < n {
                assert(lists_folder(before, inputs.folder(i)));
                let k = choose|k: int|
                    0 <= k < before.len() && paths::components((#[trigger] before[k]).folder_path@)
                        == inputs.folder(i);
                assert(list[k].folder_path == before[k].folder_path);
            } else {
                assert(paths::components(list[at as int].folder_path@) == inputs.folder(i));
            }
        }
        assert forall|k: int, l: int|
            #![trigger list[k], list[l]]
            0 <= k < l < list.len() implies !paths::same(
            list[k].folder_path@,
            list[l].folder_path@,
        ) by {
            assert(list[k].folder_path == opened[k].folder_path);
            assert(list[l].folder_path == opened[l].folder_path);
            if l < before.len() {
                assert(opened[k] == before[k] && opened[l] == before[l]);
            } else {
                assert(!lists_folder(before, folder));
                assert(opened[k] == before[k]);
            }
        }
    }
}

/// A plan and the linker agree: where the targets are those that the linker
/// names, each placement is that of a match, from its source to the target at
/// which the linker would put its link.
pub proof fn lemma_plan_follows_linker(
    inputs: PlanInputs,
    linker: Linker,
    list: Seq<DiscoverPlacement>,
    n: int,
    k: int,
) -> (i: int)
    requires
        0 <= n <= inputs.matches.len(),
        inputs.placements_fit(list, n),
        0 <= k < list.len(),
        forall|j: int|
            #![trigger inputs.targets[j]]
            0 <= j < n ==> linker.target_path(inputs.matches[j]) == Ok::<
                Seq<char>,
                TargetPathError,
            >(inputs.targets[j]@),
    ensures
        0 <= i < n,
        inputs.placement_fits(list[k], i),
        linker.target_path(inputs.matches[i]) == Ok::<Seq<char>, TargetPathError>(
            list[k].target_path@,
        ),
        list[k].source_path == inputs.matches[i].source_item.path,
    decreases n,
{
    if inputs.action(n - 1) is Some {
        if k == list.len() - 1 {
            assert(inputs.targets[n - 1]@ == list[k].target_path@);
            n - 1
        } else {
            lemma_plan_follows_linker(inputs, linker, list.drop_last(), n - 1, k)
        }
    } else {
        lemma_plan_follows_linker(inputs, linker, list, n - 1, k)
    }
}

/// Whether what stands at a target is a link that leads to the source.
pub open spec fn leads_to(seen: PathState, target: Seq<char>, source: Seq<char>) -> bool {
    match seen {
        PathState::Symlink(Ok(held)) => paths::same(
            paths::link_destination(target, held@),
            source,
        ),
        _ => false,
    }
}

/// Once every target is a link that leads to its source, nothing is left to plan.
pub proof fn lemma_linked_matches_are_done(
    inputs: PlanInputs,
    list: Seq<DiscoverPlacement>,
    n: int,
)
    requires
        0 <= n <= inputs.matches.len(),
        inputs.placements_fit(list, n),
        forall|j: int|
            #![trigger inputs.targets[j]]
            0 <= j < n ==> leads_to(
                inputs.seen[j],
                inputs.targets[j]@,
                inputs.matches[j].source_item.path@,
            ),
    ensures
        list.len() == 0,
    decreases n,
{
    if n > 0 {
        assert(leads_to(
            inputs.seen[n - 1],
            inputs.targets[n - 1]@,
            inputs.matches[n - 1].source_item.path@,
        ));
        lemma_linked_matches_are_done(inputs, list, n - 1);
    }
}

// ---------------------------------------------------------------------------
// What was seen decides what is planned

/// What linking would do is told by what stands at the target: nothing only where a symlink
/// stands there that leads to the source or cannot be read; a creation where nothing stands
/// there and nothing is on record; an update where a link is on record but missing, or leads
/// elsewhere; and what is no symlink is in the way.
pub proof fn lemma_what_stands_decides(
    target: Seq<char>,
    source: Seq<char>,
    on_record: bool,
    seen: PathState,
)
    ensures
        ({
            let action = action_at(target, source, on_record, seen);
            let elsewhere = seen matches PathState::Symlink(Ok(held)) && paths::components(
                paths::link_destination(target, held@),
            ) != paths::components(source);
            &&& action is None <==> seen is Symlink && !elsewhere
            &&& action == Some(DiscoverPlacementAction::Create) <==> seen is Absent && !on_record
            &&& action == Some(DiscoverPlacementAction::Update) <==> seen is Absent && on_record
                || elsewhere
            &&& action == Some(DiscoverPlacementAction::BlockedRegularFile) <==> seen is File
            &&& action == Some(DiscoverPlacementAction::BlockedDirectory) <==> seen is Directory
        }),
{
}

/// A match is left out of a plan only where a symlink stands at its target that leads to its
/// source or cannot be read; every other has a placement, from its source to its target, in
/// its folder, with its numbers, and with the action that what stands there calls for.
pub proof fn lemma_open_matches_are_placed(
    inputs: PlanInputs,
    list: Seq<DiscoverPlacement>,
    n: int,
    i: int,
) -> (k: int)
    requires
        0 <= i < n <= inputs.matches.len(),
        inputs.placements_fit(list, n),
        !(inputs.seen[i] matches PathState::Symlink(Err(_))),
        !leads_to(inputs.seen[i], inputs.targets[i]@, inputs.matches[i].source_item.path@),
    ensures
        0 <= k < list.len(),
        list[k].source_path == inputs.matches[i].source_item.path,
        list[k].target_path == inputs.targets[i],
        list[k].folder_path == inputs.matches[i].library_item.path,
        list[k].title == inputs.matches[i].library_item.title,
        list[k].library_name == inputs.matches[i].library_item.library_name,
        list[k].media_id@ == inputs.matches[i].library_item.id.spelled(),
        list[k].season == inputs.matches[i].source_item.season,
        list[k].episode == inputs.matches[i].source_item.episode,
        inputs.seen[i] is Absent ==> list[k].action == (if inputs.on_record.contains_key(
            paths::components(inputs.targets[i]@),
        ) {
            DiscoverPlacementAction::Update
        } else {
            DiscoverPlacementAction::Create
        }),
        inputs.seen[i] is Symlink ==> list[k].action == DiscoverPlacementAction::Update,
        inputs.seen[i] is File ==> list[k].action == DiscoverPlacementAction::BlockedRegularFile,
        inputs.seen[i] is Directory ==> list[k].action == DiscoverPlacementAction::BlockedDirectory,
    decreases n,
{
    if i == n - 1 {
        assert(inputs.action(i) is Some);
        assert(inputs.placement_fits(list.last(), i));
        list.len() - 1
    } else if inputs.action(n - 1) is Some {
        let k = lemma_open_matches_are_placed(inputs, list.drop_last(), n - 1, i);
        assert(list.drop_last()[k] == list[k]);
        k
    } else {
        lemma_open_matches_are_placed(inputs, list, n - 1, i)
    }
}

/// No match is planned twice, and none more: a plan has at most one placement for each
/// match, and exactly one for each where no target is a symlink.
pub proof fn lemma_matches_are_placed_once(
    inputs: PlanInputs,
    list: Seq<DiscoverPlacement>,
    n: int,
)
    requires
        0 <= n <= inputs.matches.len(),
        inputs.placements_fit(list, n),
    ensures
        list.len() <= n,
        (forall|i: int| #![trigger inputs.seen[i]] 0 <= i < n ==> !(inputs.seen[i] is Symlink))
            ==> list.len() == n,
    decreases n,
{
    if n > 0 {
        if inputs.action(n - 1) is Some {
            lemma_matches_are_placed_once(inputs, list.drop_last(), n - 1);
        } else {
            assert(inputs.seen[n - 1] is Symlink);
            lemma_matches_are_placed_once(inputs, list, n - 1);
        }
    }
}

/// The number of placements in a folder with an action of a kind.
pub open spec fn placed_in(
    list: Seq<DiscoverPlacement>,
    folder: Seq<Seq<char>>,
    kind: spec_fn(DiscoverPlacementAction) -> bool,
) -> nat
    decreases list.len(),
{
    if list.len() == 0 {
        0
    } else {
        placed_in(list.drop_last(), folder, kind) + if paths::components(list.last().folder_path@)
            == folder && kind(list.last().action) {
            1nat
        } else {
            0nat
        }
    }
}

/// The plan of a folder and the placements agree: what is planned for a folder is the
/// number of the placements there.
pub proof fn lemma_folders_count_placements(
    inputs: PlanInputs,
    list: Seq<DiscoverPlacement>,
    n: int,
    folder: Seq<Seq<char>>,
    kind: spec_fn(DiscoverPlacementAction) -> bool,
)
    requires
        0 <= n <= inputs.matches.len(),
        inputs.placements_fit(list, n),
    ensures
        inputs.planned(n, folder, kind) == placed_in(list, folder, kind),
    decreases n,
{
    if n > 0 {
        if inputs.action(n - 1) is Some {
            lemma_folders_count_placements(inputs, list.drop_last(), n - 1, folder, kind);
        } else {
            lemma_folders_count_placements(inputs, list, n - 1, folder, kind);
        }
    }
}

/// The plan of a folder tells of its creations, its updates and what is blocked there.
pub proof fn lemma_folder_plans_tell(
    inputs: PlanInputs,
    list: Seq<DiscoverPlacement>,
    n: int,
    plan: DiscoverFolderPlan,
)
    requires
        0 <= n <= inputs.matches.len(),
        inputs.placements_fit(list, n),
        inputs.tells_of(plan, n),
    ensures
        plan.planned_creates == placed_in(
            list,
            paths::components(plan.folder_path@),
            |a: DiscoverPlacementAction| a == DiscoverPlacementAction::Create,
        ),
        plan.planned_updates == placed_in(
            list,
            paths::components(plan.folder_path@),
            |a: DiscoverPlacementAction| a == DiscoverPlacementAction::Update,
        ),
        plan.blocked == placed_in(
            list,
            paths::components(plan.folder_path@),
            |a: DiscoverPlacementAction|
                a == DiscoverPlacementAction::BlockedRegularFile || a
                    == DiscoverPlacementAction::BlockedDirectory,
        ),
        plan.existing_links == links_below(
            inputs.active_links,
            inputs.folders(),
            paths::components(plan.folder_path@),
        ),
{
    let i = choose|i: int| #[trigger] inputs.folder_fits(plan, i, n);
    let folder = inputs.folder(i);
    let create = |a: DiscoverPlacementAction| a == DiscoverPlacementAction::Create;
    let update = |a: DiscoverPlacementAction| a == DiscoverPlacementAction::Update;
    let blocked = |a: DiscoverPlacementAction|
        a == DiscoverPlacementAction::BlockedRegularFile || a
            == DiscoverPlacementAction::BlockedDirectory;
    assert(create =~= (|a: DiscoverPlacementAction| is_create(a)));
    assert(update =~= (|a: DiscoverPlacementAction| is_update(a)));
    assert(blocked =~= (|a: DiscoverPlacementAction| a.blocked()));
    lemma_folders_count_placements(inputs, list, n, folder, create);
    lemma_folders_count_placements(inputs, list, n, folder, update);
    lemma_folders_count_placements(inputs, list, n, folder, blocked);
}

/// One placement more is counted once, under its own action.
pub proof fn lemma_one_placement_more(list: Seq<DiscoverPlacement>, placement: DiscoverPlacement)
    ensures
        placements_of(list.push(placement), |a: DiscoverPlacementAction| is_create(a))
            - placements_of(list, |a: DiscoverPlacementAction| is_create(a)) == (
        if placement.action == DiscoverPlacementAction::Create {
            1int
        } else {
            0
        }),
        placements_of(list.push(placement), |a: DiscoverPlacementAction| is_update(a))
            - placements_of(list, |a: DiscoverPlacementAction| is_update(a)) == (
        if placement.action == DiscoverPlacementAction::Update {
            1int
        } else {
            0
        }),
        placements_of(list.push(placement), |a: DiscoverPlacementAction| a.blocked())
            - placements_of(list, |a: DiscoverPlacementAction| a.blocked()) == (
        if placement.action == DiscoverPlacementAction::BlockedRegularFile || placement.action
            == DiscoverPlacementAction::BlockedDirectory {
            1int
        } else {
            0
        }),
{
    assert(list.push(placement).drop_last() =~= list);
}

/// The names of actions tell them.
pub proof fn lemma_action_names(a: DiscoverPlacementAction)
    ensures
        a == DiscoverPlacementAction::Create ==> a.name() == "create"@,
        a == DiscoverPlacementAction::Update ==> a.name() == "update"@,
        a == DiscoverPlacementAction::BlockedRegularFile ==> a.name() == "blocked_regular_file"@,
        a == DiscoverPlacementAction::BlockedDirectory ==> a.name() == "blocked_directory"@,
{
}

/// A link belongs to the nearest folder above it: the root of a path is one of the roots,
/// the path lies in it, and no longer root holds the path; a path that lies in a root has
/// one.
pub proof fn lemma_links_belong_to_the_nearest(
    path: Seq<char>,
    roots: Seq<Seq<Seq<char>>>,
    other: Seq<Seq<char>>,
)
    requires
        roots.contains(other),
        other.is_prefix_of(paths::components(path)),
        paths::rooted(path) ==> other.len() > 0,
    ensures
        root_of(path, roots) matches Some(root) && roots.contains(root) && root.is_prefix_of(
            paths::components(path),
        ) && root.len() >= other.len(),
{
    let target = paths::components(path);
    let low: int = if paths::rooted(path) {
        1
    } else {
        0
    };
    lemma_nearest(target, roots, target.len() as int, low, other);
}

proof fn lemma_nearest(
    target: Seq<Seq<char>>,
    roots: Seq<Seq<Seq<char>>>,
    n: int,
    low: int,
    other: Seq<Seq<char>>,
)
    requires
        roots.contains(other),
        other.is_prefix_of(target),
        0 <= low <= other.len() <= n <= target.len(),
    ensures
        nearest_root(target, roots, n, low) matches Some(root) && roots.contains(root)
            && root.is_prefix_of(target) && root.len() >= other.len(),
    decreases n - low + 1,
{
    assert(target.take(n).is_prefix_of(target));
    if !roots.contains(target.take(n)) {
        if n == other.len() {
            assert(target.take(n) =~= other);
        }
        lemma_nearest(target, roots, n - 1, low, other);
    }
}

/// A root that a link belongs to is one of the roots, and the link lies in it.
pub proof fn lemma_root_holds_the_link(path: Seq<char>, roots: Seq<Seq<Seq<char>>>)
    ensures
        root_of(path, roots) matches Some(root) ==> roots.contains(root) && root.is_prefix_of(
            paths::components(path),
        ),
{
    let target = paths::components(path);
    lemma_nearest_is_root(
        target,
        roots,
        target.len() as int,
        if paths::rooted(path) {
            1
        } else {
            0
        },
    );
}

proof fn lemma_nearest_is_root(target: Seq<Seq<char>>, roots: Seq<Seq<Seq<char>>>, n: int, low: int)
    requires
        n <= target.len(),
        low >= 0,
    ensures
        nearest_root(target, roots, n, low) matches Some(root) ==> roots.contains(root)
            && root.is_prefix_of(target),
    decreases n - low + 1,
{
    if n >= low && n >= 0 {
        if roots.contains(target.take(n)) {
            assert(target.take(n).is_prefix_of(target));
        } else {
            lemma_nearest_is_root(target, roots, n - 1, low);
        }
    }
}

/// One link more is counted in the folder that it belongs to, and in no other.
pub proof fn lemma_one_link_more(
    links: Seq<LinkRecord>,
    link: LinkRecord,
    roots: Seq<Seq<Seq<char>>>,
    root: Seq<Seq<char>>,
)
    ensures
        links_below(links.push(link), roots, root) - links_below(links, roots, root) == (
        if root_of(link.target_path@, roots) == Some(root) {
            1int
        } else {
            0
        }),
        links_below(Seq::<LinkRecord>::empty(), roots, root) == 0,
{
    assert(links.push(link).drop_last() =~= links);
}

/// The folders of matches are listed once each: every folder is among them, each of them is
/// the folder of a match, and no two are the same.
pub proof fn lemma_roots_are_the_folders(matches: Seq<MatchResult>)
    ensures
        forall|i: int|
            #![trigger matches[i]]
            0 <= i < matches.len() ==> is_root(roots_of(matches), matches[i].library_item.path@),
        forall|k: int|
            #![trigger roots_of(matches)[k]]
            0 <= k < roots_of(matches).len() ==> exists|i: int|
                0 <= i < matches.len() && (#[trigger] matches[i]).library_item.path@ == roots_of(
                    matches,
                )[k],
        forall|k: int, l: int|
            #![trigger roots_of(matches)[k], roots_of(matches)[l]]
            0 <= k < l < roots_of(matches).len() ==> !paths::same(
                roots_of(matches)[k],
                roots_of(matches)[l],
            ),
    decreases matches.len(),
{
    if matches.len() > 0 {
        let rest = matches.drop_last();
        lemma_roots_are_the_folders(rest);
        let before = roots_of(rest);
        let now = roots_of(matches);
        let path = matches.last().library_item.path@;
        assert forall|i: int| #![trigger matches[i]] 0 <= i < matches.len() implies is_root(
            now,
            matches[i].library_item.path@,
        ) by {
            let own = matches[i].library_item.path@;
            if i < rest.len() {
                assert(rest[i] == matches[i]);
                assert(is_root(before, own));
                let k = choose|k: int|
                    0 <= k < before.len() && paths::same(#[trigger] before[k], own);
                assert(now[k] == before[k]);
            } else if is_root(before, path) {
                assert(now == before);
            } else {
                assert(now[before.len() as int] == path);
            }
        }
        assert forall|k: int| #![trigger now[k]] 0 <= k < now.len() implies exists|i: int|
            0 <= i < matches.len() && (#[trigger] matches[i]).library_item.path@ == now[k] by {
            if k < before.len() {
                assert(now[k] == before[k]);
                let i = choose|i: int|
                    0 <= i < rest.len() && (#[trigger] rest[i]).library_item.path@ == before[k];
                assert(matches[i] == rest[i]);
            } else {
                assert(matches[matches.len() - 1].library_item.path@ == now[k]);
            }
        }
        assert forall|k: int, l: int| #![trigger now[k], now[l]] 0 <= k < l < now.len() implies !
        paths::same(now[k], now[l]) by {
            assert(now[k] == before[k]);
            if l < before.len() {
                assert(now[l] == before[l]);
            } else if paths::same(before[k], path) {
                assert(is_root(before, path));
            }
        }
    }
}

/// Placements are ordered by library, then title, then season, then episode, then source
/// name; a missing number counts as zero.
pub proof fn lemma_order_of_placements(a: DiscoverPlacement, b: DiscoverPlacement)
    ensures
        ({
            let s = |p: DiscoverPlacement| if p.season is Some { p.season->0 as int } else { 0 };
            let e = |p: DiscoverPlacement| if p.episode is Some { p.episode->0 as int } else { 0 };
            let before = order::Ranked::precedes(&a, &b);
            &&& order::text_before(a.library_name@, b.library_name@) ==> before
            &&& a.library_name@ == b.library_name@ && order::text_before(a.title@, b.title@)
                ==> before
            &&& a.library_name@ == b.library_name@ && a.title@ == b.title@ && s(a) < s(b) ==> before
            &&& a.library_name@ == b.library_name@ && a.title@ == b.title@ && s(a) == s(b) && e(a)
                < e(b) ==> before
            &&& a.library_name@ == b.library_name@ && a.title@ == b.title@ && s(a) == s(b) && e(a)
                == e(b) ==> before == order::text_before(a.source_name@, b.source_name@)
        }),
{
    order::lemma_text_before_irreflexive(a.library_name@);
    order::lemma_text_before_irreflexive(a.title@);
}

/// Folder plans are ordered by library, then title, then path.
pub proof fn lemma_order_of_folders(a: DiscoverFolderPlan, b: DiscoverFolderPlan)
    ensures
        ({
            let before = order::Ranked::precedes(&a, &b);
            &&& order::text_before(a.library_name@, b.library_name@) ==> before
            &&& a.library_name@ == b.library_name@ && order::text_before(a.title@, b.title@)
                ==> before
            &&& a.library_name@ == b.library_name@ && a.title@ == b.title@ ==> before
                == order::text_before(a.folder_path@, b.folder_path@)
        }),
{
    order::lemma_text_before_irreflexive(a.library_name@);
    order::lemma_text_before_irreflexive(a.title@);
}

/// A report says what is planned: one line where nothing is, else a line for the whole, one
/// for each folder and one for each placement, in their order, and the line of a placement
/// leads from its source to its target.
pub proof fn lemma_report_tells_the_plan(plan: DiscoverPlan, f: int, p: int)
    requires
        0 <= f < plan.folders@.len(),
        0 <= p < plan.placements@.len(),
    ensures
        ({
            let lines = report_lines(plan);
            let folder = plan.folders@[f];
            let placement = plan.placements@[p];
            &&& lines.len() == 3 + plan.folders@.len() + plan.placements@.len()
            &&& lines[2 + f] == "  - "@ + folder.title@ + " ["@ + folder.media_id@ + "] existing="@
                + text::decimal(folder.existing_links as nat) + " create="@ + text::decimal(
                folder.planned_creates as nat,
            ) + " update="@ + text::decimal(folder.planned_updates as nat) + " blocked="@
                + text::decimal(folder.blocked as nat) + " :: "@ + folder.folder_path@
            &&& lines[3 + plan.folders@.len() + p] == "  - ["@ + placement.action.name() + "] "@
                + placement.source_path@ + " -> "@ + placement.target_path@
        }),
{
    let lines = report_lines(plan);
    let folder = plan.folders@[f];
    let placement = plan.placements@[p];
    reveal_with_fuel(text::glued, 15);
    assert(lines[2 + f] == text::glued(folder_line(folder)));
    assert(lines[3 + plan.folders@.len() + p] == text::glued(placement_line(placement)));
    assert(text::glued(placement_line(placement)) =~= "  - ["@ + placement.action.name() + "] "@
        + placement.source_path@ + " -> "@ + placement.target_path@);
    assert(text::glued(folder_line(folder)) =~= "  - "@ + folder.title@ + " ["@ + folder.media_id@
        + "] existing="@ + text::decimal(folder.existing_links as nat) + " create="@
        + text::decimal(folder.planned_creates as nat) + " update="@ + text::decimal(
        folder.planned_updates as nat,
    ) + " blocked="@ + text::decimal(folder.blocked as nat) + " :: "@ + folder.folder_path@);
}

/// Every folder in which something is to be done has its plan, once, and no other folder
/// has one.
pub proof fn lemma_acting_folders_are_planned(
    inputs: PlanInputs,
    list: Seq<DiscoverFolderPlan>,
    n: int,
    i: int,
) -> (k: int)
    requires
        inputs.folders_fit(list, n),
        0 <= i < n <= inputs.matches.len(),
        !(inputs.seen[i] is Symlink),
    ensures
        0 <= k < list.len(),
        paths::same(list[k].folder_path@, inputs.matches[i].library_item.path@),
        list[k].planned_creates + list[k].planned_updates + list[k].blocked > 0,
        forall|l: int|
            #![trigger list[l]]
            0 <= l < list.len() && l != k ==> !paths::same(
                list[l].folder_path@,
                list[k].folder_path@,
            ),
{
    assert(inputs.action(i) is Some);
    let folder = inputs.folder(i);
    assert(lists_folder(list, folder));
    let k = choose|k: int|
        0 <= k < list.len() && paths::components((#[trigger] list[k]).folder_path@) == folder;
    assert(inputs.tells_of(list[k], n));
    let first = choose|first: int| #[trigger] inputs.folder_fits(list[k], first, n);
    assert(inputs.folder(first) == folder);
    lemma_planned_counts(inputs, n, folder, i);
    assert forall|l: int| #![trigger list[l]] 0 <= l < list.len() && l != k implies !paths::same(
        list[l].folder_path@,
        list[k].folder_path@,
    ) by {
        if l < k {
            assert(!paths::same(list[l].folder_path@, list[k].folder_path@));
        } else {
            assert(!paths::same(list[k].folder_path@, list[l].folder_path@));
        }
    }
    k
}

proof fn lemma_planned_counts(inputs: PlanInputs, n: int, folder: Seq<Seq<char>>, i: int)
    requires
        0 <= i < n,
        inputs.acts_in(i, folder),
    ensures
        inputs.planned(n, folder, |a: DiscoverPlacementAction| is_create(a)) + inputs.planned(
            n,
            folder,
            |a: DiscoverPlacementAction| is_update(a),
        ) + inputs.planned(n, folder, |a: DiscoverPlacementAction| a.blocked()) > 0,
    decreases n,
{
    if i < n - 1 {
        lemma_planned_counts(inputs, n - 1, folder, i);
    }
}

/// A folder is listed with its links exactly where it has any.
pub proof fn lemma_folders_with_links_are_listed(
    counts: Map<Seq<Seq<char>>, usize>,
    links: Seq<LinkRecord>,
    roots: Seq<Seq<Seq<char>>>,
    root: Seq<Seq<char>>,
)
    requires
        counts_fit(counts, links, roots),
    ensures
        counts.contains_key(root) <==> links_below(links, roots, root) > 0,
        counts.contains_key(root) ==> counts[root] == links_below(links, roots, root),
{
}

/// The first line of a report tells the numbers of the plan, each behind its name.
pub proof fn lemma_report_begins_with_the_numbers(plan: DiscoverPlan)
    ensures
        ({
            let parts = summary_line(plan);
            &&& parts[1] == text::decimal(plan.placements@.len())
            &&& parts[3] == text::decimal(plan.folders@.len())
            &&& parts[4] == " folder(s): create="@ && parts[5] == text::decimal(
                placements_of(
                    plan.placements@,
                    |a: DiscoverPlacementAction| a == DiscoverPlacementAction::Create,
                ),
            )
            &&& parts[6] == ", update="@ && parts[7] == text::decimal(
                placements_of(
                    plan.placements@,
                    |a: DiscoverPlacementAction| a == DiscoverPlacementAction::Update,
                ),
            )
            &&& parts[8] == ", blocked="@ && parts[9] == text::decimal(
                placements_of(
                    plan.placements@,
                    |a: DiscoverPlacementAction|
                        a == DiscoverPlacementAction::BlockedRegularFile || a
                            == DiscoverPlacementAction::BlockedDirectory,
                ),
            )
            &&& plan.placements@.len() > 0 ==> report_lines(plan)[0] == text::glued(parts)
            &&& plan.placements@.len() == 0 ==> report_lines(plan).len() == 1
        }),
{
    let create = |a: DiscoverPlacementAction| a == DiscoverPlacementAction::Create;
    let update = |a: DiscoverPlacementAction| a == DiscoverPlacementAction::Update;
    let blocked = |a: DiscoverPlacementAction|
        a == DiscoverPlacementAction::BlockedRegularFile || a
            == DiscoverPlacementAction::BlockedDirectory;
    assert(create =~= (|a: DiscoverPlacementAction| is_create(a)));
    assert(update =~= (|a: DiscoverPlacementAction| is_update(a)));
    assert(blocked =~= (|a: DiscoverPlacementAction| a.blocked()));
}

} // verus!
