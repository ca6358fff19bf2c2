//! Whether a source can be read before a link to it is written.

use vstd::prelude::*;
use crate::config::{Config, SourceConfig};
use crate::paths;
use crate::tables::PathMap;
use crate::text;

verus! {

/// Whether a source can be read.
#[derive(Debug, PartialEq, Eq)]
pub enum SourceReadiness {
    Ready,
    /// It cannot, and why.
    Unreadable(String),
}

impl Clone for SourceReadiness {
    fn clone(&self) -> (out: Self)
        ensures
            out == *self,
    {
        match self {
            SourceReadiness::Ready => SourceReadiness::Ready,
            SourceReadiness::Unreadable(reason) => SourceReadiness::Unreadable(reason.clone()),
        }
    }
}

impl SourceReadiness {
    /// The reason as an error.
    pub fn into_result(self) -> (out: Result<(), String>)
        ensures
            out == (match self {
                SourceReadiness::Ready => Ok::<(), String>(()),
                SourceReadiness::Unreadable(reason) => Err::<(), String>(reason),
            }),
    {
        match self {
            SourceReadiness::Ready => Ok(()),
            SourceReadiness::Unreadable(reason) => Err(reason),
        }
    }
}

/// The answer to a probe of one path.
#[derive(Debug, PartialEq, Eq)]
pub enum ProbeReply {
    Readable,
    NotFound,
    Unreadable(String),
}

/// Asks for a probe of sources before links to them are written.
#[derive(Debug)]
pub struct SourceReadinessGate {
    pub source_roots: Vec<String>,
    pub probe_timeout_ms: u64,
}

/// The directories of the sources.
pub open spec fn source_paths(sources: Seq<SourceConfig>) -> Seq<Seq<char>> {
    sources.map_values(|source: SourceConfig| source.path@)
}

/// Whether a gate is the one that the configuration calls for: none where
/// probing is off, Decypharr is not configured or there are no sources.
pub open spec fn gate_fits(gate: Option<SourceReadinessGate>, cfg: Config) -> bool {
    if cfg.symlink.verify_source_readability && cfg.decypharr.url@.len() > 0 && cfg.sources@.len()
        > 0 {
        gate is Some && text::views(gate->0.source_roots@) == source_paths(cfg.sources@)
            && gate->0.probe_timeout_ms == cfg.symlink.source_probe_timeout_ms
    } else {
        gate is None
    }
}

/// Whether the root at `i` is the one that a source lies below: none that the
/// source lies below has more components, and none behind it as many.
pub open spec fn is_matching_root(roots: Seq<Seq<char>>, source: Seq<char>, i: int) -> bool {
    &&& 0 <= i < roots.len()
    &&& paths::below(source, roots[i])
    &&& forall|j: int|
        0 <= j < roots.len() && paths::below(source, #[trigger] roots[j]) ==> {
            ||| paths::components(roots[j]).len() < paths::components(roots[i]).len()
            ||| paths::components(roots[j]).len() == paths::components(roots[i]).len() && j <= i
        }
}

/// The text of a list of components.
pub open spec fn spelled(list: Seq<Seq<char>>) -> Seq<char> {
    if list.len() > 0 && list[0] == "/"@ {
        "/"@ + text::join(list.skip(1), "/"@)
    } else {
        text::join(list, "/"@)
    }
}

/// What remains of `path` below `base`, unless nothing does or it is not below.
pub open spec fn relative(path: Seq<char>, base: Seq<char>) -> Option<Seq<char>> {
    let rest = paths::components(path).skip(paths::components(base).len() as int);
    if paths::below(path, base) && rest.len() > 0 {
        Some(spelled(rest))
    } else {
        None
    }
}

/// What remains of `path` below `base`.
pub fn relative_path(path: &str, base: &str) -> (out: Option<String>)
    ensures
        match out {
            Some(r) => relative(path@, base@) == Some(r@),
            None => relative(path@, base@) is None,
        },
{
    let mut all = paths::path_components(path);
    let front = paths::path_components(base);
    let ghost listed = text::views(all@);
    let ghost n = front@.len() as int;
    assert(text::views(front@).len() == n);
    if !paths::starts_with_texts(&all, &front) || all.len() == front.len() {
        return None;
    }
    let mut rest = all.split_off(front.len());
    assert(text::views(rest@) =~= listed.skip(n));
    assert(rest@[0]@ == listed.skip(n)[0]);
    if text::text_eq(rest[0].as_str(), "/") {
        let tail = rest.split_off(1);
        assert(text::views(tail@) =~= listed.skip(n).skip(1));
        Some(text::concat2("/", text::join_texts(&tail, "/").as_str()))
    } else {
        Some(text::join_texts(&rest, "/"))
    }
}

/// The list with what remains of a path behind it, unless nothing does or the
/// list names it already.
pub open spec fn with_relative(list: Seq<Seq<char>>, path: Seq<char>, base: Seq<char>) -> Seq<
    Seq<char>,
> {
    match relative(path, base) {
        Some(r) => crate::config::load::with_path(list, r),
        None => list,
    }
}

/// The paths under which a source may be offered by the server: seen from its
/// root, and from the directory of the root. For a root named `__all__`, which
/// the server adds itself, the directory comes first.
pub open spec fn candidates(root: Seq<char>, source: Seq<char>) -> Seq<Seq<char>> {
    let none = Seq::<Seq<char>>::empty();
    if paths::file_name(root) == Some("__all__"@) {
        let first = match paths::parent(root) {
            Some(dir) => with_relative(none, source, dir),
            None => none,
        };
        with_relative(first, source, root)
    } else {
        let first = with_relative(none, source, root);
        match paths::parent(root) {
            Some(dir) => with_relative(first, source, dir),
            None => first,
        }
    }
}

fn push_relative(list: &mut Vec<String>, path: &str, base: &str)
    ensures
        text::views(final(list)@) == with_relative(text::views(old(list)@), path@, base@),
{
    if let Some(r) = relative_path(path, base) {
        crate::config::load::push_unique_path(list, r);
    }
}

/// What the answers to the probes of the candidates amount to: the first that is
/// not "not found" decides; where all are, the source may lie in a tree that the
/// server does not offer, and counts as ready.
pub open spec fn readiness(replies: Seq<ProbeReply>) -> SourceReadiness
    decreases replies.len(),
{
    if replies.len() == 0 {
        SourceReadiness::Ready
    } else {
        match replies[0] {
            ProbeReply::Readable => SourceReadiness::Ready,
            ProbeReply::Unreadable(reason) => SourceReadiness::Unreadable(reason),
            ProbeReply::NotFound => readiness(replies.skip(1)),
        }
    }
}

/// What the answers to the probes amount to.
pub fn readiness_of(replies: &Vec<ProbeReply>) -> (out: SourceReadiness)
    ensures
        out == readiness(replies@),
{
    let mut i: usize = 0;
    assert(replies@.skip(0) == replies@);
    while i < replies.len()
        invariant
            i <= replies@.len(),
            readiness(replies@.skip(i as int)) == readiness(replies@),
        decreases replies@.len() - i,
    {
        assert(replies@.skip(i as int)[0] == replies@[i as int]);
        match &replies[i] {
            ProbeReply::Readable => {
                return SourceReadiness::Ready;
            },
            ProbeReply::Unreadable(reason) => {
                return SourceReadiness::Unreadable(reason.clone());
            },
            ProbeReply::NotFound => {},
        }
        assert(replies@.skip(i as int).skip(1) == replies@.skip(i + 1));
        i += 1;
    }
    SourceReadiness::Ready
}

/// The key under which a finding is remembered: the directory of the source.
pub open spec fn readiness_key(source: Seq<char>) -> Seq<char> {
    match paths::parent(source) {
        Some(dir) => dir,
        None => source,
    }
}

/// The next step towards knowing whether a source can be read.
#[derive(Debug, PartialEq, Eq)]
pub enum ReadinessStep {
    Known(SourceReadiness),
    /// Probe these paths in turn until one is found.
    Probe(Vec<String>),
}

impl SourceReadinessGate {
    /// Makes a gate where a configuration asks for one.
    pub fn from_config(cfg: &Config) -> (out: Option<Self>)
        ensures
            gate_fits(out, *cfg),
    {
        if !cfg.symlink.verify_source_readability || !cfg.has_decypharr() || cfg.sources.len() == 0 {
            return None;
        }
        let mut roots: Vec<String> = Vec::new();
        let ghost all = source_paths(cfg.sources@);
        let mut i: usize = 0;
        while i < cfg.sources.len()
            invariant
                i <= cfg.sources@.len(),
                all == source_paths(cfg.sources@),
                text::views(roots@) == all.take(i as int),
            decreases cfg.sources@.len() - i,
        {
            let ghost before = text::views(roots@);
            roots.push(cfg.sources[i].path.clone());
            assert(text::views(roots@) =~= before.push(all[i as int]));
            i += 1;
            assert(all.take(i as int) =~= before.push(all[i - 1]));
        }
        assert(all.take(cfg.sources@.len() as int) == all);
        Some(
            SourceReadinessGate {
                source_roots: roots,
                probe_timeout_ms: cfg.symlink.source_probe_timeout_ms,
            },
        )
    }

    /// The root that a source lies below, the deepest and of equally deep ones
    /// the last.
    pub fn matching_source_root(&self, source_path: &str) -> (out: Option<usize>)
        ensures
            match out {
                Some(i) => is_matching_root(
                    text::views(self.source_roots@),
                    source_path@,
                    i as int,
                ),
                None => forall|j: int|
                    0 <= j < self.source_roots@.len() ==> !paths::below(
                        source_path@,
                        #[trigger] text::views(self.source_roots@)[j],
                    ),
            },
    {
        let ghost roots = text::views(self.source_roots@);
        let mut found: Option<usize> = None;
        let mut depth: usize = 0;
        let mut i: usize = 0;
        while i < self.source_roots.len()
            invariant
                i <= self.source_roots@.len(),
                roots == text::views(self.source_roots@),
                match found {
                    Some(k) => k < i && paths::below(source_path@, roots[k as int]) && depth
                        == paths::components(roots[k as int]).len() && forall|j: int|
                        0 <= j < i && paths::below(source_path@, #[trigger] roots[j]) ==> {
                            ||| paths::components(roots[j]).len() < depth
                            ||| paths::components(roots[j]).len() == depth && j <= k
                        },
                    None => forall|j: int|
                        0 <= j < i ==> !paths::below(source_path@, #[trigger] roots[j]),
                },
            decreases self.source_roots@.len() - i,
        {
            let root = self.source_roots[i].as_str();
            assert(roots[i as int] == root@);
            if paths::is_below(source_path, root) {
                let count = paths::component_count(root);
                if found.is_none() || count >= depth {
                    found = Some(i);
                    depth = count;
                }
            }
            i += 1;
        }
        found
    }

    /// The paths under which a source may be offered by the server.
    pub fn candidate_relative_paths(source_root: &str, source_path: &str) -> (out: Vec<String>)
        ensures
            text::views(out@) == candidates(source_root@, source_path@),
    {
        let mut out: Vec<String> = Vec::new();
        assert(text::views(out@) =~= Seq::<Seq<char>>::empty());
        let all_named = match paths::file_name_of(source_root) {
            Some(name) => text::text_eq(name.as_str(), "__all__"),
            None => false,
        };
        let parent = paths::parent_of(source_root);
        if all_named {
            if let Some(dir) = &parent {
                push_relative(&mut out, source_path, dir.as_str());
            }
            push_relative(&mut out, source_path, source_root);
        } else {
            push_relative(&mut out, source_path, source_root);
            if let Some(dir) = &parent {
                push_relative(&mut out, source_path, dir.as_str());
            }
        }
        out
    }

    /// The next step towards knowing whether a source can be read: what is
    /// remembered of its directory, or the probes to make. A source below no
    /// root needs none.
    pub fn ensure_readable(
        &self,
        source_path: &str,
        readiness_cache: &PathMap<SourceReadiness>,
    ) -> (out: ReadinessStep)
        requires
            readiness_cache.wf(),
        ensures
            ({
                let key = paths::components(readiness_key(source_path@));
                let roots = text::views(self.source_roots@);
                if readiness_cache@.contains_key(key) {
                    out == ReadinessStep::Known(readiness_cache@[key])
                } else {
                    match out {
                        ReadinessStep::Known(known) => known == SourceReadiness::Ready
                            && forall|j: int|
                            0 <= j < roots.len() ==> !paths::below(
                                source_path@,
                                #[trigger] roots[j],
                            ),
                        ReadinessStep::Probe(list) => exists|i: int| #[trigger]
                            is_matching_root(roots, source_path@, i) && text::views(list@)
                                == candidates(roots[i], source_path@),
                    }
                }
            }),
    {
        let key = match paths::parent_of(source_path) {
            Some(dir) => dir,
            None => source_path.to_owned(),
        };
        if let Some(known) = readiness_cache.get(key.as_str()) {
            return ReadinessStep::Known(known.clone());
        }
        match self.matching_source_root(source_path) {
            Some(i) => {
                let ghost roots = text::views(self.source_roots@);
                assert(roots[i as int] == self.source_roots@[i as int]@);
                assert(is_matching_root(roots, source_path@, i as int));
                ReadinessStep::Probe(
                    Self::candidate_relative_paths(self.source_roots[i].as_str(), source_path),
                )
            },
            None => ReadinessStep::Known(SourceReadiness::Ready),
        }
    }

    /// Remembers a finding for the directory of the source.
    pub fn remember(
        readiness_cache: &mut PathMap<SourceReadiness>,
        source_path: &str,
        found: SourceReadiness,
    )
        requires
            old(readiness_cache).wf(),
        ensures
            final(readiness_cache).wf(),
            final(readiness_cache)@ == old(readiness_cache)@.insert(
                paths::components(readiness_key(source_path@)),
                found,
            ),
    {
        let key = match paths::parent_of(source_path) {
            Some(dir) => dir,
            None => source_path.to_owned(),
        };
        readiness_cache.insert(key.as_str(), found);
    }
}

// ---------------------------------------------------------------------------
// What a gate asks for, and what the answers amount to

/// A gate is made only where the configuration calls for one: probing is on, the server is
/// configured and there are sources; it then knows the directory of each source, in order.
pub proof fn lemma_gate_is_asked_for(gate: Option<SourceReadinessGate>, cfg: Config)
    requires
        gate_fits(gate, cfg),
    ensures
        gate is Some <==> cfg.symlink.verify_source_readability && cfg.decypharr.url@.len() > 0
            && cfg.sources@.len() > 0,
        gate matches Some(g) ==> g.source_roots@.len() == cfg.sources@.len() && g.probe_timeout_ms
            == cfg.symlink.source_probe_timeout_ms && forall|i: int|
            0 <= i < cfg.sources@.len() ==> (#[trigger] g.source_roots@[i])@ == cfg.sources@[i].path@,
{
    if let Some(g) = gate {
        assert(text::views(g.source_roots@).len() == source_paths(cfg.sources@).len());
        assert forall|i: int| 0 <= i < cfg.sources@.len() implies (#[trigger] g.source_roots@[i])@
            == cfg.sources@[i].path@ by {
            assert(text::views(g.source_roots@)[i] == source_paths(cfg.sources@)[i]);
        }
    }
}

/// The first answer that is not "not found" decides: a source that was found readable is
/// ready, one that was not is unreadable for that reason, and one that was not found
/// anywhere is ready.
pub proof fn lemma_first_answer_decides(replies: Seq<ProbeReply>, i: int)
    requires
        0 <= i <= replies.len(),
        forall|j: int| 0 <= j < i ==> #[trigger] replies[j] is NotFound,
    ensures
        i == replies.len() ==> readiness(replies) == SourceReadiness::Ready,
        i < replies.len() && replies[i] is Readable ==> readiness(replies)
            == SourceReadiness::Ready,
        i < replies.len() ==> (replies[i] matches ProbeReply::Unreadable(reason) ==> readiness(
            replies,
        ) == SourceReadiness::Unreadable(reason)),
    decreases i,
{
    if i > 0 {
        assert(replies[0] is NotFound);
        let rest = replies.skip(1);
        assert forall|j: int| 0 <= j < i - 1 implies #[trigger] rest[j] is NotFound by {
            assert(rest[j] == replies[j + 1]);
        }
        lemma_first_answer_decides(rest, i - 1);
        if i < replies.len() {
            assert(rest[i - 1] == replies[i]);
        }
    }
}

/// What remains of a path below another is the path from there: behind the components of
/// the one come those of the other. Nothing remains of a path below itself.
pub proof fn lemma_relative_leads_on(path: Seq<char>, base: Seq<char>)
    requires
        paths::components(base).len() > 0,
    ensures
        relative(path, base) is Some <==> paths::below(path, base) && !paths::same(path, base),
        relative(path, base) matches Some(rest) ==> paths::components(base) + paths::components(
            rest,
        ) == paths::components(path) && !paths::rooted(rest),
{
    let all = paths::components(path);
    let own = paths::components(base);
    if paths::below(path, base) {
        let rest = all.skip(own.len() as int);
        assert(own + rest =~= all);
        if rest.len() == 0 {
            assert(own =~= all);
        } else {
            assert forall|i: int| 0 <= i < rest.len() implies paths::is_name(#[trigger] rest[i]) by {
                paths::lemma_component_is_name(path, own.len() + i);
                assert(rest[i] == all[own.len() + i]);
            }
            reveal_strlit("/");
            assert(paths::is_name(rest[0]));
            assert("/"@.contains('/')) by {
                assert("/"@[0] == '/');
            }
            paths::lemma_names_are_components(rest);
            let spelled_rest = text::join(rest, "/"@);
            if paths::rooted(spelled_rest) {
                assert(paths::components(spelled_rest)[0] == "/"@);
            }
        }
    }
}

/// A source below a root is asked for as seen from the root and from the directory of the
/// root, nothing else is asked for, and what is asked first is what the root offers, but for
/// a root named `__all__`: there it is what its directory offers.
pub proof fn lemma_candidates_are_seen_from_the_root(root: Seq<char>, source: Seq<char>)
    requires
        paths::components(root).len() > 1,
        paths::below(source, root),
        !paths::same(source, root),
    ensures
        ({
            let list = candidates(root, source);
            let near = relative(source, root)->0;
            let far = relative(source, paths::parent(root)->0)->0;
            &&& relative(source, root) is Some
            &&& paths::parent(root) is Some && relative(source, paths::parent(root)->0) is Some
            &&& list == (if paths::file_name(root) == Some("__all__"@) {
                seq![far, near]
            } else {
                seq![near, far]
            })
        }),
{
    paths::lemma_parent_drops_the_last(root);
    paths::lemma_below_is_upward(root, root);
    let dir = paths::parent(root)->0;
    let own = paths::components(root);
    let up = paths::components(dir);
    let all = paths::components(source);
    assert(all.subrange(0, up.len() as int) =~= up) by {
        assert(all.subrange(0, own.len() as int) == own);
        assert forall|i: int| 0 <= i < up.len() implies all[i] == up[i] by {
            assert(all.subrange(0, own.len() as int)[i] == own[i]);
        }
    }
    assert(!paths::same(source, dir)) by {
        if paths::same(source, dir) {
            assert(all.len() == up.len());
        }
    }
    lemma_relative_leads_on(source, root);
    lemma_relative_leads_on(source, dir);
    let near = relative(source, root)->0;
    let far = relative(source, dir)->0;
    assert(paths::components(near).len() < paths::components(far).len());
    let none = Seq::<Seq<char>>::empty();
    assert(with_relative(none, source, root) =~= seq![near]);
    assert(with_relative(none, source, dir) =~= seq![far]);
    assert(!crate::config::load::lists_path(seq![near], far)) by {
        if crate::config::load::lists_path(seq![near], far) {
            assert(paths::same(near, far));
        }
    }
    assert(!crate::config::load::lists_path(seq![far], near)) by {
        if crate::config::load::lists_path(seq![far], near) {
            assert(paths::same(far, near));
        }
    }
    assert(seq![near].push(far) =~= seq![near, far]);
    assert(seq![far].push(near) =~= seq![far, near]);
}

/// What was found of a source holds for its whole directory: sources with one parent share
/// the key under which it is remembered, and sources with different parents do not.
pub proof fn lemma_findings_hold_for_a_directory(
    dir: Seq<char>,
    other: Seq<char>,
    a: Seq<char>,
    b: Seq<char>,
)
    requires
        paths::is_name(a),
        paths::is_name(b),
        paths::components(dir).len() > 0,
        paths::components(other).len() > 0,
    ensures
        paths::same(
            readiness_key(paths::joined(dir, a)),
            readiness_key(paths::joined(other, b)),
        ) == paths::same(dir, other),
{
    paths::lemma_joined_components(dir, a);
    paths::lemma_joined_components(other, b);
    paths::lemma_parent_drops_the_last(paths::joined(dir, a));
    paths::lemma_parent_drops_the_last(paths::joined(other, b));
    assert(paths::components(dir).push(a).drop_last() =~= paths::components(dir));
    assert(paths::components(other).push(b).drop_last() =~= paths::components(other));
}

/// The root of a source is one that it lies below, no root below which it lies is deeper,
/// and of equally deep ones it is the last.
pub proof fn lemma_deepest_root_counts(
    roots: Seq<Seq<char>>,
    source: Seq<char>,
    i: int,
    j: int,
)
    requires
        is_matching_root(roots, source, i),
        0 <= j < roots.len(),
        paths::below(source, roots[j]),
    ensures
        0 <= i < roots.len(),
        paths::below(source, roots[i]),
        paths::components(roots[j]).len() <= paths::components(roots[i]).len(),
        paths::components(roots[j]).len() == paths::components(roots[i]).len() ==> j <= i,
        paths::below(roots[i], roots[j]),
{
    let all = paths::components(source);
    let x = paths::components(roots[i]);
    let y = paths::components(roots[j]);
    assert(paths::below(source, roots[j]));
    assert(x.subrange(0, y.len() as int) =~= y) by {
        assert forall|k: int| 0 <= k < y.len() implies x[k] == y[k] by {
            assert(all.subrange(0, x.len() as int)[k] == x[k]);
            assert(all.subrange(0, y.len() as int)[k] == y[k]);
        }
    }
}

} // verus!
