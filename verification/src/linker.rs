//! Creating, updating and checking links: where a link goes, when it is
//! written, and when it is dead.

use vstd::prelude::*;
use crate::config::Config;
use crate::models::{LinkRecord, LinkStatus, MatchResult, MediaType, PathHealth, PathState};
use crate::paths;
use crate::tables::{PathMap, TextMap};
use crate::text;

pub mod naming;
pub mod readiness;
pub mod sweep;
pub mod template;
pub mod writing;

verus! {

/// What became of a link.
#[derive(Debug, Clone, Copy, PartialEq, Eq, Structural)]
pub enum LinkWriteOutcome {
    Created,
    Updated,
    Skipped,
}

/// What a run over matches did.
#[derive(Debug, Clone)]
pub struct LinkProcessSummary {
    pub created: u64,
    pub updated: u64,
    pub skipped: u64,
    pub skip_reasons: TextMap<u64>,
    pub refresh_paths: Vec<String>,
}

impl Default for LinkProcessSummary {
    fn default() -> (out: Self)
        ensures
            out.created == 0,
            out.updated == 0,
            out.skipped == 0,
            out.skip_reasons.wf(),
            out.skip_reasons@ == Map::<Seq<char>, u64>::empty(),
            out.refresh_paths@.len() == 0,
    {
        LinkProcessSummary {
            created: 0,
            updated: 0,
            skipped: 0,
            skip_reasons: TextMap::new(),
            refresh_paths: Vec::new(),
        }
    }
}

/// What a sweep for dead links did.
#[derive(Debug, Clone)]
pub struct DeadLinkSummary {
    pub dead_marked: u64,
    pub removed: u64,
    pub skipped: u64,
    pub skip_reasons: TextMap<u64>,
}

impl Default for DeadLinkSummary {
    fn default() -> (out: Self)
        ensures
            out.dead_marked == 0,
            out.removed == 0,
            out.skipped == 0,
            out.skip_reasons.wf(),
            out.skip_reasons@ == Map::<Seq<char>, u64>::empty(),
    {
        DeadLinkSummary { dead_marked: 0, removed: 0, skipped: 0, skip_reasons: TextMap::new() }
    }
}

/// The count of a reason.
pub open spec fn reason_count(reasons: Map<Seq<char>, u64>, reason: Seq<char>) -> u64 {
    if reasons.contains_key(reason) {
        reasons[reason]
    } else {
        0
    }
}

/// The counts with one more for a reason.
pub open spec fn counted(reasons: Map<Seq<char>, u64>, reason: Seq<char>) -> Map<Seq<char>, u64> {
    reasons.insert(reason, (reason_count(reasons, reason) + 1) as u64)
}

/// The sum of the counts of all reasons.
pub open spec fn total(reasons: Map<Seq<char>, u64>) -> nat
    decreases reasons.dom().len(),
{
    if !reasons.dom().finite() || reasons.dom().len() == 0 {
        0
    } else {
        let reason = reasons.dom().choose();
        reasons[reason] as nat + total(reasons.remove(reason))
    }
}

proof fn lemma_total_without(reasons: Map<Seq<char>, u64>, reason: Seq<char>)
    requires
        reasons.dom().finite(),
        reasons.contains_key(reason),
    ensures
        total(reasons) == reasons[reason] as nat + total(reasons.remove(reason)),
    decreases reasons.dom().len(),
{
    let first = reasons.dom().choose();
    assert(reasons.dom().contains(reason));
    assert(reasons.dom().len() != 0) by {
        if reasons.dom().len() == 0 {
            assert(reasons.dom() =~= Set::<Seq<char>>::empty());
        }
    }
    assert(reasons.dom().contains(first));
    if first != reason {
        let rest = reasons.remove(first);
        assert(rest.dom() =~= reasons.dom().remove(first));
        lemma_total_without(rest, reason);
        let other = reasons.remove(reason);
        assert(other.dom() =~= reasons.dom().remove(reason));
        assert(other.contains_key(first));
        lemma_total_without(other, first);
        assert(rest.remove(reason) =~= other.remove(first));
    }
}

/// Counting a reason adds one to the sum.
pub proof fn lemma_total_counted(reasons: Map<Seq<char>, u64>, reason: Seq<char>)
    requires
        reasons.dom().finite(),
        reason_count(reasons, reason) < u64::MAX,
    ensures
        counted(reasons, reason).dom().finite(),
        total(counted(reasons, reason)) == total(reasons) + 1,
{
    let after = counted(reasons, reason);
    assert(after.dom() =~= reasons.dom().insert(reason));
    lemma_total_without(after, reason);
    if reasons.contains_key(reason) {
        lemma_total_without(reasons, reason);
        assert(after.remove(reason) =~= reasons.remove(reason));
    } else {
        assert(after.remove(reason) =~= reasons);
    }
}

/// Counts a reason.
pub fn increment_skip_reason(skip_reasons: &mut TextMap<u64>, reason: &str)
    requires
        old(skip_reasons).wf(),
        reason_count(old(skip_reasons)@, reason@) < u64::MAX,
    ensures
        final(skip_reasons).wf(),
        final(skip_reasons)@ == counted(old(skip_reasons)@, reason@),
{
    let count: u64 = match skip_reasons.get(reason) {
        Some(n) => *n,
        None => 0,
    };
    skip_reasons.insert(reason, count + 1);
}

// ---------------------------------------------------------------------------
// Where a link goes

/// Creates and manages links from sources to libraries.
#[derive(Debug)]
pub struct Linker {
    pub dry_run: bool,
    pub strict_mode: bool,
    pub reconcile_links: bool,
    pub naming_template: String,
    pub source_readiness_gate: Option<readiness::SourceReadinessGate>,
}

/// Why a match has no target path.
#[derive(Debug, Clone, Copy, PartialEq, Eq, Structural)]
pub enum TargetPathError {
    MissingSeason,
    MissingEpisode,
}

impl TargetPathError {
    /// The error in words.
    pub fn message(&self) -> (out: &'static str)
        ensures
            out@ == (match *self {
                TargetPathError::MissingSeason =>
                    "TV match missing season while building target path"@,
                TargetPathError::MissingEpisode =>
                    "TV match missing episode while building target path"@,
            }),
    {
        match self {
            TargetPathError::MissingSeason => "TV match missing season while building target path",
            TargetPathError::MissingEpisode =>
                "TV match missing episode while building target path",
        }
    }
}

/// The template with its numbers and the title filled in; padded placeholders
/// before bare ones.
pub open spec fn filled_numbers(
    template: Seq<char>,
    title: Seq<char>,
    season: u32,
    episode: u32,
) -> Seq<char> {
    let a = text::replace(template, "{season:02}"@, text::decimal2(season as nat));
    let b = text::replace(a, "{season}"@, text::decimal(season as nat));
    let c = text::replace(b, "{episode:02}"@, text::decimal2(episode as nat));
    let d = text::replace(c, "{episode}"@, text::decimal(episode as nat));
    text::replace(d, "{title}"@, title)
}

/// The name with the episode title filled in; where there is none, its
/// placeholder goes together with the dash beside it.
pub open spec fn filled_title(name: Seq<char>, episode_title: Seq<char>) -> Seq<char> {
    if episode_title.len() == 0 {
        let a = text::replace(name, " - {episode_title}"@, ""@);
        let b = text::replace(a, "{episode_title} - "@, ""@);
        text::replace(b, "{episode_title}"@, ""@)
    } else {
        text::replace(name, "{episode_title}"@, episode_title)
    }
}

/// The file name of an episode.
pub open spec fn episode_name(
    template: Seq<char>,
    title: Seq<char>,
    season: u32,
    episode: u32,
    episode_title: Seq<char>,
    extension: Seq<char>,
) -> Seq<char> {
    let safe_title = naming::sanitized(title);
    let safe_episode_title = naming::sanitized(episode_title);
    let name = filled_title(
        filled_numbers(template, safe_title, season, episode),
        safe_episode_title,
    );
    naming::limited_name(
        name + "."@ + extension,
        safe_title,
        safe_episode_title,
        season,
        episode,
        extension,
    )
}

/// ` (year)`, or nothing.
pub open spec fn year_suffix(year: Option<u32>) -> Seq<char> {
    match year {
        Some(y) => " ("@ + text::decimal(y as nat) + ")"@,
        None => ""@,
    }
}

/// The file name of a movie; where it is over the limit the title gives way.
pub open spec fn movie_name(title: Seq<char>, year: Option<u32>, extension: Seq<char>) -> Seq<char> {
    let safe_title = naming::sanitized(title);
    let suffix = year_suffix(year);
    let name = safe_title + suffix + "."@ + extension;
    if naming::byte_len(name) > naming::NAME_LIMIT {
        let excess = naming::over_limit(naming::byte_len(name));
        let kept: nat = if naming::byte_len(safe_title) > excess {
            (naming::byte_len(safe_title) - excess) as nat
        } else {
            0
        };
        naming::fitted(safe_title, kept) + suffix + "."@ + extension
    } else {
        name
    }
}

/// The characters of an optional text, or none.
pub open spec fn text_or_empty(t: Option<String>) -> Seq<char> {
    match t {
        Some(s) => s@,
        None => ""@,
    }
}

impl Linker {
    /// A linker that counts a link whose source changed as updated.
    pub fn new(dry_run: bool, strict_mode: bool, naming_template: &str) -> (out: Self)
        ensures
            out.dry_run == dry_run,
            out.strict_mode == strict_mode,
            out.reconcile_links,
            out.naming_template@ == naming_template@,
            out.source_readiness_gate is None,
    {
        Self::new_with_options(dry_run, strict_mode, naming_template, true)
    }

    /// A linker with all its options.
    pub fn new_with_options(
        dry_run: bool,
        strict_mode: bool,
        naming_template: &str,
        reconcile_links: bool,
    ) -> (out: Self)
        ensures
            out.dry_run == dry_run,
            out.strict_mode == strict_mode,
            out.reconcile_links == reconcile_links,
            out.naming_template@ == naming_template@,
            out.source_readiness_gate is None,
    {
        Linker {
            dry_run,
            strict_mode,
            reconcile_links,
            naming_template: naming_template.to_owned(),
            source_readiness_gate: None,
        }
    }

    /// The linker with a gate on sources, where the configuration calls for one.
    pub fn with_source_readiness_from_config(self, cfg: &Config) -> (out: Self)
        ensures
            out.dry_run == self.dry_run,
            out.strict_mode == self.strict_mode,
            out.reconcile_links == self.reconcile_links,
            out.naming_template == self.naming_template,
            readiness::gate_fits(out.source_readiness_gate, *cfg),
    {
        Linker {
            dry_run: self.dry_run,
            strict_mode: self.strict_mode,
            reconcile_links: self.reconcile_links,
            naming_template: self.naming_template,
            source_readiness_gate: readiness::SourceReadinessGate::from_config(cfg),
        }
    }

    /// The file name of an episode by the naming template.
    pub fn format_episode_name(
        &self,
        title: &str,
        season: u32,
        episode: u32,
        episode_title: &str,
        extension: &str,
    ) -> (out: String)
        ensures
            out@ == episode_name(
                self.naming_template@,
                title@,
                season,
                episode,
                episode_title@,
                extension@,
            ),
    {
        let safe_title = naming::sanitize_filename(title);
        let safe_episode_title = naming::sanitize_filename(episode_title);
        let season2 = text::decimal2_text(season as u64);
        let season1 = text::decimal_text(season as u64);
        let episode2 = text::decimal2_text(episode as u64);
        let episode1 = text::decimal_text(episode as u64);
        proof {
            reveal_strlit("{season:02}");
            reveal_strlit("{season}");
            reveal_strlit("{episode:02}");
            reveal_strlit("{episode}");
            reveal_strlit("{title}");
            reveal_strlit(" - {episode_title}");
            reveal_strlit("{episode_title} - ");
            reveal_strlit("{episode_title}");
        }
        let a = text::replace_text(
            self.naming_template.as_str(),
            "{season:02}",
            season2.as_str(),
        );
        let b = text::replace_text(a.as_str(), "{season}", season1.as_str());
        let c = text::replace_text(b.as_str(), "{episode:02}", episode2.as_str());
        let d = text::replace_text(c.as_str(), "{episode}", episode1.as_str());
        let e = text::replace_text(d.as_str(), "{title}", safe_title.as_str());
        let name = if safe_episode_title.as_str().is_empty() {
            let f = text::replace_text(e.as_str(), " - {episode_title}", "");
            let g = text::replace_text(f.as_str(), "{episode_title} - ", "");
            text::replace_text(g.as_str(), "{episode_title}", "")
        } else {
            text::replace_text(e.as_str(), "{episode_title}", safe_episode_title.as_str())
        };
        let filename = text::concat3(name.as_str(), ".", extension);
        naming::truncate_filename_to_limit(
            filename,
            safe_title.as_str(),
            safe_episode_title.as_str(),
            season,
            episode,
            extension,
        )
    }

    /// Where the link of a match goes: a series below its season, a movie in its
    /// folder.
    pub open spec fn target_path(&self, m: MatchResult) -> Result<Seq<char>, TargetPathError> {
        let folder = m.library_item.path@;
        match m.library_item.media_type {
            MediaType::Tv => if m.source_item.season is None {
                Err(TargetPathError::MissingSeason)
            } else if m.source_item.episode is None {
                Err(TargetPathError::MissingEpisode)
            } else {
                let season = m.source_item.season->0;
                let name = episode_name(
                    self.naming_template@,
                    m.library_item.title@,
                    season,
                    m.source_item.episode->0,
                    text_or_empty(m.episode_title),
                    m.source_item.extension@,
                );
                Ok(
                    paths::joined(
                        paths::joined(folder, "Season "@ + text::decimal2(season as nat)),
                        name,
                    ),
                )
            },
            MediaType::Movie => Ok(
                paths::joined(
                    folder,
                    movie_name(
                        m.library_item.title@,
                        m.source_item.year,
                        m.source_item.extension@,
                    ),
                ),
            ),
        }
    }

    /// Builds the target path of a match.
    pub fn build_target_path(&self, m: &MatchResult) -> (out: Result<String, TargetPathError>)
        ensures
            match out {
                Ok(path) => self.target_path(*m) == Ok::<Seq<char>, TargetPathError>(path@),
                Err(e) => self.target_path(*m) == Err::<Seq<char>, TargetPathError>(e),
            },
    {
        match m.library_item.media_type {
            MediaType::Tv => {
                let season: u32 = match m.source_item.season {
                    Some(s) => s,
                    None => {
                        return Err(TargetPathError::MissingSeason);
                    },
                };
                let episode: u32 = match m.source_item.episode {
                    Some(e) => e,
                    None => {
                        return Err(TargetPathError::MissingEpisode);
                    },
                };
                let episode_title: &str = match &m.episode_title {
                    Some(t) => t.as_str(),
                    None => "",
                };
                let season_dir = paths::join(
                    m.library_item.path.as_str(),
                    text::concat2("Season ", text::decimal2_text(season as u64).as_str()).as_str(),
                );
                let name = self.format_episode_name(
                    m.library_item.title.as_str(),
                    season,
                    episode,
                    episode_title,
                    m.source_item.extension.as_str(),
                );
                Ok(paths::join(season_dir.as_str(), name.as_str()))
            },
            MediaType::Movie => {
                let suffix = match m.source_item.year {
                    Some(y) => text::concat3(" (", text::decimal_text(y as u64).as_str(), ")"),
                    None => "".to_owned(),
                };
                let safe_title = naming::sanitize_filename(m.library_item.title.as_str());
                let extension = m.source_item.extension.as_str();
                let name = text::concat4(safe_title.as_str(), suffix.as_str(), ".", extension);
                let length = naming::byte_count(name.as_str());
                let filename = if length > naming::NAME_LIMIT {
                    let excess: usize = length - naming::NAME_LIMIT;
                    let kept: usize = naming::byte_count(safe_title.as_str()).saturating_sub(
                        excess,
                    );
                    let short_title = naming::truncate_str_bytes(safe_title.as_str(), kept);
                    text::concat4(short_title.as_str(), suffix.as_str(), ".", extension)
                } else {
                    name
                };
                Ok(paths::join(m.library_item.path.as_str(), filename.as_str()))
            },
        }
    }
}

/// A movie's file name fits the limit wherever the year and the extension alone
/// fit it.
pub proof fn lemma_movie_name_fits(title: Seq<char>, year: Option<u32>, extension: Seq<char>)
    requires
        naming::byte_len(year_suffix(year) + "."@ + extension) <= naming::NAME_LIMIT,
    ensures
        naming::byte_len(movie_name(title, year, extension)) <= naming::NAME_LIMIT,
{
    let safe_title = naming::sanitized(title);
    let tail = year_suffix(year) + "."@ + extension;
    let name = safe_title + year_suffix(year) + "."@ + extension;
    assert(name == safe_title + tail);
    naming::lemma_byte_len_concat(safe_title, tail);
    if naming::byte_len(name) > naming::NAME_LIMIT {
        let excess = naming::over_limit(naming::byte_len(name));
        let kept: nat = if naming::byte_len(safe_title) > excess {
            (naming::byte_len(safe_title) - excess) as nat
        } else {
            0
        };
        naming::lemma_fitted(safe_title, kept);
        let short_title = naming::fitted(safe_title, kept);
        assert(movie_name(title, year, extension) == short_title + tail);
        naming::lemma_byte_len_concat(short_title, tail);
    }
}

/// A match always leads to the same target, whatever else the linker is set to.
pub proof fn lemma_target_is_deterministic(a: &Linker, b: &Linker, m: MatchResult)
    requires
        a.naming_template@ == b.naming_template@,
    ensures
        a.target_path(m) == b.target_path(m),
{
}

// ---------------------------------------------------------------------------
// Where the link of a match goes

/// The directory of a season below a library folder.
pub open spec fn season_directory(folder: Seq<char>, season: u32) -> Seq<char> {
    paths::joined(folder, "Season "@ + text::decimal2(season as nat))
}

proof fn lemma_season_name(season: u32)
    ensures
        paths::is_name("Season "@ + text::decimal2(season as nat)),
{
    reveal_strlit("Season ");
    reveal_strlit(".");
    let number = text::decimal2(season as nat);
    text::lemma_decimal2_tells(season as nat, 0);
    text::lemma_digits_hold(number, '/');
    text::lemma_concat_holds("Season "@, number, '/');
    assert(("Season "@ + number)[0] == 'S');
}

/// Seasons of one folder have directories of their own, one level below the folder.
pub proof fn lemma_season_directories(folder: Seq<char>, a: u32, b: u32)
    ensures
        paths::components(season_directory(folder, a)) == paths::components(folder).push(
            "Season "@ + text::decimal2(a as nat),
        ),
        paths::same(season_directory(folder, a), season_directory(folder, b)) == (a == b),
{
    lemma_season_name(a);
    lemma_season_name(b);
    let x = "Season "@ + text::decimal2(a as nat);
    let y = "Season "@ + text::decimal2(b as nat);
    paths::lemma_joined_components(folder, x);
    paths::lemma_joined_paths_differ(folder, x, folder, y);
    if x == y {
        let n = "Season "@.len() as int;
        assert(x.skip(n) =~= text::decimal2(a as nat));
        assert(y.skip(n) =~= text::decimal2(b as nat));
        text::lemma_decimal2_tells(a as nat, b as nat);
    }
}

/// A file name that is joined to a directory lies in it, and no deeper than one level.
proof fn lemma_lies_in(dir: Seq<char>, name: Seq<char>)
    requires
        !name.contains('/'),
        dir.len() > 0,
    ensures
        paths::below(paths::joined(dir, name), dir),
        paths::components(paths::joined(dir, name)).len() <= paths::components(dir).len() + 1,
{
    let own = paths::components(dir);
    assert(own.subrange(0, own.len() as int) =~= own);
    reveal_strlit("/");
    assert("/"@ =~= seq!['/']);
    if paths::is_name(name) {
        paths::lemma_joined_components(dir, name);
        assert(own.push(name).subrange(0, own.len() as int) =~= own);
    } else {
        paths::lemma_slash_and_dot_change_nothing(dir);
        if name.len() == 0 {
            assert(name =~= Seq::<char>::empty());
            if dir.last() == '/' {
                assert(dir + name =~= dir);
            } else {
                assert(dir + "/"@ + name =~= dir.push('/'));
            }
        }
    }
}

proof fn lemma_episode_name_is_flat(
    template: Seq<char>,
    title: Seq<char>,
    season: u32,
    episode: u32,
    episode_title: Seq<char>,
    extension: Seq<char>,
)
    requires
        !template.contains('/'),
        !extension.contains('/'),
    ensures
        !episode_name(template, title, season, episode, episode_title, extension).contains('/'),
{
    reveal_strlit(".");
    reveal_strlit("");
    let t = naming::sanitized(title);
    let et = naming::sanitized(episode_title);
    naming::lemma_sanitized_is_flat(title);
    naming::lemma_sanitized_is_flat(episode_title);
    let s2 = text::decimal2(season as nat);
    let s1 = text::decimal(season as nat);
    let e2 = text::decimal2(episode as nat);
    let e1 = text::decimal(episode as nat);
    text::lemma_decimal2_tells(season as nat, 0);
    text::lemma_decimal_tells(season as nat, 0);
    text::lemma_decimal2_tells(episode as nat, 0);
    text::lemma_decimal_tells(episode as nat, 0);
    text::lemma_digits_hold(s2, '/');
    text::lemma_digits_hold(s1, '/');
    text::lemma_digits_hold(e2, '/');
    text::lemma_digits_hold(e1, '/');
    text::lemma_replace_holds(template, "{season:02}"@, s2, '/');
    let a = text::replace(template, "{season:02}"@, s2);
    text::lemma_replace_holds(a, "{season}"@, s1, '/');
    let b = text::replace(a, "{season}"@, s1);
    text::lemma_replace_holds(b, "{episode:02}"@, e2, '/');
    let c = text::replace(b, "{episode:02}"@, e2);
    text::lemma_replace_holds(c, "{episode}"@, e1, '/');
    let d = text::replace(c, "{episode}"@, e1);
    text::lemma_replace_holds(d, "{title}"@, t, '/');
    let e = filled_numbers(template, t, season, episode);
    assert(e == text::replace(d, "{title}"@, t));
    text::lemma_replace_holds(e, " - {episode_title}"@, ""@, '/');
    let f = text::replace(e, " - {episode_title}"@, ""@);
    text::lemma_replace_holds(f, "{episode_title} - "@, ""@, '/');
    let g = text::replace(f, "{episode_title} - "@, ""@);
    text::lemma_replace_holds(g, "{episode_title}"@, ""@, '/');
    text::lemma_replace_holds(e, "{episode_title}"@, et, '/');
    let name = filled_title(e, et);
    text::lemma_concat_holds(name, "."@, '/');
    text::lemma_concat_holds(name + "."@, extension, '/');
    naming::lemma_limited_name_is_flat(
        name + "."@ + extension,
        t,
        et,
        season,
        episode,
        extension,
    );
}

/// An episode goes into the directory of its season, under its own name: whatever the
/// titles, the target lies in that directory and no deeper, and in that of no other season. Slashes in the
/// template or in the extension would name further directories.
pub proof fn lemma_episode_goes_into_its_season(linker: Linker, m: MatchResult, other: u32)
    requires
        m.library_item.media_type == MediaType::Tv,
        m.source_item.season is Some,
        m.source_item.episode is Some,
        !linker.naming_template@.contains('/'),
        !m.source_item.extension@.contains('/'),
    ensures
        linker.target_path(m) is Ok,
        ({
            let folder = m.library_item.path@;
            let target = linker.target_path(m)->Ok_0;
            let season = m.source_item.season->0;
            &&& paths::below(target, season_directory(folder, season))
            &&& paths::components(target).len() <= paths::components(folder).len() + 2
            &&& paths::below(target, season_directory(folder, other)) <==> other == season
            &&& target == paths::joined(
                season_directory(folder, season),
                episode_name(
                    linker.naming_template@,
                    m.library_item.title@,
                    season,
                    m.source_item.episode->0,
                    if m.episode_title is Some {
                        m.episode_title->0@
                    } else {
                        ""@
                    },
                    m.source_item.extension@,
                ),
            )
        }),
{
    let folder = m.library_item.path@;
    let season = m.source_item.season->0;
    let target = linker.target_path(m)->Ok_0;
    let dir = season_directory(folder, season);
    lemma_episode_name_is_flat(
        linker.naming_template@,
        m.library_item.title@,
        season,
        m.source_item.episode->0,
        text_or_empty(m.episode_title),
        m.source_item.extension@,
    );
    lemma_season_directories(folder, season, other);
    lemma_season_directories(folder, other, other);
    reveal_strlit("Season ");
    assert(dir.len() > 0);
    let name = episode_name(
        linker.naming_template@,
        m.library_item.title@,
        season,
        m.source_item.episode->0,
        text_or_empty(m.episode_title),
        m.source_item.extension@,
    );
    assert(target == paths::joined(dir, name));
    lemma_lies_in(dir, name);
    let own = paths::components(dir);
    let rival = paths::components(season_directory(folder, other));
    let all = paths::components(target);
    if rival.is_prefix_of(all) {
        assert(own.is_prefix_of(all));
        assert(own.len() == rival.len());
        assert(rival =~= own);
    }
}

/// Two episodes of one folder share the directory of their targets exactly where they are
/// of one season.
pub proof fn lemma_episodes_share_seasons(linker: Linker, a: MatchResult, b: MatchResult)
    requires
        a.library_item.media_type == MediaType::Tv,
        b.library_item.media_type == MediaType::Tv,
        a.library_item.path@ == b.library_item.path@,
        a.source_item.season is Some,
        a.source_item.episode is Some,
        b.source_item.season is Some,
        b.source_item.episode is Some,
        !linker.naming_template@.contains('/'),
        !a.source_item.extension@.contains('/'),
        !b.source_item.extension@.contains('/'),
    ensures
        (exists|season: u32|
            paths::below(
                linker.target_path(a)->Ok_0,
                #[trigger] season_directory(a.library_item.path@, season),
            ) && paths::below(
                linker.target_path(b)->Ok_0,
                season_directory(a.library_item.path@, season),
            )) <==> a.source_item.season == b.source_item.season,
{
    let folder = a.library_item.path@;
    lemma_episode_goes_into_its_season(linker, a, a.source_item.season->0);
    lemma_episode_goes_into_its_season(linker, b, a.source_item.season->0);
    assert forall|season: u32|
        paths::below(
            linker.target_path(a)->Ok_0,
            #[trigger] season_directory(folder, season),
        ) && paths::below(
            linker.target_path(b)->Ok_0,
            season_directory(folder, season),
        ) implies a.source_item.season == b.source_item.season by {
        lemma_episode_goes_into_its_season(linker, a, season);
        lemma_episode_goes_into_its_season(linker, b, season);
    }
    if a.source_item.season == b.source_item.season {
        assert(paths::below(
            linker.target_path(b)->Ok_0,
            season_directory(folder, a.source_item.season->0),
        ));
    }
}

/// A match has a target unless it is an episode without a season or without a number, and
/// then the first of these that is missing is told.
pub proof fn lemma_targets_are_owed(linker: Linker, m: MatchResult)
    ensures
        m.library_item.media_type == MediaType::Movie ==> linker.target_path(m) is Ok,
        m.library_item.media_type == MediaType::Tv ==> (linker.target_path(m) is Ok
            <==> m.source_item.season is Some && m.source_item.episode is Some),
        linker.target_path(m) == Err::<Seq<char>, TargetPathError>(TargetPathError::MissingSeason)
            <==> m.library_item.media_type == MediaType::Tv && m.source_item.season is None,
        linker.target_path(m) == Err::<Seq<char>, TargetPathError>(TargetPathError::MissingEpisode)
            <==> m.library_item.media_type == MediaType::Tv && m.source_item.season is Some
            && m.source_item.episode is None,
{
}

/// The name of an episode is its template filled in with the sanitized titles and the
/// extension behind it, where that fits the limit.
pub proof fn lemma_episode_is_named_after_its_template(
    segments: Seq<Seq<char>>,
    title: Seq<char>,
    season: u32,
    episode: u32,
    episode_title: Seq<char>,
    extension: Seq<char>,
)
    requires
        template::are_segments(segments),
        template::is_plain(naming::sanitized(title)),
        naming::sanitized(episode_title).len() > 0,
        naming::byte_len(
            template::run(
                template::named_after(
                    segments,
                    naming::sanitized(title),
                    season,
                    episode,
                    naming::sanitized(episode_title),
                ),
            ) + "."@ + extension,
        ) <= 250,
    ensures
        episode_name(template::run(segments), title, season, episode, episode_title, extension)
            == template::run(
            template::named_after(
                segments,
                naming::sanitized(title),
                season,
                episode,
                naming::sanitized(episode_title),
            ),
        ) + "."@ + extension,
{
    template::lemma_all_is_filled_in(
        segments,
        naming::sanitized(title),
        season,
        episode,
        naming::sanitized(episode_title),
    );
}

/// ` (year)` where there is a year, a dot and the extension.
pub open spec fn movie_tail(year: Option<u32>, extension: Seq<char>) -> Seq<char> {
    (match year {
        Some(y) => " ("@ + text::decimal(y as nat) + ")"@,
        None => Seq::<char>::empty(),
    }) + "."@ + extension
}

/// The name of a movie is the sanitized title, the year in brackets where there is one, and
/// the extension; where that is too long only the title is cut.
pub proof fn lemma_movie_name_is_made(title: Seq<char>, year: Option<u32>, extension: Seq<char>) -> (
    kept: Seq<char>)
    ensures
        movie_name(title, year, extension) == kept + movie_tail(year, extension),
        kept.is_prefix_of(naming::sanitized(title)),
        naming::byte_len(naming::sanitized(title) + movie_tail(year, extension)) <= 250 ==> kept
            == naming::sanitized(title),
{
    reveal_strlit("");
    let safe = naming::sanitized(title);
    let suffix = year_suffix(year);
    let tail = movie_tail(year, extension);
    assert(suffix + "."@ + extension =~= tail);
    let full = safe + suffix + "."@ + extension;
    assert(full =~= safe + tail);
    assert(safe.is_prefix_of(safe));
    if naming::byte_len(full) > naming::NAME_LIMIT {
        let excess = naming::over_limit(naming::byte_len(full));
        let left: nat = if naming::byte_len(safe) > excess {
            (naming::byte_len(safe) - excess) as nat
        } else {
            0
        };
        naming::lemma_fitted(safe, left);
        let kept = naming::fitted(safe, left);
        assert(movie_name(title, year, extension) =~= kept + tail);
        kept
    } else {
        safe
    }
}

proof fn lemma_movie_tail_is_flat(year: Option<u32>, extension: Seq<char>)
    requires
        !extension.contains('/'),
    ensures
        !movie_tail(year, extension).contains('/'),
{
    reveal_strlit(".");
    reveal_strlit(" (");
    reveal_strlit(")");
    let suffix = match year {
        Some(y) => " ("@ + text::decimal(y as nat) + ")"@,
        None => Seq::<char>::empty(),
    };
    if let Some(y) = year {
        text::lemma_decimal_tells(y as nat, 0);
        text::lemma_digits_hold(text::decimal(y as nat), '/');
        text::lemma_concat_holds(" ("@, text::decimal(y as nat), '/');
        text::lemma_concat_holds(" ("@ + text::decimal(y as nat), ")"@, '/');
    }
    text::lemma_concat_holds(suffix, "."@, '/');
    text::lemma_concat_holds(suffix + "."@, extension, '/');
}

/// A movie goes into its library folder, and no deeper, under its own name.
pub proof fn lemma_movie_goes_into_its_folder(linker: Linker, m: MatchResult)
    requires
        m.library_item.media_type == MediaType::Movie,
        m.library_item.path@.len() > 0,
        !m.source_item.extension@.contains('/'),
    ensures
        linker.target_path(m) is Ok,
        paths::below(linker.target_path(m)->Ok_0, m.library_item.path@),
        paths::components(linker.target_path(m)->Ok_0).len() <= paths::components(
            m.library_item.path@,
        ).len() + 1,
        linker.target_path(m)->Ok_0 == paths::joined(
            m.library_item.path@,
            movie_name(
                m.library_item.title@,
                m.source_item.year,
                m.source_item.extension@,
            ),
        ),
{
    let safe = naming::sanitized(m.library_item.title@);
    let year = m.source_item.year;
    let extension = m.source_item.extension@;
    let kept = lemma_movie_name_is_made(m.library_item.title@, year, extension);
    naming::lemma_sanitized_is_flat(m.library_item.title@);
    if kept.contains('/') {
        let i = choose|i: int| 0 <= i < kept.len() && kept[i] == '/';
        assert(safe.subrange(0, kept.len() as int)[i] == safe[i]);
    }
    lemma_movie_tail_is_flat(year, extension);
    text::lemma_concat_holds(kept, movie_tail(year, extension), '/');
    lemma_lies_in(
        m.library_item.path@,
        movie_name(m.library_item.title@, year, extension),
    );
}

/// A reason that is counted has one more, and every other as many as before.
pub proof fn lemma_counting_changes_one(
    reasons: Map<Seq<char>, u64>,
    reason: Seq<char>,
    other: Seq<char>,
)
    requires
        reason_count(reasons, reason) < u64::MAX,
    ensures
        reason_count(counted(reasons, reason), reason) == reason_count(reasons, reason) + 1,
        other != reason ==> reason_count(counted(reasons, reason), other) == reason_count(
            reasons,
            other,
        ),
        reason_count(Map::<Seq<char>, u64>::empty(), reason) == 0,
{
}

/// The name of an episode without a title is its template filled in, without the episode
/// title's placeholder and the dash before it, and the extension behind it, where that fits
/// the limit.
pub proof fn lemma_episode_without_title_is_named(
    segments: Seq<Seq<char>>,
    tail: Seq<char>,
    title: Seq<char>,
    season: u32,
    episode: u32,
    extension: Seq<char>,
)
    requires
        template::are_segments(segments),
        template::is_plain(tail),
        forall|i: int|
            0 <= i < segments.len() ==> template::is_plain(
                template::value_of(
                    #[trigger] segments[i],
                    naming::sanitized(title),
                    season,
                    episode,
                ),
            ),
        naming::byte_len(
            template::run(
                segments.map_values(
                    |s: Seq<char>|
                        template::value_of(s, naming::sanitized(title), season, episode),
                ),
            ) + tail + "."@ + extension,
        ) <= 250,
    ensures
        episode_name(
            template::run(segments) + " - {episode_title}"@ + tail,
            title,
            season,
            episode,
            Seq::<char>::empty(),
            extension,
        ) == template::run(
            segments.map_values(
                |s: Seq<char>| template::value_of(s, naming::sanitized(title), season, episode),
            ),
        ) + tail + "."@ + extension,
{
    template::lemma_filled_in_without_episode_title(
        segments,
        tail,
        naming::sanitized(title),
        season,
        episode,
    );
    naming::lemma_sanitized_keeps_the_rest(Seq::<char>::empty());
    assert(naming::sanitized(Seq::<char>::empty()) =~= Seq::<char>::empty());
}

} // verus!
