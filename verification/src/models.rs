//! The values that the library's rules speak of.

use vstd::prelude::*;
use crate::config::ContentType;
use crate::paths;
use crate::text;

verus! {

/// What a library holds.
#[derive(Debug, Clone, Copy, PartialEq, Eq, Structural)]
pub enum MediaType {
    Tv,
    Movie,
}

/// The database that a title's number comes from.
#[derive(Debug, Clone, Copy, PartialEq, Eq, Structural)]
pub enum MediaId {
    Tvdb(u64),
    Tmdb(u64),
}

impl MediaId {
    /// `tvdb-N` or `tmdb-N`.
    pub open spec fn spelled(&self) -> Seq<char> {
        match *self {
            MediaId::Tvdb(n) => "tvdb-"@ + text::decimal(n as nat),
            MediaId::Tmdb(n) => "tmdb-"@ + text::decimal(n as nat),
        }
    }

    /// The id as it stands in folder tags and records.
    pub fn label(&self) -> (out: String)
        ensures
            out@ == self.spelled(),
    {
        match *self {
            MediaId::Tvdb(n) => {
                let mut out: String = "tvdb-".to_owned();
                out.append(text::decimal_text(n).as_str());
                out
            },
            MediaId::Tmdb(n) => {
                let mut out: String = "tmdb-".to_owned();
                out.append(text::decimal_text(n).as_str());
                out
            },
        }
    }
}

/// A tagged folder of a library.
#[derive(Debug, PartialEq, Eq)]
pub struct LibraryItem {
    pub id: MediaId,
    pub path: String,
    pub title: String,
    pub library_name: String,
    pub media_type: MediaType,
    pub content_type: ContentType,
}

impl Clone for LibraryItem {
    fn clone(&self) -> (out: Self)
        ensures
            out == *self,
    {
        LibraryItem {
            id: self.id,
            path: self.path.clone(),
            title: self.title.clone(),
            library_name: self.library_name.clone(),
            media_type: self.media_type,
            content_type: self.content_type,
        }
    }
}

/// A media file below a source root.
#[derive(Debug, PartialEq, Eq)]
pub struct SourceItem {
    pub path: String,
    pub parsed_title: String,
    pub season: Option<u32>,
    pub episode: Option<u32>,
    pub episode_end: Option<u32>,
    pub quality: Option<String>,
    pub extension: String,
    pub year: Option<u32>,
}

impl Clone for SourceItem {
    fn clone(&self) -> (out: Self)
        ensures
            out == *self,
    {
        SourceItem {
            path: self.path.clone(),
            parsed_title: self.parsed_title.clone(),
            season: self.season,
            episode: self.episode,
            episode_end: self.episode_end,
            quality: self.quality.clone(),
            extension: self.extension.clone(),
            year: self.year,
        }
    }
}

/// A source file that was matched to a library folder.
#[derive(Debug, PartialEq, Eq)]
pub struct MatchResult {
    pub library_item: LibraryItem,
    pub source_item: SourceItem,
    pub matched_alias: String,
    pub episode_title: Option<String>,
}

impl Clone for MatchResult {
    fn clone(&self) -> (out: Self)
        ensures
            out == *self,
    {
        MatchResult {
            library_item: self.library_item.clone(),
            source_item: self.source_item.clone(),
            matched_alias: self.matched_alias.clone(),
            episode_title: self.episode_title.clone(),
        }
    }
}

/// The state of a recorded link.
#[derive(Debug, Clone, Copy, PartialEq, Eq, Structural)]
pub enum LinkStatus {
    Active,
    Dead,
    Removed,
}

/// A recorded link.
#[derive(Debug, PartialEq, Eq)]
pub struct LinkRecord {
    pub id: Option<i64>,
    pub source_path: String,
    pub target_path: String,
    pub media_id: String,
    pub media_type: MediaType,
    pub status: LinkStatus,
    pub created_at: Option<String>,
    pub updated_at: Option<String>,
}

impl Clone for LinkRecord {
    fn clone(&self) -> (out: Self)
        ensures
            out == *self,
    {
        LinkRecord {
            id: self.id,
            source_path: self.source_path.clone(),
            target_path: self.target_path.clone(),
            media_id: self.media_id.clone(),
            media_type: self.media_type,
            status: self.status,
            created_at: self.created_at.clone(),
            updated_at: self.updated_at.clone(),
        }
    }
}

/// What a probe of a path found.
#[derive(Debug, PartialEq, Eq)]
pub enum PathHealth {
    Healthy,
    Missing,
    TransportDisconnected,
    Timeout,
    IoError(String),
}

impl Clone for PathHealth {
    fn clone(&self) -> (out: Self)
        ensures
            out == *self,
    {
        match self {
            PathHealth::Healthy => PathHealth::Healthy,
            PathHealth::Missing => PathHealth::Missing,
            PathHealth::TransportDisconnected => PathHealth::TransportDisconnected,
            PathHealth::Timeout => PathHealth::Timeout,
            PathHealth::IoError(reason) => PathHealth::IoError(reason.clone()),
        }
    }
}

impl PathHealth {
    /// Whether the path can be used.
    pub fn is_healthy(&self) -> (b: bool)
        ensures
            b == (*self == PathHealth::Healthy),
    {
        match self {
            PathHealth::Healthy => true,
            _ => false,
        }
    }

    /// Whether nothing may be deleted on the strength of this finding: the
    /// mount did not answer, so an absent file may still exist.
    pub open spec fn blocks(&self) -> bool {
        *self is TransportDisconnected || *self is Timeout || *self is IoError
    }

    /// Whether nothing may be deleted on the strength of this finding.
    pub fn blocks_destructive_ops(&self) -> (b: bool)
        ensures
            b == self.blocks(),
    {
        match self {
            PathHealth::Healthy => false,
            PathHealth::Missing => false,
            _ => true,
        }
    }

    /// The finding in words.
    pub open spec fn described(&self, path: Seq<char>) -> Seq<char> {
        path + match *self {
            PathHealth::Healthy => " is healthy"@,
            PathHealth::Missing => " is missing"@,
            PathHealth::TransportDisconnected => " is on a disconnected mount"@,
            PathHealth::Timeout => " timed out"@,
            PathHealth::IoError(reason) => " failed: "@ + reason@,
        }
    }

    /// The finding in words.
    pub fn describe(&self, path: &str) -> (out: String)
        ensures
            out@ == self.described(path@),
    {
        let mut out: String = path.to_owned();
        match self {
            PathHealth::Healthy => out.append(" is healthy"),
            PathHealth::Missing => out.append(" is missing"),
            PathHealth::TransportDisconnected => out.append(" is on a disconnected mount"),
            PathHealth::Timeout => out.append(" timed out"),
            PathHealth::IoError(reason) => {
                out.append(" failed: ");
                out.append(reason.as_str());
                assert(out@ == path@ + (" failed: "@ + reason@));
            },
        }
        out
    }
}

/// What stands at a path, without following a link.
#[derive(Debug, PartialEq, Eq)]
pub enum PathState {
    /// Nothing, or nothing that can be inspected, and what the system says of that.
    Absent(String),
    Directory,
    /// Neither a directory nor a symlink.
    File,
    /// A symlink and what it holds, or what the system says where that cannot be read.
    Symlink(Result<String, String>),
}

impl PathState {
    /// Whether this is a symlink that holds the path `source`.
    pub open spec fn links_to(&self, source: Seq<char>) -> bool {
        match *self {
            PathState::Symlink(Ok(held)) => paths::same(held@, source),
            _ => false,
        }
    }

    /// Whether this is a symlink that holds the path `source`.
    pub fn is_link_to(&self, source: &str) -> (b: bool)
        ensures
            b == self.links_to(source@),
    {
        match self {
            PathState::Symlink(Ok(held)) => paths::same_path(held.as_str(), source),
            _ => false,
        }
    }
}

/// An id is spelled after its database and its number, and no two ids are spelled alike.
pub proof fn lemma_ids_are_spelled_apart(a: MediaId, b: MediaId)
    ensures
        a.spelled() == b.spelled() ==> a == b,
        a matches MediaId::Tvdb(n) ==> a.spelled() == "tvdb-"@ + text::decimal(n as nat),
        a matches MediaId::Tmdb(n) ==> a.spelled() == "tmdb-"@ + text::decimal(n as nat),
{
    reveal_strlit("tvdb-");
    reveal_strlit("tmdb-");
    let n: nat = match a {
        MediaId::Tvdb(n) => n as nat,
        MediaId::Tmdb(n) => n as nat,
    };
    let m: nat = match b {
        MediaId::Tvdb(m) => m as nat,
        MediaId::Tmdb(m) => m as nat,
    };
    text::lemma_decimal_tells(n, m);
    if a.spelled() == b.spelled() {
        assert(a.spelled()[1] == b.spelled()[1]);
        assert(a.spelled().skip(5) =~= text::decimal(n));
        assert(b.spelled().skip(5) =~= text::decimal(m));
    }
}

/// A symlink leads to a source exactly where it can be read and holds a spelling of its
/// path; nothing else leads anywhere.
pub proof fn lemma_only_symlinks_lead(state: PathState, source: Seq<char>)
    ensures
        state.links_to(source) ==> state is Symlink,
        state matches PathState::Symlink(Ok(held)) ==> state.links_to(source) == (
        paths::components(held@) == paths::components(source)),
        state matches PathState::Symlink(Err(_)) ==> !state.links_to(source),
{
}

/// A finding is worded after its path, and a reason is passed on.
pub proof fn lemma_findings_are_worded(health: PathHealth, path: Seq<char>)
    ensures
        text::begins(health.described(path), path),
        health matches PathHealth::IoError(reason) ==> text::ends(health.described(path), reason@),
        health.described(path).len() > path.len(),
        health is Healthy ==> health.described(path) == path + " is healthy"@,
        health is Missing ==> health.described(path) == path + " is missing"@,
        health is TransportDisconnected ==> health.described(path) == path
            + " is on a disconnected mount"@,
        health is Timeout ==> health.described(path) == path + " timed out"@,
        health matches PathHealth::IoError(reason) ==> health.described(path) == path
            + " failed: "@ + reason@,
{
    reveal_strlit(" is healthy");
    reveal_strlit(" is missing");
    reveal_strlit(" is on a disconnected mount");
    reveal_strlit(" timed out");
    reveal_strlit(" failed: ");
    let words = health.described(path);
    assert(words.subrange(0, path.len() as int) =~= path);
    if let PathHealth::IoError(reason) = health {
        assert(words.subrange(words.len() - reason@.len(), words.len() as int) =~= reason@);
    }
}

} // verus!
