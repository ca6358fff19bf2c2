//! What an import of existing media reports.

use vstd::prelude::*;

verus! {

/// How far an import goes.
#[derive(Debug, Clone, Copy, PartialEq, Eq, Structural)]
pub enum ImportModeReport {
    Preview,
    Safe,
    Aggressive,
}

/// What an import takes its source to hold.
#[derive(Debug, Clone, Copy, PartialEq, Eq, Structural)]
pub enum ImportContentReport {
    Movie,
    Tv,
    Anime,
    Auto,
}

/// How much of the metadata an import reads.
#[derive(Debug, Clone, Copy, PartialEq, Eq, Structural)]
pub enum ImportMetadataModeReport {
    Fast,
    Probe,
    Strict,
}

/// What the source of an import is.
#[derive(Debug, Clone, Copy, PartialEq, Eq, Structural)]
pub enum ImportSourceShape {
    Missing,
    File,
    DirectItem,
    MultiItemFolder,
    BroadProviderRoot,
    EmptyFolder,
}

/// What a candidate of an import is.
#[derive(Debug, Clone, Copy, PartialEq, Eq, Structural)]
pub enum ImportCandidateKind {
    File,
    Folder,
}

/// Where the id of a candidate comes from.
#[derive(Debug, Clone, Copy, PartialEq, Eq, Structural)]
pub enum ImportResolutionSource {
    ExplicitId,
    CachedMetadata,
    TmdbLookup,
    TvdbLookup,
    Unresolved,
}

/// How sure an import is of a candidate.
#[derive(Debug, Clone, Copy, PartialEq, Eq, Structural)]
pub enum ImportConfidence {
    High,
    Medium,
    Low,
    Ambiguous,
}

/// What an import decided on a candidate.
#[derive(Debug, Clone, Copy, PartialEq, Eq, Structural)]
pub enum ImportDecision {
    Preview,
    NeedsLookup,
    NeedsReview,
    Skipped,
    Created,
    Updated,
    WouldCreate,
    WouldUpdate,
}

/// What an import writes for a candidate.
#[derive(Debug, Clone, Copy, PartialEq, Eq, Structural)]
pub enum ImportWriteAction {
    Nothing,
    Create,
    Update,
    Skip,
}

/// Where an import puts what it finds.
#[derive(Debug, Clone, PartialEq, Eq)]
pub struct ImportDestinations {
    pub destination: Option<String>,
    pub movie_destination: Option<String>,
    pub tv_destination: Option<String>,
    pub anime_destination: Option<String>,
    pub rules: Option<String>,
}

impl Default for ImportDestinations {
    fn default() -> (out: Self)
        ensures
            out.destination is None,
            out.movie_destination is None,
            out.tv_destination is None,
            out.anime_destination is None,
            out.rules is None,
    {
        ImportDestinations {
            destination: None,
            movie_destination: None,
            tv_destination: None,
            anime_destination: None,
            rules: None,
        }
    }
}

/// What an import found out about a candidate.
#[derive(Debug, Clone, PartialEq, Eq)]
pub struct ImportCandidateReport {
    pub source_path: String,
    pub target_path: Option<String>,
    pub kind: ImportCandidateKind,
    pub title_hint: String,
    pub year_hint: Option<u32>,
    pub explicit_media_id: Option<String>,
    pub resolved_title: Option<String>,
    pub resolved_year: Option<u32>,
    pub probed_resolution: Option<String>,
    pub video_codec: Option<String>,
    pub hdr_formats: Vec<String>,
    pub audio_languages: Vec<String>,
    pub subtitle_languages: Vec<String>,
    pub resolution_source: ImportResolutionSource,
    pub confidence: ImportConfidence,
    pub decision: ImportDecision,
    pub action: ImportWriteAction,
    pub reason: Option<String>,
}

/// How many candidates an import found, by kind and outcome.
#[derive(Debug, Clone, PartialEq, Eq)]
pub struct ImportSummary {
    pub candidates: usize,
    pub files: usize,
    pub folders: usize,
    pub movies: usize,
    pub tv: usize,
    pub anime: usize,
    pub unknown_content: usize,
    pub high_confidence: usize,
    pub medium_confidence: usize,
    pub low_confidence: usize,
    pub ambiguous_confidence: usize,
    pub explicit_ids: usize,
    pub needs_lookup: usize,
    pub skipped: usize,
    pub would_create: usize,
    pub would_update: usize,
    pub created: usize,
    pub updated: usize,
}

impl Default for ImportSummary {
    fn default() -> (out: Self)
        ensures
            out.candidates == 0,
            out.files == 0,
            out.folders == 0,
            out.movies == 0,
            out.tv == 0,
            out.anime == 0,
            out.unknown_content == 0,
            out.high_confidence == 0,
            out.medium_confidence == 0,
            out.low_confidence == 0,
            out.ambiguous_confidence == 0,
            out.explicit_ids == 0,
            out.needs_lookup == 0,
            out.skipped == 0,
            out.would_create == 0,
            out.would_update == 0,
            out.created == 0,
            out.updated == 0,
    {
        ImportSummary {
            candidates: 0,
            files: 0,
            folders: 0,
            movies: 0,
            tv: 0,
            anime: 0,
            unknown_content: 0,
            high_confidence: 0,
            medium_confidence: 0,
            low_confidence: 0,
            ambiguous_confidence: 0,
            explicit_ids: 0,
            needs_lookup: 0,
            skipped: 0,
            would_create: 0,
            would_update: 0,
            created: 0,
            updated: 0,
        }
    }
}

/// The routing rules of an import.
#[derive(Debug, Clone, PartialEq, Eq)]
pub struct ImportRulesSummary {
    pub loaded: bool,
    pub movie_default: Option<String>,
    pub tv_default: Option<String>,
    pub anime_default: Option<String>,
    pub movie_routes: usize,
    pub tv_routes: usize,
    pub anime_routes: usize,
}

impl Default for ImportRulesSummary {
    fn default() -> (out: Self)
        ensures
            !out.loaded,
            out.movie_default is None,
            out.tv_default is None,
            out.anime_default is None,
            out.movie_routes == 0,
            out.tv_routes == 0,
            out.anime_routes == 0,
    {
        ImportRulesSummary {
            loaded: false,
            movie_default: None,
            tv_default: None,
            anime_default: None,
            movie_routes: 0,
            tv_routes: 0,
            anime_routes: 0,
        }
    }
}

/// The report of an import.
#[derive(Debug, Clone, PartialEq, Eq)]
pub struct ImportReport {
    pub version: u32,
    pub source: String,
    pub source_shape: ImportSourceShape,
    pub mode: ImportModeReport,
    pub content_type: ImportContentReport,
    pub metadata_mode: ImportMetadataModeReport,
    pub destinations: ImportDestinations,
    pub rules_summary: Option<ImportRulesSummary>,
    pub summary: ImportSummary,
    pub candidates: Vec<ImportCandidateReport>,
    pub warnings: Vec<String>,
    pub handoff: Vec<String>,
}

} // verus!
