//! The rules that a configuration must meet.

use vstd::prelude::*;
use crate::config::{Config, SourceConfig, LibraryConfig, ValidationReport};
use crate::models::PathHealth;
use crate::paths;
use crate::tables::PathMap;
use crate::text;

verus! {

/// The permissions of a path.
#[derive(Debug, Clone, Copy, PartialEq, Eq, Structural)]
pub enum PathMode {
    /// Nothing is there.
    Absent,
    /// Something is there that cannot be inspected.
    Unreadable,
    /// The permission bits.
    Mode(u32),
}

/// What was found at the paths that a configuration names. A path without an
/// entry is missing.
#[derive(Debug)]
pub struct Surroundings {
    pub health: PathMap<PathHealth>,
    pub modes: PathMap<PathMode>,
}

impl Surroundings {
    pub open spec fn wf(&self) -> bool {
        self.health.wf() && self.modes.wf()
    }

    /// The health of a path.
    pub open spec fn health_of(&self, path: Seq<char>) -> PathHealth {
        if self.health@.contains_key(paths::components(path)) {
            self.health@[paths::components(path)]
        } else {
            PathHealth::Missing
        }
    }

    /// The permissions of a path.
    pub open spec fn mode_of(&self, path: Seq<char>) -> PathMode {
        if self.modes@.contains_key(paths::components(path)) {
            self.modes@[paths::components(path)]
        } else {
            PathMode::Absent
        }
    }

    /// Surroundings in which every path is missing.
    pub fn new() -> (out: Self)
        ensures
            out.wf(),
            out.health@ == Map::<Seq<Seq<char>>, PathHealth>::empty(),
            out.modes@ == Map::<Seq<Seq<char>>, PathMode>::empty(),
    {
        Surroundings { health: PathMap::new(), modes: PathMap::new() }
    }
}

/// Whether a service has a URL but no key.
pub open spec fn lacks_key(url: Seq<char>, key: Seq<char>) -> bool {
    text::trim(url).len() > 0 && text::trim(key).len() == 0
}

/// Whether a service has a URL but no key.
pub fn cfg_has_url_without_key(url: &str, api_key: &str) -> (b: bool)
    ensures
        b == lacks_key(url@, api_key@),
{
    !text::is_blank(url) && text::is_blank(api_key)
}

/// `auto`, `anime`, `tv` or `movie`.
pub open spec fn names_source_type(value: Seq<char>) -> bool {
    let name = text::trim(value);
    name == "auto"@ || name == "anime"@ || name == "tv"@ || name == "movie"@
}

/// Whether the value names a kind of source.
pub fn is_valid_source_media_type(value: &str) -> (b: bool)
    ensures
        b == names_source_type(value@),
{
    let name = text::trimmed(value);
    text::text_eq(name.as_str(), "auto") || text::text_eq(name.as_str(), "anime") || text::text_eq(
        name.as_str(),
        "tv",
    ) || text::text_eq(name.as_str(), "movie")
}

// ---------------------------------------------------------------------------
// The naming template

/// The placeholders that a template may hold.
pub open spec fn is_placeholder(part: Seq<char>) -> bool {
    part == "{title}"@ || part == "{season}"@ || part == "{season:02}"@ || part == "{episode}"@
        || part == "{episode:02}"@ || part == "{episode_title}"@
}

/// The position of the first brace at or behind `from`, or the length.
pub open spec fn next_brace(template: Seq<char>, from: int) -> int
    decreases template.len() - from,
{
    if from >= template.len() || from < 0 {
        template.len() as int
    } else if template[from] == '{' || template[from] == '}' {
        from
    } else {
        next_brace(template, from + 1)
    }
}

/// The text in braces that opens at `at` and closes before any other brace opens.
pub open spec fn braced_at(template: Seq<char>, at: int) -> Option<Seq<char>> {
    let end = next_brace(template, at + 1);
    if template[at] == '{' && end < template.len() && template[end] == '}' {
        Some(template.subrange(at, end + 1))
    } else {
        None
    }
}

/// An error for each unknown text in braces that opens before `upto`.
pub open spec fn unknown_placeholders(template: Seq<char>, upto: int) -> Seq<Seq<char>>
    decreases upto,
{
    if upto <= 0 {
        Seq::<Seq<char>>::empty()
    } else {
        unknown_placeholders(template, upto - 1) + match braced_at(template, upto - 1) {
            Some(part) => text::when(
                !is_placeholder(part),
                "Unknown naming_template placeholder: "@ + part,
            ),
            None => Seq::<Seq<char>>::empty(),
        }
    }
}

/// What is wrong with a template: unknown placeholders, and no episode number.
pub open spec fn template_errors(template: Seq<char>) -> Seq<Seq<char>> {
    unknown_placeholders(template, template.len() as int) + text::when(
        !text::has_part(template, "{episode}"@) && !text::has_part(template, "{episode:02}"@),
        "naming_template must contain at least one episode placeholder: {episode} or {episode:02}"@,
    )
}

fn known_placeholder(part: &str) -> (b: bool)
    ensures
        b == is_placeholder(part@),
{
    text::text_eq(part, "{title}") || text::text_eq(part, "{season}") || text::text_eq(
        part,
        "{season:02}",
    ) || text::text_eq(part, "{episode}") || text::text_eq(part, "{episode:02}") || text::text_eq(
        part,
        "{episode_title}",
    )
}

/// Reports what is wrong with the naming template.
pub fn validate_naming_template(template: &str, report: &mut ValidationReport)
    ensures
        text::views(final(report).errors@) == text::views(old(report).errors@) + template_errors(
            template@,
        ),
        final(report).warnings == old(report).warnings,
{
    let chars = text::chars_of(template);
    let ghost before = text::views(report.errors@);
    let mut i: usize = 0;
    assert(before + unknown_placeholders(template@, 0) == before);
    while i < chars.len()
        invariant
            i <= chars@.len(),
            chars@ == template@,
            report.warnings == old(report).warnings,
            text::views(report.errors@) == before + unknown_placeholders(template@, i as int),
        decreases chars@.len() - i,
    {
        let ghost so_far = text::views(report.errors@);
        if chars[i] == '{' {
            let mut end: usize = i + 1;
            while end < chars.len() && chars[end] != '{' && chars[end] != '}'
                invariant
                    i < end <= chars@.len(),
                    chars@ == template@,
                    next_brace(template@, i + 1) == next_brace(template@, end as int),
                decreases chars@.len() - end,
            {
                end += 1;
            }
            assert(next_brace(template@, i + 1) == end);
            if end < chars.len() && chars[end] == '}' {
                let part = text::text_between(&chars, i, end + 1);
                let unknown = !known_placeholder(part.as_str());
                let message = text::concat2("Unknown naming_template placeholder: ", part.as_str());
                text::note_when(&mut report.errors, unknown, message.as_str());
                assert(braced_at(template@, i as int) == Some(part@));
            } else {
                assert(braced_at(template@, i as int) is None);
                assert(so_far + Seq::<Seq<char>>::empty() == so_far);
            }
        } else {
            assert(braced_at(template@, i as int) is None);
            assert(so_far + Seq::<Seq<char>>::empty() == so_far);
        }
        i += 1;
        assert(text::views(report.errors@) == before + unknown_placeholders(template@, i as int));
    }
    let has_episode = text::contains_text(template, "{episode}") || text::contains_text(
        template,
        "{episode:02}",
    );
    text::note_when(
        &mut report.errors,
        !has_episode,
        "naming_template must contain at least one episode placeholder: {episode} or {episode:02}",
    );
    assert(text::views(report.errors@) =~= before + template_errors(template@));
}

// ---------------------------------------------------------------------------
// Permissions

/// A path that exists is private: neither group nor others may use it.
pub open spec fn private_errors(path: Seq<char>, label: Seq<char>, mode: PathMode) -> Seq<
    Seq<char>,
> {
    match mode {
        PathMode::Absent => Seq::<Seq<char>>::empty(),
        PathMode::Unreadable => seq![
            label + " could not be inspected for permissions: "@ + path,
        ],
        PathMode::Mode(bits) => text::when(
            bits % 64 != 0,
            label + " must not be group/world accessible: "@ + path + " (mode "@ + text::octal(
                (bits % 512) as nat,
            ) + ")"@,
        ),
    }
}

fn validate_private_path(path: &str, label: &str, mode: PathMode, list: &mut Vec<String>)
    ensures
        text::views(final(list)@) == text::views(old(list)@) + private_errors(path@, label@, mode),
{
    let ghost before = text::views(list@);
    match mode {
        PathMode::Absent => {
            assert(before + Seq::<Seq<char>>::empty() == before);
        },
        PathMode::Unreadable => {
            let message = text::concat3(label, " could not be inspected for permissions: ", path);
            text::note_when(list, true, message.as_str());
        },
        PathMode::Mode(bits) => {
            let message = text::concat6(
                label,
                " must not be group/world accessible: ",
                path,
                " (mode ",
                text::octal_text((bits % 512) as u64).as_str(),
                ")",
            );
            text::note_when(list, bits % 64 != 0, message.as_str());
        },
    }
}

/// Errors for secret files that are not private.
pub open spec fn secret_file_errors(files: Seq<String>, facts: Surroundings) -> Seq<Seq<char>>
    decreases files.len(),
{
    if files.len() == 0 {
        Seq::<Seq<char>>::empty()
    } else {
        secret_file_errors(files.drop_last(), facts) + private_errors(
            files.last()@,
            "secretfile"@,
            facts.mode_of(files.last()@),
        )
    }
}

// ---------------------------------------------------------------------------
// Paths

/// The error for a directory that is relative or not healthy; `remedy` is added
/// where its mount is disconnected.
pub open spec fn directory_errors(
    kind: Seq<char>,
    name: Seq<char>,
    path: Seq<char>,
    remedy: Seq<char>,
    health: PathHealth,
) -> Seq<Seq<char>> {
    let head = kind + " '"@ + name + "' path "@;
    if !paths::rooted(path) {
        seq![head + "must be absolute: "@ + path]
    } else {
        match health {
            PathHealth::Healthy => Seq::<Seq<char>>::empty(),
            PathHealth::Missing => seq![head + "does not exist: "@ + path],
            PathHealth::TransportDisconnected => seq![
                head + "is mounted but unhealthy: "@ + path
                    + " (transport endpoint is not connected"@ + remedy + ")"@,
            ],
            PathHealth::Timeout => seq![head + "probe timed out: "@ + path],
            PathHealth::IoError(reason) => seq![
                head + "is not readable: "@ + path + " ("@ + reason@ + ")"@,
            ],
        }
    }
}

fn validate_directory(
    kind: &str,
    name: &str,
    path: &str,
    remedy: &str,
    health: &PathHealth,
    list: &mut Vec<String>,
)
    ensures
        text::views(final(list)@) == text::views(old(list)@) + directory_errors(
            kind@,
            name@,
            path@,
            remedy@,
            *health,
        ),
{
    let ghost before = text::views(list@);
    let head = text::concat4(kind, " '", name, "' path ");
    if !paths::is_absolute(path) {
        let message = text::concat3(head.as_str(), "must be absolute: ", path);
        text::note_when(list, true, message.as_str());
    } else {
        match health {
            PathHealth::Healthy => {
                assert(before + Seq::<Seq<char>>::empty() == before);
            },
            PathHealth::Missing => {
                let message = text::concat3(head.as_str(), "does not exist: ", path);
                text::note_when(list, true, message.as_str());
            },
            PathHealth::TransportDisconnected => {
                let message = text::concat6(
                    head.as_str(),
                    "is mounted but unhealthy: ",
                    path,
                    " (transport endpoint is not connected",
                    remedy,
                    ")",
                );
                text::note_when(list, true, message.as_str());
            },
            PathHealth::Timeout => {
                let message = text::concat3(head.as_str(), "probe timed out: ", path);
                text::note_when(list, true, message.as_str());
            },
            PathHealth::IoError(reason) => {
                let message = text::concat6(
                    head.as_str(),
                    "is not readable: ",
                    path,
                    " (",
                    reason.as_str(),
                    ")",
                );
                text::note_when(list, true, message.as_str());
            },
        }
    }
}

/// Errors for library directories.
pub open spec fn library_errors(libraries: Seq<LibraryConfig>, facts: Surroundings) -> Seq<
    Seq<char>,
>
    decreases libraries.len(),
{
    if libraries.len() == 0 {
        Seq::<Seq<char>>::empty()
    } else {
        let library = libraries.last();
        library_errors(libraries.drop_last(), facts) + directory_errors(
            "Library"@,
            library.name@,
            library.path@,
            ""@,
            facts.health_of(library.path@),
        )
    }
}

/// Errors for source directories.
pub open spec fn source_errors(sources: Seq<SourceConfig>, facts: Surroundings) -> Seq<Seq<char>>
    decreases sources.len(),
{
    if sources.len() == 0 {
        Seq::<Seq<char>>::empty()
    } else {
        let source = sources.last();
        source_errors(sources.drop_last(), facts) + directory_errors(
            "Source"@,
            source.name@,
            source.path@,
            "; restart/remount the source"@,
            facts.health_of(source.path@),
        )
    }
}

/// Errors for sources of an unknown kind.
pub open spec fn source_type_errors(sources: Seq<SourceConfig>) -> Seq<Seq<char>>
    decreases sources.len(),
{
    if sources.len() == 0 {
        Seq::<Seq<char>>::empty()
    } else {
        let source = sources.last();
        source_type_errors(sources.drop_last()) + text::when(
            !names_source_type(source.media_type@),
            "Source '"@ + source.name@
                + "' media_type must be one of: auto, anime, tv, movie (got '"@
                + source.media_type@ + "')"@,
        )
    }
}

// ---------------------------------------------------------------------------
// The whole configuration

impl Config {
    /// A configuration names libraries and sources.
    pub open spec fn listing_errors(&self) -> Seq<Seq<char>> {
        text::when(self.libraries@.len() == 0, "No libraries configured"@)
            + text::when(self.sources@.len() == 0, "No sources configured"@)
    }

    /// Where secrets must come from a provider, a service with a URL has its key.
    pub open spec fn key_errors(&self) -> Seq<Seq<char>> {
        text::when(self.security.require_secret_provider && lacks_key(self.prowlarr.url@, self.prowlarr.api_key@), "Prowlarr configured without api_key"@)
            + text::when(self.security.require_secret_provider && lacks_key(self.bazarr.url@, self.bazarr.api_key@), "Bazarr configured without api_key"@)
            + text::when(self.security.require_secret_provider && lacks_key(self.tautulli.url@, self.tautulli.api_key@), "Tautulli configured without api_key"@)
            + text::when(self.security.require_secret_provider && lacks_key(self.plex.url@, self.plex.token@), "Plex configured without token"@)
            + text::when(self.security.require_secret_provider && lacks_key(self.emby.url@, self.emby.api_key@), "Emby configured without api_key"@)
            + text::when(self.security.require_secret_provider && lacks_key(self.jellyfin.url@, self.jellyfin.api_key@), "Jellyfin configured without api_key"@)
            + text::when(self.security.require_secret_provider && lacks_key(self.radarr.url@, self.radarr.api_key@), "Radarr configured without api_key"@)
            + text::when(self.security.require_secret_provider && lacks_key(self.sonarr.url@, self.sonarr.api_key@), "Sonarr configured without api_key"@)
            + text::when(self.security.require_secret_provider && lacks_key(self.sonarr_anime.url@, self.sonarr_anime.api_key@), "Sonarr-Anime configured without api_key"@)
    }

    /// Limits of the cache and of the background service.
    pub open spec fn schedule_errors(&self) -> Seq<Seq<char>> {
        text::when(self.api.cache_ttl_hours == 0, "api.cache_ttl_hours must be greater than 0"@)
            + text::when(self.daemon.interval_minutes == 0, "daemon.interval_minutes must be greater than 0"@)
            + text::when(self.daemon.vacuum_hour_local > 23, "daemon.vacuum_hour_local must be between 0 and 23"@)
    }

    /// Limits of the services that are configured.
    pub open spec fn service_errors(&self) -> Seq<Seq<char>> {
        text::when(self.decypharr.url@.len() > 0 && self.decypharr.poll_interval_seconds == 0, "decypharr.poll_interval_seconds must be greater than 0"@)
            + text::when(self.decypharr.url@.len() > 0 && self.decypharr.completion_timeout_minutes == 0, "decypharr.completion_timeout_minutes must be greater than 0"@)
            + text::when(self.decypharr.url@.len() > 0 && self.decypharr.relink_timeout_minutes == 0, "decypharr.relink_timeout_minutes must be greater than 0"@)
            + text::when(self.decypharr.url@.len() > 0 && self.decypharr.max_in_flight == 0, "decypharr.max_in_flight must be greater than 0"@)
            + text::when(self.decypharr.url@.len() > 0 && self.decypharr.max_requests_per_run == 0, "decypharr.max_requests_per_run must be greater than 0"@)
            + text::when(self.decypharr.url@.len() > 0 && self.decypharr.queue_page_size == 0, "decypharr.queue_page_size must be greater than 0"@)
            + text::when(self.dmm.url@.len() > 0 && self.dmm.max_search_results == 0, "dmm.max_search_results must be greater than 0"@)
            + text::when(self.dmm.url@.len() > 0 && self.dmm.max_torrent_results == 0, "dmm.max_torrent_results must be greater than 0"@)
            + text::when(self.realdebrid.api_token@.len() > 0 && self.realdebrid.torrents_page_limit == 0, "realdebrid.torrents_page_limit must be greater than 0"@)
            + text::when(self.realdebrid.api_token@.len() > 0 && self.realdebrid.max_pages == 0, "realdebrid.max_pages must be greater than 0"@)
    }

    /// Remote access needs a user name and a password, and neither is set alone.
    pub open spec fn auth_errors(&self) -> Seq<Seq<char>> {
        text::when(self.web.enabled && self.web.names_user() != self.web.sets_password(), "web.username and web.password must either both be set or both be empty"@)
            + text::when(self.web.enabled && self.web.is_remote() && self.web.allow_remote && !(self.web.names_user() && self.web.sets_password()), "web.allow_remote=true requires web.username/web.password so the built-in HTML UI is not exposed unauthenticated"@)
    }

    /// A probe of sources has time to answer.
    pub open spec fn probe_errors(&self) -> Seq<Seq<char>> {
        text::when(self.symlink.verify_source_readability && self.symlink.source_probe_timeout_ms == 0, "symlink.source_probe_timeout_ms must be greater than 0 when symlink.verify_source_readability is enabled"@)
    }

    /// What is allowed but unwise.
    pub open spec fn policy_warnings(&self) -> Seq<Seq<char>> {
        text::when(self.security.require_secret_provider && self.realdebrid.api_token@.len() == 0, "security.require_secret_provider enabled but realdebrid.api_token is empty"@)
            + text::when(self.backup.max_safety_backups == 0, "backup.max_safety_backups=0 keeps unlimited safety snapshots; use a bounded value"@)
    }

    /// The bind address of an enabled interface is set, and one beyond loopback
    /// is acknowledged.
    pub open spec fn bind_errors(&self) -> Seq<Seq<char>> {
        let bind = text::trim(self.web.bind_address@);
        if !self.web.enabled {
            Seq::<Seq<char>>::empty()
        } else if bind.len() == 0 {
            seq!["web.bind_address must not be empty when web.enabled=true"@]
        } else {
            text::when(
                self.web.is_remote() && !self.web.allow_remote,
                "web.bind_address="@ + bind
                    + " requires web.allow_remote=true before Symlinkarr will expose the web UI beyond loopback"@,
            )
        }
    }

    /// Acknowledged remote access is pointed out.
    pub open spec fn bind_warnings(&self) -> Seq<Seq<char>> {
        let bind = text::trim(self.web.bind_address@);
        text::when(
            self.web.enabled && bind.len() > 0 && self.web.is_remote() && self.web.allow_remote,
            "web.bind_address="@ + bind
                + " exposes the web UI to the network because web.allow_remote=true"@,
        )
    }

    /// Where quarantined links go.
    pub open spec fn quarantine_dir(&self) -> Seq<char> {
        paths::joined(self.backup.path@, self.cleanup.prune.quarantine_path@)
    }

    /// The files of the application are private.
    pub open spec fn permission_errors(&self, facts: Surroundings) -> Seq<Seq<char>> {
        private_errors(self.db_path@, "db_path"@, facts.mode_of(self.db_path@)) + private_errors(
            self.backup.path@,
            "backup.path"@,
            facts.mode_of(self.backup.path@),
        ) + private_errors(
            self.quarantine_dir(),
            "cleanup.prune.quarantine_path"@,
            facts.mode_of(self.quarantine_dir()),
        ) + secret_file_errors(self.secret_files@, facts)
    }

    /// All errors of the settings, in the order in which they are reported.
    pub open spec fn runtime_errors(&self, facts: Surroundings) -> Seq<Seq<char>> {
        self.listing_errors() + self.key_errors() + self.schedule_errors() + source_type_errors(
            self.sources@,
        ) + self.bind_errors() + self.auth_errors() + self.service_errors() + (
        if self.security.enforce_secure_permissions {
            self.permission_errors(facts)
        } else {
            Seq::<Seq<char>>::empty()
        }) + template_errors(self.symlink.naming_template@) + self.probe_errors()
    }

    /// All warnings of the settings.
    pub open spec fn runtime_warnings(&self) -> Seq<Seq<char>> {
        self.policy_warnings() + self.bind_warnings()
    }

    fn add_listing_errors(&self, list: &mut Vec<String>)
        ensures
            text::views(final(list)@) == text::views(old(list)@) + self.listing_errors(),
    {
        let ghost before = text::views(list@);
        text::note_when(list, self.libraries.len() == 0, "No libraries configured");
        text::note_when(list, self.sources.len() == 0, "No sources configured");
        assert(text::views(list@) =~= before + self.listing_errors());
    }

    fn add_key_errors(&self, list: &mut Vec<String>)
        ensures
            text::views(final(list)@) == text::views(old(list)@) + self.key_errors(),
    {
        let ghost before = text::views(list@);
        text::note_when(list, self.security.require_secret_provider && cfg_has_url_without_key(self.prowlarr.url.as_str(), self.prowlarr.api_key.as_str()), "Prowlarr configured without api_key");
        let ghost found = text::when(self.security.require_secret_provider && lacks_key(self.prowlarr.url@, self.prowlarr.api_key@), "Prowlarr configured without api_key"@);
        text::note_when(list, self.security.require_secret_provider && cfg_has_url_without_key(self.bazarr.url.as_str(), self.bazarr.api_key.as_str()), "Bazarr configured without api_key");
        proof {
            text::lemma_together(before, found, text::when(self.security.require_secret_provider && lacks_key(self.bazarr.url@, self.bazarr.api_key@), "Bazarr configured without api_key"@));
        }
        let ghost found = found + text::when(self.security.require_secret_provider && lacks_key(self.bazarr.url@, self.bazarr.api_key@), "Bazarr configured without api_key"@);
        text::note_when(list, self.security.require_secret_provider && cfg_has_url_without_key(self.tautulli.url.as_str(), self.tautulli.api_key.as_str()), "Tautulli configured without api_key");
        proof {
            text::lemma_together(before, found, text::when(self.security.require_secret_provider && lacks_key(self.tautulli.url@, self.tautulli.api_key@), "Tautulli configured without api_key"@));
        }
        let ghost found = found + text::when(self.security.require_secret_provider && lacks_key(self.tautulli.url@, self.tautulli.api_key@), "Tautulli configured without api_key"@);
        text::note_when(list, self.security.require_secret_provider && cfg_has_url_without_key(self.plex.url.as_str(), self.plex.token.as_str()), "Plex configured without token");
        proof {
            text::lemma_together(before, found, text::when(self.security.require_secret_provider && lacks_key(self.plex.url@, self.plex.token@), "Plex configured without token"@));
        }
        let ghost found = found + text::when(self.security.require_secret_provider && lacks_key(self.plex.url@, self.plex.token@), "Plex configured without token"@);
        text::note_when(list, self.security.require_secret_provider && cfg_has_url_without_key(self.emby.url.as_str(), self.emby.api_key.as_str()), "Emby configured without api_key");
        proof {
            text::lemma_together(before, found, text::when(self.security.require_secret_provider && lacks_key(self.emby.url@, self.emby.api_key@), "Emby configured without api_key"@));
        }
        let ghost found = found + text::when(self.security.require_secret_provider && lacks_key(self.emby.url@, self.emby.api_key@), "Emby configured without api_key"@);
        text::note_when(list, self.security.require_secret_provider && cfg_has_url_without_key(self.jellyfin.url.as_str(), self.jellyfin.api_key.as_str()), "Jellyfin configured without api_key");
        proof {
            text::lemma_together(before, found, text::when(self.security.require_secret_provider && lacks_key(self.jellyfin.url@, self.jellyfin.api_key@), "Jellyfin configured without api_key"@));
        }
        let ghost found = found + text::when(self.security.require_secret_provider && lacks_key(self.jellyfin.url@, self.jellyfin.api_key@), "Jellyfin configured without api_key"@);
        text::note_when(list, self.security.require_secret_provider && cfg_has_url_without_key(self.radarr.url.as_str(), self.radarr.api_key.as_str()), "Radarr configured without api_key");
        proof {
            text::lemma_together(before, found, text::when(self.security.require_secret_provider && lacks_key(self.radarr.url@, self.radarr.api_key@), "Radarr configured without api_key"@));
        }
        let ghost found = found + text::when(self.security.require_secret_provider && lacks_key(self.radarr.url@, self.radarr.api_key@), "Radarr configured without api_key"@);
        text::note_when(list, self.security.require_secret_provider && cfg_has_url_without_key(self.sonarr.url.as_str(), self.sonarr.api_key.as_str()), "Sonarr configured without api_key");
        proof {
            text::lemma_together(before, found, text::when(self.security.require_secret_provider && lacks_key(self.sonarr.url@, self.sonarr.api_key@), "Sonarr configured without api_key"@));
        }
        let ghost found = found + text::when(self.security.require_secret_provider && lacks_key(self.sonarr.url@, self.sonarr.api_key@), "Sonarr configured without api_key"@);
        text::note_when(list, self.security.require_secret_provider && cfg_has_url_without_key(self.sonarr_anime.url.as_str(), self.sonarr_anime.api_key.as_str()), "Sonarr-Anime configured without api_key");
        proof {
            text::lemma_together(before, found, text::when(self.security.require_secret_provider && lacks_key(self.sonarr_anime.url@, self.sonarr_anime.api_key@), "Sonarr-Anime configured without api_key"@));
        }
        let ghost found = found + text::when(self.security.require_secret_provider && lacks_key(self.sonarr_anime.url@, self.sonarr_anime.api_key@), "Sonarr-Anime configured without api_key"@);
    }

    fn add_schedule_errors(&self, list: &mut Vec<String>)
        ensures
            text::views(final(list)@) == text::views(old(list)@) + self.schedule_errors(),
    {
        let ghost before = text::views(list@);
        text::note_when(list, self.api.cache_ttl_hours == 0, "api.cache_ttl_hours must be greater than 0");
        text::note_when(list, self.daemon.interval_minutes == 0, "daemon.interval_minutes must be greater than 0");
        text::note_when(list, self.daemon.vacuum_hour_local > 23, "daemon.vacuum_hour_local must be between 0 and 23");
        assert(text::views(list@) =~= before + self.schedule_errors());
    }

    fn add_service_errors(&self, list: &mut Vec<String>)
        ensures
            text::views(final(list)@) == text::views(old(list)@) + self.service_errors(),
    {
        let ghost before = text::views(list@);
        text::note_when(list, self.has_decypharr() && self.decypharr.poll_interval_seconds == 0, "decypharr.poll_interval_seconds must be greater than 0");
        let ghost found = text::when(self.decypharr.url@.len() > 0 && self.decypharr.poll_interval_seconds == 0, "decypharr.poll_interval_seconds must be greater than 0"@);
        text::note_when(list, self.has_decypharr() && self.decypharr.completion_timeout_minutes == 0, "decypharr.completion_timeout_minutes must be greater than 0");
        proof {
            text::lemma_together(before, found, text::when(self.decypharr.url@.len() > 0 && self.decypharr.completion_timeout_minutes == 0, "decypharr.completion_timeout_minutes must be greater than 0"@));
        }
        let ghost found = found + text::when(self.decypharr.url@.len() > 0 && self.decypharr.completion_timeout_minutes == 0, "decypharr.completion_timeout_minutes must be greater than 0"@);
        text::note_when(list, self.has_decypharr() && self.decypharr.relink_timeout_minutes == 0, "decypharr.relink_timeout_minutes must be greater than 0");
        proof {
            text::lemma_together(before, found, text::when(self.decypharr.url@.len() > 0 && self.decypharr.relink_timeout_minutes == 0, "decypharr.relink_timeout_minutes must be greater than 0"@));
        }
        let ghost found = found + text::when(self.decypharr.url@.len() > 0 && self.decypharr.relink_timeout_minutes == 0, "decypharr.relink_timeout_minutes must be greater than 0"@);
        text::note_when(list, self.has_decypharr() && self.decypharr.max_in_flight == 0, "decypharr.max_in_flight must be greater than 0");
        proof {
            text::lemma_together(before, found, text::when(self.decypharr.url@.len() > 0 && self.decypharr.max_in_flight == 0, "decypharr.max_in_flight must be greater than 0"@));
        }
        let ghost found = found + text::when(self.decypharr.url@.len() > 0 && self.decypharr.max_in_flight == 0, "decypharr.max_in_flight must be greater than 0"@);
        text::note_when(list, self.has_decypharr() && self.decypharr.max_requests_per_run == 0, "decypharr.max_requests_per_run must be greater than 0");
        proof {
            text::lemma_together(before, found, text::when(self.decypharr.url@.len() > 0 && self.decypharr.max_requests_per_run == 0, "decypharr.max_requests_per_run must be greater than 0"@));
        }
        let ghost found = found + text::when(self.decypharr.url@.len() > 0 && self.decypharr.max_requests_per_run == 0, "decypharr.max_requests_per_run must be greater than 0"@);
        text::note_when(list, self.has_decypharr() && self.decypharr.queue_page_size == 0, "decypharr.queue_page_size must be greater than 0");
        proof {
            text::lemma_together(before, found, text::when(self.decypharr.url@.len() > 0 && self.decypharr.queue_page_size == 0, "decypharr.queue_page_size must be greater than 0"@));
        }
        let ghost found = found + text::when(self.decypharr.url@.len() > 0 && self.decypharr.queue_page_size == 0, "decypharr.queue_page_size must be greater than 0"@);
        text::note_when(list, self.has_dmm() && self.dmm.max_search_results == 0, "dmm.max_search_results must be greater than 0");
        proof {
            text::lemma_together(before, found, text::when(self.dmm.url@.len() > 0 && self.dmm.max_search_results == 0, "dmm.max_search_results must be greater than 0"@));
        }
        let ghost found = found + text::when(self.dmm.url@.len() > 0 && self.dmm.max_search_results == 0, "dmm.max_search_results must be greater than 0"@);
        text::note_when(list, self.has_dmm() && self.dmm.max_torrent_results == 0, "dmm.max_torrent_results must be greater than 0");
        proof {
            text::lemma_together(before, found, text::when(self.dmm.url@.len() > 0 && self.dmm.max_torrent_results == 0, "dmm.max_torrent_results must be greater than 0"@));
        }
        let ghost found = found + text::when(self.dmm.url@.len() > 0 && self.dmm.max_torrent_results == 0, "dmm.max_torrent_results must be greater than 0"@);
        text::note_when(list, self.has_realdebrid() && self.realdebrid.torrents_page_limit == 0, "realdebrid.torrents_page_limit must be greater than 0");
        proof {
            text::lemma_together(before, found, text::when(self.realdebrid.api_token@.len() > 0 && self.realdebrid.torrents_page_limit == 0, "realdebrid.torrents_page_limit must be greater than 0"@));
        }
        let ghost found = found + text::when(self.realdebrid.api_token@.len() > 0 && self.realdebrid.torrents_page_limit == 0, "realdebrid.torrents_page_limit must be greater than 0"@);
        text::note_when(list, self.has_realdebrid() && self.realdebrid.max_pages == 0, "realdebrid.max_pages must be greater than 0");
        proof {
            text::lemma_together(before, found, text::when(self.realdebrid.api_token@.len() > 0 && self.realdebrid.max_pages == 0, "realdebrid.max_pages must be greater than 0"@));
        }
        let ghost found = found + text::when(self.realdebrid.api_token@.len() > 0 && self.realdebrid.max_pages == 0, "realdebrid.max_pages must be greater than 0"@);
    }

    fn add_auth_errors(&self, list: &mut Vec<String>)
        ensures
            text::views(final(list)@) == text::views(old(list)@) + self.auth_errors(),
    {
        let ghost before = text::views(list@);
        text::note_when(list, self.web.enabled && self.web.has_partial_basic_auth(), "web.username and web.password must either both be set or both be empty");
        text::note_when(list, self.web.enabled && self.web.requires_remote_ack() && self.web.allow_remote && !self.web.has_basic_auth(), "web.allow_remote=true requires web.username/web.password so the built-in HTML UI is not exposed unauthenticated");
        assert(text::views(list@) =~= before + self.auth_errors());
    }

    fn add_probe_errors(&self, list: &mut Vec<String>)
        ensures
            text::views(final(list)@) == text::views(old(list)@) + self.probe_errors(),
    {
        let ghost before = text::views(list@);
        text::note_when(list, self.symlink.verify_source_readability && self.symlink.source_probe_timeout_ms == 0, "symlink.source_probe_timeout_ms must be greater than 0 when symlink.verify_source_readability is enabled");
        assert(text::views(list@) =~= before + self.probe_errors());
    }

    fn add_policy_warnings(&self, list: &mut Vec<String>)
        ensures
            text::views(final(list)@) == text::views(old(list)@) + self.policy_warnings(),
    {
        let ghost before = text::views(list@);
        text::note_when(list, self.security.require_secret_provider && !self.has_realdebrid(), "security.require_secret_provider enabled but realdebrid.api_token is empty");
        text::note_when(list, self.backup.max_safety_backups == 0, "backup.max_safety_backups=0 keeps unlimited safety snapshots; use a bounded value");
        assert(text::views(list@) =~= before + self.policy_warnings());
    }

    fn add_source_type_errors(&self, list: &mut Vec<String>)
        ensures
            text::views(final(list)@) == text::views(old(list)@) + source_type_errors(self.sources@),
    {
        let ghost before = text::views(list@);
        let mut i: usize = 0;
        assert(self.sources@.take(0) == Seq::<SourceConfig>::empty());
        assert(before + Seq::<Seq<char>>::empty() == before);
        while i < self.sources.len()
            invariant
                i <= self.sources@.len(),
                text::views(list@) == before + source_type_errors(self.sources@.take(i as int)),
            decreases self.sources@.len() - i,
        {
            let source = &self.sources[i];
            assert(self.sources@.take(i + 1).drop_last() == self.sources@.take(i as int));
            let message = text::concat5(
                "Source '",
                source.name.as_str(),
                "' media_type must be one of: auto, anime, tv, movie (got '",
                source.media_type.as_str(),
                "')",
            );
            text::note_when(
                list,
                !is_valid_source_media_type(source.media_type.as_str()),
                message.as_str(),
            );
            i += 1;
            assert(text::views(list@) =~= before + source_type_errors(
                self.sources@.take(i as int),
            ));
        }
        assert(self.sources@.take(self.sources@.len() as int) == self.sources@);
    }

    fn add_bind_findings(&self, report: &mut ValidationReport)
        ensures
            text::views(final(report).errors@) == text::views(old(report).errors@)
                + self.bind_errors(),
            text::views(final(report).warnings@) == text::views(old(report).warnings@)
                + self.bind_warnings(),
    {
        let ghost errors = text::views(report.errors@);
        let ghost warnings = text::views(report.warnings@);
        assert(errors + Seq::<Seq<char>>::empty() == errors);
        assert(warnings + Seq::<Seq<char>>::empty() == warnings);
        if !self.web.enabled {
            return;
        }
        let bind = text::trimmed(self.web.bind_address.as_str());
        if bind.as_str().is_empty() {
            text::note_when(
                &mut report.errors,
                true,
                "web.bind_address must not be empty when web.enabled=true",
            );
            return;
        }
        let remote = self.web.requires_remote_ack();
        let exposed = text::concat3(
            "web.bind_address=",
            bind.as_str(),
            " exposes the web UI to the network because web.allow_remote=true",
        );
        text::note_when(
            &mut report.warnings,
            remote && self.web.allow_remote,
            exposed.as_str(),
        );
        let refused = text::concat3(
            "web.bind_address=",
            bind.as_str(),
            " requires web.allow_remote=true before Symlinkarr will expose the web UI beyond loopback",
        );
        text::note_when(
            &mut report.errors,
            remote && !self.web.allow_remote,
            refused.as_str(),
        );
    }

    /// Where quarantined links go.
    pub fn quarantine_path(&self) -> (out: String)
        ensures
            out@ == self.quarantine_dir(),
    {
        paths::join(self.backup.path.as_str(), self.cleanup.prune.quarantine_path.as_str())
    }

    fn validate_secure_permissions(&self, facts: &Surroundings, list: &mut Vec<String>)
        requires
            facts.wf(),
        ensures
            text::views(final(list)@) == text::views(old(list)@) + self.permission_errors(*facts),
    {
        let ghost before = text::views(list@);
        let ghost e1 = private_errors(self.db_path@, "db_path"@, facts.mode_of(self.db_path@));
        let ghost e2 = private_errors(
            self.backup.path@,
            "backup.path"@,
            facts.mode_of(self.backup.path@),
        );
        let ghost e3 = private_errors(
            self.quarantine_dir(),
            "cleanup.prune.quarantine_path"@,
            facts.mode_of(self.quarantine_dir()),
        );
        validate_private_path(
            self.db_path.as_str(),
            "db_path",
            mode_at(facts, self.db_path.as_str()),
            list,
        );
        validate_private_path(
            self.backup.path.as_str(),
            "backup.path",
            mode_at(facts, self.backup.path.as_str()),
            list,
        );
        let quarantine = self.quarantine_path();
        validate_private_path(
            quarantine.as_str(),
            "cleanup.prune.quarantine_path",
            mode_at(facts, quarantine.as_str()),
            list,
        );
        let mut i: usize = 0;
        assert(self.secret_files@.take(0) == Seq::<String>::empty());
        assert(text::views(list@) =~= before + e1 + e2 + e3 + secret_file_errors(
            self.secret_files@.take(0),
            *facts,
        ));
        while i < self.secret_files.len()
            invariant
                facts.wf(),
                i <= self.secret_files@.len(),
                text::views(list@) == before + e1 + e2 + e3 + secret_file_errors(
                    self.secret_files@.take(i as int),
                    *facts,
                ),
            decreases self.secret_files@.len() - i,
        {
            let file = self.secret_files[i].as_str();
            assert(self.secret_files@.take(i + 1).drop_last() == self.secret_files@.take(i as int));
            validate_private_path(file, "secretfile", mode_at(facts, file), list);
            i += 1;
            assert(text::views(list@) =~= before + e1 + e2 + e3 + secret_file_errors(
                self.secret_files@.take(i as int),
                *facts,
            ));
        }
        assert(self.secret_files@.take(self.secret_files@.len() as int) == self.secret_files@);
        assert(text::views(list@) =~= before + self.permission_errors(*facts));
    }

    /// Checks the settings: the errors and the warnings are exactly
    /// `runtime_errors` and `runtime_warnings`.
    pub fn validate_runtime_settings(&self, facts: &Surroundings) -> (report: ValidationReport)
        requires
            facts.wf(),
        ensures
            text::views(report.errors@) == self.runtime_errors(*facts),
            text::views(report.warnings@) == self.runtime_warnings(),
    {
        let mut report = ValidationReport::default();
        assert(text::views(report.errors@) =~= Seq::<Seq<char>>::empty());
        assert(text::views(report.warnings@) =~= Seq::<Seq<char>>::empty());
        self.add_listing_errors(&mut report.errors);
        self.add_key_errors(&mut report.errors);
        self.add_policy_warnings(&mut report.warnings);
        self.add_schedule_errors(&mut report.errors);
        self.add_source_type_errors(&mut report.errors);
        self.add_bind_findings(&mut report);
        self.add_auth_errors(&mut report.errors);
        self.add_service_errors(&mut report.errors);
        if self.security.enforce_secure_permissions {
            self.validate_secure_permissions(facts, &mut report.errors);
        }
        validate_naming_template(self.symlink.naming_template.as_str(), &mut report);
        self.add_probe_errors(&mut report.errors);
        assert(text::views(report.errors@) =~= self.runtime_errors(*facts));
        assert(text::views(report.warnings@) =~= self.runtime_warnings());
        report
    }

    fn validate_paths(&self, facts: &Surroundings, list: &mut Vec<String>)
        requires
            facts.wf(),
        ensures
            text::views(final(list)@) == text::views(old(list)@) + library_errors(
                self.libraries@,
                *facts,
            ) + source_errors(self.sources@, *facts),
    {
        let ghost before = text::views(list@);
        let mut i: usize = 0;
        assert(self.libraries@.take(0) == Seq::<LibraryConfig>::empty());
        assert(before + Seq::<Seq<char>>::empty() == before);
        while i < self.libraries.len()
            invariant
                facts.wf(),
                i <= self.libraries@.len(),
                text::views(list@) == before + library_errors(
                    self.libraries@.take(i as int),
                    *facts,
                ),
            decreases self.libraries@.len() - i,
        {
            let library = &self.libraries[i];
            assert(self.libraries@.take(i + 1).drop_last() == self.libraries@.take(i as int));
            let health = health_at(facts, library.path.as_str());
            validate_directory(
                "Library",
                library.name.as_str(),
                library.path.as_str(),
                "",
                &health,
                list,
            );
            i += 1;
            assert(text::views(list@) =~= before + library_errors(
                self.libraries@.take(i as int),
                *facts,
            ));
        }
        assert(self.libraries@.take(self.libraries@.len() as int) == self.libraries@);
        let ghost middle = text::views(list@);
        let mut j: usize = 0;
        assert(self.sources@.take(0) == Seq::<SourceConfig>::empty());
        assert(middle + Seq::<Seq<char>>::empty() == middle);
        while j < self.sources.len()
            invariant
                facts.wf(),
                j <= self.sources@.len(),
                text::views(list@) == middle + source_errors(self.sources@.take(j as int), *facts),
            decreases self.sources@.len() - j,
        {
            let source = &self.sources[j];
            assert(self.sources@.take(j + 1).drop_last() == self.sources@.take(j as int));
            let health = health_at(facts, source.path.as_str());
            validate_directory(
                "Source",
                source.name.as_str(),
                source.path.as_str(),
                "; restart/remount the source",
                &health,
                list,
            );
            j += 1;
            assert(text::views(list@) =~= middle + source_errors(
                self.sources@.take(j as int),
                *facts,
            ));
        }
        assert(self.sources@.take(self.sources@.len() as int) == self.sources@);
    }

    /// Checks the settings and the directories that they name.
    pub fn validate(&self, facts: &Surroundings) -> (report: ValidationReport)
        requires
            facts.wf(),
        ensures
            text::views(report.errors@) == self.runtime_errors(*facts) + library_errors(
                self.libraries@,
                *facts,
            ) + source_errors(self.sources@, *facts),
            text::views(report.warnings@) == self.runtime_warnings(),
    {
        let mut report = self.validate_runtime_settings(facts);
        self.validate_paths(facts, &mut report.errors);
        report
    }
}

fn mode_at(facts: &Surroundings, path: &str) -> (mode: PathMode)
    requires
        facts.wf(),
    ensures
        mode == facts.mode_of(path@),
{
    match facts.modes.get(path) {
        Some(mode) => *mode,
        None => PathMode::Absent,
    }
}

fn health_at(facts: &Surroundings, path: &str) -> (health: PathHealth)
    requires
        facts.wf(),
    ensures
        health == facts.health_of(path@),
{
    match facts.health.get(path) {
        Some(health) => health.clone(),
        None => PathHealth::Missing,
    }
}

/// A configuration without errors exposes an enabled web interface beyond this
/// machine only where that is acknowledged and both user name and password are
/// set; an API key is not enough.
pub proof fn lemma_remote_access_is_guarded(config: &Config, facts: Surroundings)
    requires
        config.web.enabled,
        config.web.is_remote(),
        config.runtime_errors(facts).len() == 0,
    ensures
        config.web.allow_remote,
        config.web.names_user() && config.web.sets_password(),
{
    assert(config.bind_errors().len() == 0);
    assert(config.auth_errors().len() == 0);
    crate::config::address::lemma_default_address_is_loopback();
}

/// A configuration without errors has private files, wherever that is enforced.
pub proof fn lemma_files_are_private(config: &Config, facts: Surroundings)
    requires
        config.security.enforce_secure_permissions,
        config.runtime_errors(facts).len() == 0,
    ensures
        facts.mode_of(config.db_path@) matches PathMode::Mode(bits) ==> bits % 64 == 0,
        facts.mode_of(config.backup.path@) matches PathMode::Mode(bits) ==> bits % 64 == 0,
        facts.mode_of(config.quarantine_dir()) matches PathMode::Mode(bits) ==> bits % 64 == 0,
{
    assert(config.permission_errors(facts).len() == 0);
    assert(private_errors(config.db_path@, "db_path"@, facts.mode_of(config.db_path@)).len() == 0);
    assert(private_errors(
        config.backup.path@,
        "backup.path"@,
        facts.mode_of(config.backup.path@),
    ).len() == 0);
    assert(private_errors(
        config.quarantine_dir(),
        "cleanup.prune.quarantine_path"@,
        facts.mode_of(config.quarantine_dir()),
    ).len() == 0);
}

/// A naming template without errors holds an episode number.
pub proof fn lemma_template_numbers_episodes(template: Seq<char>)
    requires
        template_errors(template).len() == 0,
    ensures
        text::has_part(template, "{episode}"@) || text::has_part(template, "{episode:02}"@),
{
}

// ---------------------------------------------------------------------------
// Which configurations are accepted

proof fn lemma_when(condition: bool, message: Seq<char>)
    ensures
        text::when(condition, message).len() == (if condition {
            1int
        } else {
            0
        }),
{
}

/// Libraries and sources are asked for, and nothing else, by the listing.
proof fn lemma_listing(config: &Config)
    ensures
        config.listing_errors().len() == 0 <==> config.libraries@.len() > 0
            && config.sources@.len() > 0,
{
}

/// Whether no service with a URL lacks its key.
pub open spec fn keys_are_set(config: &Config) -> bool {
    &&& text::trim(config.prowlarr.url@).len() > 0 ==> text::trim(config.prowlarr.api_key@).len() > 0
    &&& text::trim(config.bazarr.url@).len() > 0 ==> text::trim(config.bazarr.api_key@).len() > 0
    &&& text::trim(config.tautulli.url@).len() > 0 ==> text::trim(config.tautulli.api_key@).len() > 0
    &&& text::trim(config.plex.url@).len() > 0 ==> text::trim(config.plex.token@).len() > 0
    &&& text::trim(config.emby.url@).len() > 0 ==> text::trim(config.emby.api_key@).len() > 0
    &&& text::trim(config.jellyfin.url@).len() > 0 ==> text::trim(config.jellyfin.api_key@).len() > 0
    &&& text::trim(config.radarr.url@).len() > 0 ==> text::trim(config.radarr.api_key@).len() > 0
    &&& text::trim(config.sonarr.url@).len() > 0 ==> text::trim(config.sonarr.api_key@).len() > 0
    &&& text::trim(config.sonarr_anime.url@).len() > 0 ==> text::trim(config.sonarr_anime.api_key@).len() > 0
}

proof fn lemma_keys(config: &Config)
    ensures
        config.key_errors().len() == 0 <==> (config.security.require_secret_provider
            ==> keys_are_set(config)),
{
    lemma_when(config.security.require_secret_provider && lacks_key(config.prowlarr.url@, config.prowlarr.api_key@), "Prowlarr configured without api_key"@);
    lemma_when(config.security.require_secret_provider && lacks_key(config.bazarr.url@, config.bazarr.api_key@), "Bazarr configured without api_key"@);
    lemma_when(config.security.require_secret_provider && lacks_key(config.tautulli.url@, config.tautulli.api_key@), "Tautulli configured without api_key"@);
    lemma_when(config.security.require_secret_provider && lacks_key(config.plex.url@, config.plex.token@), "Plex configured without token"@);
    lemma_when(config.security.require_secret_provider && lacks_key(config.emby.url@, config.emby.api_key@), "Emby configured without api_key"@);
    lemma_when(config.security.require_secret_provider && lacks_key(config.jellyfin.url@, config.jellyfin.api_key@), "Jellyfin configured without api_key"@);
    lemma_when(config.security.require_secret_provider && lacks_key(config.radarr.url@, config.radarr.api_key@), "Radarr configured without api_key"@);
    lemma_when(config.security.require_secret_provider && lacks_key(config.sonarr.url@, config.sonarr.api_key@), "Sonarr configured without api_key"@);
    lemma_when(config.security.require_secret_provider && lacks_key(config.sonarr_anime.url@, config.sonarr_anime.api_key@), "Sonarr-Anime configured without api_key"@);
}

proof fn lemma_schedule(config: &Config)
    ensures
        config.schedule_errors().len() == 0 <==> config.api.cache_ttl_hours > 0
            && config.daemon.interval_minutes > 0 && config.daemon.vacuum_hour_local <= 23,
{
}

/// Whether every service that is configured has limits to work with.
pub open spec fn limits_are_set(config: &Config) -> bool {
    &&& config.decypharr.url@.len() > 0 ==> {
        &&& config.decypharr.poll_interval_seconds > 0
        &&& config.decypharr.completion_timeout_minutes > 0
        &&& config.decypharr.relink_timeout_minutes > 0
        &&& config.decypharr.max_in_flight > 0
        &&& config.decypharr.max_requests_per_run > 0
        &&& config.decypharr.queue_page_size > 0
    }
    &&& config.dmm.url@.len() > 0 ==> config.dmm.max_search_results > 0
        && config.dmm.max_torrent_results > 0
    &&& config.realdebrid.api_token@.len() > 0 ==> config.realdebrid.torrents_page_limit > 0
        && config.realdebrid.max_pages > 0
}

proof fn lemma_services(config: &Config)
    ensures
        config.service_errors().len() == 0 <==> limits_are_set(config),
{
    lemma_when(config.decypharr.url@.len() > 0 && config.decypharr.poll_interval_seconds == 0, "decypharr.poll_interval_seconds must be greater than 0"@);
    lemma_when(config.decypharr.url@.len() > 0 && config.decypharr.completion_timeout_minutes == 0, "decypharr.completion_timeout_minutes must be greater than 0"@);
    lemma_when(config.decypharr.url@.len() > 0 && config.decypharr.relink_timeout_minutes == 0, "decypharr.relink_timeout_minutes must be greater than 0"@);
    lemma_when(config.decypharr.url@.len() > 0 && config.decypharr.max_in_flight == 0, "decypharr.max_in_flight must be greater than 0"@);
    lemma_when(config.decypharr.url@.len() > 0 && config.decypharr.max_requests_per_run == 0, "decypharr.max_requests_per_run must be greater than 0"@);
    lemma_when(config.decypharr.url@.len() > 0 && config.decypharr.queue_page_size == 0, "decypharr.queue_page_size must be greater than 0"@);
    lemma_when(config.dmm.url@.len() > 0 && config.dmm.max_search_results == 0, "dmm.max_search_results must be greater than 0"@);
    lemma_when(config.dmm.url@.len() > 0 && config.dmm.max_torrent_results == 0, "dmm.max_torrent_results must be greater than 0"@);
    lemma_when(config.realdebrid.api_token@.len() > 0 && config.realdebrid.torrents_page_limit == 0, "realdebrid.torrents_page_limit must be greater than 0"@);
    lemma_when(config.realdebrid.api_token@.len() > 0 && config.realdebrid.max_pages == 0, "realdebrid.max_pages must be greater than 0"@);
}

/// Whether the web interface may be served as it is configured: at an address that is set,
/// with both of user name and password or neither, and beyond this machine only where that
/// is acknowledged and both are set.
pub open spec fn web_is_guarded(config: &Config) -> bool {
    let bind = text::trim(config.web.bind_address@);
    let user = text::trim(config.web.username@).len() > 0;
    let password = text::trim(config.web.password@).len() > 0;
    config.web.enabled ==> {
        &&& bind.len() > 0
        &&& user == password
        &&& crate::config::address::is_loopback(bind) || config.web.allow_remote && user && password
    }
}

proof fn lemma_web(config: &Config)
    ensures
        config.bind_errors().len() == 0 && config.auth_errors().len() == 0 <==> web_is_guarded(
            config,
        ),
{
    crate::config::address::lemma_default_address_is_loopback();
}

/// Whether a path is private: it is not there, or neither group nor others may use it.
pub open spec fn is_private(mode: PathMode) -> bool {
    match mode {
        PathMode::Absent => true,
        PathMode::Unreadable => false,
        PathMode::Mode(bits) => bits % 64 == 0,
    }
}

proof fn lemma_secret_files_private(files: Seq<String>, facts: Surroundings)
    ensures
        secret_file_errors(files, facts).len() == 0 <==> forall|i: int|
            #![trigger files[i]]
            0 <= i < files.len() ==> is_private(facts.mode_of(files[i]@)),
    decreases files.len(),
{
    if files.len() > 0 {
        let rest = files.drop_last();
        lemma_secret_files_private(rest, facts);
        assert forall|i: int| #![trigger rest[i]] 0 <= i < rest.len() implies rest[i]
            == files[i] by {}
        if secret_file_errors(files, facts).len() == 0 {
            assert forall|i: int| #![trigger files[i]] 0 <= i < files.len() implies is_private(
                facts.mode_of(files[i]@),
            ) by {
                if i < rest.len() {
                    assert(rest[i] == files[i]);
                }
            }
        } else if forall|i: int|
            #![trigger files[i]]
            0 <= i < files.len() ==> is_private(facts.mode_of(files[i]@)) {
            assert(is_private(facts.mode_of(files[files.len() - 1]@)));
            assert forall|i: int| #![trigger rest[i]] 0 <= i < rest.len() implies is_private(
                facts.mode_of(rest[i]@),
            ) by {
                assert(rest[i] == files[i]);
            }
        }
    }
}

proof fn lemma_permissions(config: &Config, facts: Surroundings)
    ensures
        config.permission_errors(facts).len() == 0 <==> {
            &&& is_private(facts.mode_of(config.db_path@))
            &&& is_private(facts.mode_of(config.backup.path@))
            &&& is_private(
                facts.mode_of(
                    paths::joined(config.backup.path@, config.cleanup.prune.quarantine_path@),
                ),
            )
            &&& forall|i: int|
                #![trigger config.secret_files@[i]]
                0 <= i < config.secret_files@.len() ==> is_private(
                    facts.mode_of(config.secret_files@[i]@),
                )
        },
{
    lemma_secret_files_private(config.secret_files@, facts);
}

proof fn lemma_source_types(sources: Seq<SourceConfig>)
    ensures
        source_type_errors(sources).len() == 0 <==> forall|i: int|
            #![trigger sources[i]]
            0 <= i < sources.len() ==> names_source_type(sources[i].media_type@),
    decreases sources.len(),
{
    if sources.len() > 0 {
        let rest = sources.drop_last();
        lemma_source_types(rest);
        if source_type_errors(sources).len() == 0 {
            assert forall|i: int| #![trigger sources[i]] 0 <= i
                < sources.len() implies names_source_type(sources[i].media_type@) by {
                if i < rest.len() {
                    assert(rest[i] == sources[i]);
                }
            }
        } else if forall|i: int|
            #![trigger sources[i]]
            0 <= i < sources.len() ==> names_source_type(sources[i].media_type@) {
            assert(names_source_type(sources[sources.len() - 1].media_type@));
            assert forall|i: int| #![trigger rest[i]] 0 <= i < rest.len() implies names_source_type(
                rest[i].media_type@,
            ) by {
                assert(rest[i] == sources[i]);
            }
        }
    }
}

/// A kind of source is one of four words, whatever white space is around it.
pub proof fn lemma_source_kinds(value: Seq<char>)
    ensures
        names_source_type(value) <==> seq!["auto"@, "anime"@, "tv"@, "movie"@].contains(
            text::trim(value),
        ),
{
    let kinds = seq!["auto"@, "anime"@, "tv"@, "movie"@];
    let name = text::trim(value);
    assert(kinds[0] == "auto"@ && kinds[1] == "anime"@ && kinds[2] == "tv"@ && kinds[3]
        == "movie"@);
}

/// A configuration is accepted exactly where it names libraries and sources, has its keys
/// where secrets must come from a provider, has limits to work with, knows its sources'
/// kinds, guards the web interface, keeps its files private where that is enforced, numbers
/// episodes by known placeholders, and gives a probe time to answer.
pub proof fn lemma_accepted_settings(config: &Config, facts: Surroundings)
    ensures
        config.runtime_errors(facts).len() == 0 <==> {
            &&& config.libraries@.len() > 0 && config.sources@.len() > 0
            &&& config.security.require_secret_provider ==> keys_are_set(config)
            &&& config.api.cache_ttl_hours > 0 && config.daemon.interval_minutes > 0
                && config.daemon.vacuum_hour_local <= 23
            &&& forall|i: int|
                #![trigger config.sources@[i]]
                0 <= i < config.sources@.len() ==> names_source_type(
                    config.sources@[i].media_type@,
                )
            &&& web_is_guarded(config)
            &&& limits_are_set(config)
            &&& config.security.enforce_secure_permissions ==> {
                &&& is_private(facts.mode_of(config.db_path@))
                &&& is_private(facts.mode_of(config.backup.path@))
                &&& is_private(
                    facts.mode_of(
                        paths::joined(config.backup.path@, config.cleanup.prune.quarantine_path@),
                    ),
                )
                &&& forall|i: int|
                    #![trigger config.secret_files@[i]]
                    0 <= i < config.secret_files@.len() ==> is_private(
                        facts.mode_of(config.secret_files@[i]@),
                    )
            }
            &&& template_errors(config.symlink.naming_template@).len() == 0
            &&& config.symlink.verify_source_readability ==> config.symlink.source_probe_timeout_ms
                > 0
        },
{
    lemma_listing(config);
    lemma_keys(config);
    lemma_schedule(config);
    lemma_source_types(config.sources@);
    lemma_web(config);
    lemma_services(config);
    lemma_permissions(config, facts);
}

/// A template is accepted exactly where every text in braces is a known placeholder and an
/// episode number is among them.
pub proof fn lemma_accepted_templates(template: Seq<char>)
    ensures
        template_errors(template).len() == 0 <==> {
            &&& text::has_part(template, "{episode}"@) || text::has_part(template, "{episode:02}"@)
            &&& forall|at: int|
                #![trigger braced_at(template, at)]
                0 <= at < template.len() ==> (braced_at(template, at) matches Some(part) ==> seq![
                    "{title}"@,
                    "{season}"@,
                    "{season:02}"@,
                    "{episode}"@,
                    "{episode:02}"@,
                    "{episode_title}"@,
                ].contains(part))
        },
{
    lemma_unknown_placeholders(template, template.len() as int);
    let known = seq![
        "{title}"@,
        "{season}"@,
        "{season:02}"@,
        "{episode}"@,
        "{episode:02}"@,
        "{episode_title}"@,
    ];
    assert(known[0] == "{title}"@ && known[1] == "{season}"@ && known[2] == "{season:02}"@
        && known[3] == "{episode}"@ && known[4] == "{episode:02}"@ && known[5]
        == "{episode_title}"@);
    assert forall|part: Seq<char>| #[trigger] is_placeholder(part) == known.contains(part) by {}
    if template_errors(template).len() == 0 {
        assert forall|at: int| #![trigger braced_at(template, at)] 0 <= at
            < template.len() implies (braced_at(template, at) matches Some(part) ==> known.contains(
            part,
        )) by {
            if let Some(part) = braced_at(template, at) {
                assert(is_placeholder(part));
            }
        }
    } else if forall|at: int|
        #![trigger braced_at(template, at)]
        0 <= at < template.len() ==> (braced_at(template, at) matches Some(part) ==> known.contains(
            part,
        )) {
        assert forall|at: int| #![trigger braced_at(template, at)] 0 <= at
            < template.len() implies (braced_at(template, at) matches Some(part) ==> is_placeholder(
            part,
        )) by {
            if let Some(part) = braced_at(template, at) {
                assert(known.contains(part));
                assert(is_placeholder(part) == known.contains(part));
            }
        }
    }
}

proof fn lemma_unknown_placeholders(template: Seq<char>, upto: int)
    requires
        0 <= upto <= template.len(),
    ensures
        unknown_placeholders(template, upto).len() == 0 <==> forall|at: int|
            #![trigger braced_at(template, at)]
            0 <= at < upto ==> (braced_at(template, at) matches Some(part) ==> is_placeholder(part)),
    decreases upto,
{
    if upto > 0 {
        lemma_unknown_placeholders(template, upto - 1);
        let last = braced_at(template, upto - 1);
    }
}

/// The text in braces runs from an opening brace to the closing one, with no brace between.
pub proof fn lemma_braces_hold_no_brace(template: Seq<char>, at: int, end: int)
    requires
        0 <= at < end < template.len(),
        template[at] == '{',
        template[end] == '}',
        forall|i: int| at < i < end ==> #[trigger] template[i] != '{' && template[i] != '}',
    ensures
        braced_at(template, at) == Some(template.subrange(at, end + 1)),
{
    lemma_next_brace(template, at + 1, end);
}

proof fn lemma_next_brace(template: Seq<char>, from: int, end: int)
    requires
        0 <= from <= end < template.len(),
        template[end] == '}' || template[end] == '{',
        forall|i: int| from <= i < end ==> #[trigger] template[i] != '{' && template[i] != '}',
    ensures
        next_brace(template, from) == end,
    decreases end - from,
{
    if from < end {
        assert(template[from] != '{' && template[from] != '}');
        lemma_next_brace(template, from + 1, end);
    }
}

/// A directory is accepted exactly where it is absolute and healthy, and each that is not
/// has one error that names its kind and its name.
pub proof fn lemma_accepted_directories(
    kind: Seq<char>,
    name: Seq<char>,
    path: Seq<char>,
    remedy: Seq<char>,
    health: PathHealth,
)
    ensures
        ({
            let errors = directory_errors(kind, name, path, remedy, health);
            &&& errors.len() == 0 <==> paths::rooted(path) && health == PathHealth::Healthy
            &&& errors.len() <= 1
            &&& errors.len() == 1 ==> text::begins(errors[0], kind + " '"@ + name + "' path "@)
            &&& errors.len() == 1 ==> text::has_part(errors[0], path)
        }),
{
    let errors = directory_errors(kind, name, path, remedy, health);
    if errors.len() == 1 {
        let head = kind + " '"@ + name + "' path "@;
        assert(errors[0].subrange(0, head.len() as int) =~= head);
        let middle = if !paths::rooted(path) {
            "must be absolute: "@
        } else {
            match health {
                PathHealth::Missing => "does not exist: "@,
                PathHealth::TransportDisconnected => "is mounted but unhealthy: "@,
                PathHealth::Timeout => "probe timed out: "@,
                _ => "is not readable: "@,
            }
        };
        let at = (head + middle).len() as int;
        assert(errors[0].subrange(at, at + path.len()) =~= path);
        assert(text::occurs_at(errors[0], path, at));
    }
}

/// All directories are accepted exactly where each library's and each source's is absolute
/// and healthy.
pub proof fn lemma_accepted_paths(config: &Config, facts: Surroundings)
    ensures
        library_errors(config.libraries@, facts).len() == 0 <==> forall|i: int|
            #![trigger config.libraries@[i]]
            0 <= i < config.libraries@.len() ==> paths::rooted(config.libraries@[i].path@)
                && facts.health_of(config.libraries@[i].path@) == PathHealth::Healthy,
        source_errors(config.sources@, facts).len() == 0 <==> forall|i: int|
            #![trigger config.sources@[i]]
            0 <= i < config.sources@.len() ==> paths::rooted(config.sources@[i].path@)
                && facts.health_of(config.sources@[i].path@) == PathHealth::Healthy,
{
    lemma_libraries(config.libraries@, facts);
    lemma_sources(config.sources@, facts);
}

proof fn lemma_libraries(list: Seq<LibraryConfig>, facts: Surroundings)
    ensures
        library_errors(list, facts).len() == 0 <==> forall|i: int|
            #![trigger list[i]]
            0 <= i < list.len() ==> paths::rooted(list[i].path@) && facts.health_of(list[i].path@)
                == PathHealth::Healthy,
    decreases list.len(),
{
    if list.len() > 0 {
        let rest = list.drop_last();
        lemma_libraries(rest, facts);
        if library_errors(list, facts).len() == 0 {
            assert forall|i: int| #![trigger list[i]] 0 <= i < list.len() implies paths::rooted(
                list[i].path@,
            ) && facts.health_of(list[i].path@) == PathHealth::Healthy by {
                if i < rest.len() {
                    assert(rest[i] == list[i]);
                }
            }
        } else if forall|i: int|
            #![trigger list[i]]
            0 <= i < list.len() ==> paths::rooted(list[i].path@) && facts.health_of(list[i].path@)
                == PathHealth::Healthy {
            assert(paths::rooted(list[list.len() - 1].path@));
            assert forall|i: int| #![trigger rest[i]] 0 <= i < rest.len() implies paths::rooted(
                rest[i].path@,
            ) && facts.health_of(rest[i].path@) == PathHealth::Healthy by {
                assert(rest[i] == list[i]);
            }
        }
    }
}

proof fn lemma_sources(list: Seq<SourceConfig>, facts: Surroundings)
    ensures
        source_errors(list, facts).len() == 0 <==> forall|i: int|
            #![trigger list[i]]
            0 <= i < list.len() ==> paths::rooted(list[i].path@) && facts.health_of(list[i].path@)
                == PathHealth::Healthy,
    decreases list.len(),
{
    if list.len() > 0 {
        let rest = list.drop_last();
        lemma_sources(rest, facts);
        if source_errors(list, facts).len() == 0 {
            assert forall|i: int| #![trigger list[i]] 0 <= i < list.len() implies paths::rooted(
                list[i].path@,
            ) && facts.health_of(list[i].path@) == PathHealth::Healthy by {
                if i < rest.len() {
                    assert(rest[i] == list[i]);
                }
            }
        } else if forall|i: int|
            #![trigger list[i]]
            0 <= i < list.len() ==> paths::rooted(list[i].path@) && facts.health_of(list[i].path@)
                == PathHealth::Healthy {
            assert(paths::rooted(list[list.len() - 1].path@));
            assert forall|i: int| #![trigger rest[i]] 0 <= i < rest.len() implies paths::rooted(
                rest[i].path@,
            ) && facts.health_of(rest[i].path@) == PathHealth::Healthy by {
                assert(rest[i] == list[i]);
            }
        }
    }
}

/// What was found at a path is found under every spelling of it, and a path at which
/// nothing was found is missing.
pub proof fn lemma_surroundings_are_told_by_path(
    facts: Surroundings,
    path: Seq<char>,
    other: Seq<char>,
)
    requires
        paths::same(path, other),
    ensures
        facts.health_of(path) == facts.health_of(other),
        facts.mode_of(path) == facts.mode_of(other),
        facts.health@.contains_key(paths::components(path)) ==> facts.health_of(path)
            == facts.health@[paths::components(path)],
        !facts.health@.contains_key(paths::components(path)) ==> facts.health_of(path)
            == PathHealth::Missing,
        facts.modes@.contains_key(paths::components(path)) ==> facts.mode_of(path)
            == facts.modes@[paths::components(path)],
        !facts.modes@.contains_key(paths::components(path)) ==> facts.mode_of(path)
            == PathMode::Absent,
{
}

/// Warnings are due exactly where remote access is acknowledged, a provider is required but
/// there is no token, or safety snapshots are kept without limit.
pub proof fn lemma_warnings_are_due(config: &Config)
    ensures
        ({
            let bind = text::trim(config.web.bind_address@);
            let remote = config.web.enabled && bind.len() > 0
                && !crate::config::address::is_loopback(bind) && config.web.allow_remote;
            let unset = config.security.require_secret_provider
                && config.realdebrid.api_token@.len() == 0;
            let unlimited = config.backup.max_safety_backups == 0;
            config.runtime_warnings().len() == (if remote {
                1int
            } else {
                0
            }) + (if unset {
                1int
            } else {
                0
            }) + (if unlimited {
                1int
            } else {
                0
            })
        }),
{
}

// ---------------------------------------------------------------------------
// Every finding is named

proof fn lemma_both_are_kept(a: Seq<Seq<char>>, b: Seq<Seq<char>>)
    ensures
        forall|message: Seq<char>| #[trigger]
            a.contains(message) ==> (a + b).contains(message),
        forall|message: Seq<char>| #[trigger]
            b.contains(message) ==> (a + b).contains(message),
{
    assert forall|message: Seq<char>| #[trigger] a.contains(message) implies (a + b).contains(
        message,
    ) by {
        let i = choose|i: int| 0 <= i < a.len() && a[i] == message;
        assert((a + b)[i] == message);
    }
    assert forall|message: Seq<char>| #[trigger] b.contains(message) implies (a + b).contains(
        message,
    ) by {
        let i = choose|i: int| 0 <= i < b.len() && b[i] == message;
        assert((a + b)[a.len() + i] == message);
    }
}

proof fn lemma_due(condition: bool, message: Seq<char>)
    ensures
        condition ==> text::when(condition, message).contains(message),
{
    if condition {
        assert(text::when(condition, message)[0] == message);
    }
}

/// Missing libraries and missing sources are each named.
pub proof fn lemma_listing_is_named(config: &Config)
    ensures
        config.libraries@.len() == 0 ==> config.listing_errors().contains("No libraries configured"@),
        config.sources@.len() == 0 ==> config.listing_errors().contains("No sources configured"@),
{
    lemma_due(config.libraries@.len() == 0, "No libraries configured"@);
    let e0 = text::when(config.libraries@.len() == 0, "No libraries configured"@);
    lemma_due(config.sources@.len() == 0, "No sources configured"@);
    let e1 = text::when(config.sources@.len() == 0, "No sources configured"@);
    lemma_both_are_kept(e0, e1);
    let s1 = e0 + e1;
    assert(config.listing_errors() == s1);
}

/// A service with a URL but no key is named, where a provider is required.
pub proof fn lemma_missing_keys_are_named(config: &Config)
    ensures
        config.security.require_secret_provider && text::trim(config.prowlarr.url@).len() > 0 && text::trim(config.prowlarr.api_key@).len() == 0 ==> config.key_errors().contains("Prowlarr configured without api_key"@),
        config.security.require_secret_provider && text::trim(config.bazarr.url@).len() > 0 && text::trim(config.bazarr.api_key@).len() == 0 ==> config.key_errors().contains("Bazarr configured without api_key"@),
        config.security.require_secret_provider && text::trim(config.tautulli.url@).len() > 0 && text::trim(config.tautulli.api_key@).len() == 0 ==> config.key_errors().contains("Tautulli configured without api_key"@),
        config.security.require_secret_provider && text::trim(config.plex.url@).len() > 0 && text::trim(config.plex.token@).len() == 0 ==> config.key_errors().contains("Plex configured without token"@),
        config.security.require_secret_provider && text::trim(config.emby.url@).len() > 0 && text::trim(config.emby.api_key@).len() == 0 ==> config.key_errors().contains("Emby configured without api_key"@),
        config.security.require_secret_provider && text::trim(config.jellyfin.url@).len() > 0 && text::trim(config.jellyfin.api_key@).len() == 0 ==> config.key_errors().contains("Jellyfin configured without api_key"@),
        config.security.require_secret_provider && text::trim(config.radarr.url@).len() > 0 && text::trim(config.radarr.api_key@).len() == 0 ==> config.key_errors().contains("Radarr configured without api_key"@),
        config.security.require_secret_provider && text::trim(config.sonarr.url@).len() > 0 && text::trim(config.sonarr.api_key@).len() == 0 ==> config.key_errors().contains("Sonarr configured without api_key"@),
        config.security.require_secret_provider && text::trim(config.sonarr_anime.url@).len() > 0 && text::trim(config.sonarr_anime.api_key@).len() == 0 ==> config.key_errors().contains("Sonarr-Anime configured without api_key"@),
{
    lemma_due(config.security.require_secret_provider && lacks_key(config.prowlarr.url@, config.prowlarr.api_key@), "Prowlarr configured without api_key"@);
    let e0 = text::when(config.security.require_secret_provider && lacks_key(config.prowlarr.url@, config.prowlarr.api_key@), "Prowlarr configured without api_key"@);
    lemma_due(config.security.require_secret_provider && lacks_key(config.bazarr.url@, config.bazarr.api_key@), "Bazarr configured without api_key"@);
    let e1 = text::when(config.security.require_secret_provider && lacks_key(config.bazarr.url@, config.bazarr.api_key@), "Bazarr configured without api_key"@);
    lemma_due(config.security.require_secret_provider && lacks_key(config.tautulli.url@, config.tautulli.api_key@), "Tautulli configured without api_key"@);
    let e2 = text::when(config.security.require_secret_provider && lacks_key(config.tautulli.url@, config.tautulli.api_key@), "Tautulli configured without api_key"@);
    lemma_due(config.security.require_secret_provider && lacks_key(config.plex.url@, config.plex.token@), "Plex configured without token"@);
    let e3 = text::when(config.security.require_secret_provider && lacks_key(config.plex.url@, config.plex.token@), "Plex configured without token"@);
    lemma_due(config.security.require_secret_provider && lacks_key(config.emby.url@, config.emby.api_key@), "Emby configured without api_key"@);
    let e4 = text::when(config.security.require_secret_provider && lacks_key(config.emby.url@, config.emby.api_key@), "Emby configured without api_key"@);
    lemma_due(config.security.require_secret_provider && lacks_key(config.jellyfin.url@, config.jellyfin.api_key@), "Jellyfin configured without api_key"@);
    let e5 = text::when(config.security.require_secret_provider && lacks_key(config.jellyfin.url@, config.jellyfin.api_key@), "Jellyfin configured without api_key"@);
    lemma_due(config.security.require_secret_provider && lacks_key(config.radarr.url@, config.radarr.api_key@), "Radarr configured without api_key"@);
    let e6 = text::when(config.security.require_secret_provider && lacks_key(config.radarr.url@, config.radarr.api_key@), "Radarr configured without api_key"@);
    lemma_due(config.security.require_secret_provider && lacks_key(config.sonarr.url@, config.sonarr.api_key@), "Sonarr configured without api_key"@);
    let e7 = text::when(config.security.require_secret_provider && lacks_key(config.sonarr.url@, config.sonarr.api_key@), "Sonarr configured without api_key"@);
    lemma_due(config.security.require_secret_provider && lacks_key(config.sonarr_anime.url@, config.sonarr_anime.api_key@), "Sonarr-Anime configured without api_key"@);
    let e8 = text::when(config.security.require_secret_provider && lacks_key(config.sonarr_anime.url@, config.sonarr_anime.api_key@), "Sonarr-Anime configured without api_key"@);
    lemma_both_are_kept(e0, e1);
    let s1 = e0 + e1;
    lemma_both_are_kept(s1, e2);
    let s2 = s1 + e2;
    lemma_both_are_kept(s2, e3);
    let s3 = s2 + e3;
    lemma_both_are_kept(s3, e4);
    let s4 = s3 + e4;
    lemma_both_are_kept(s4, e5);
    let s5 = s4 + e5;
    lemma_both_are_kept(s5, e6);
    let s6 = s5 + e6;
    lemma_both_are_kept(s6, e7);
    let s7 = s6 + e7;
    lemma_both_are_kept(s7, e8);
    let s8 = s7 + e8;
    assert(config.key_errors() == s8);
}

/// A limit of the cache or of the background service that cannot hold is named.
pub proof fn lemma_schedule_is_named(config: &Config)
    ensures
        config.api.cache_ttl_hours == 0 ==> config.schedule_errors().contains("api.cache_ttl_hours must be greater than 0"@),
        config.daemon.interval_minutes == 0 ==> config.schedule_errors().contains("daemon.interval_minutes must be greater than 0"@),
        config.daemon.vacuum_hour_local > 23 ==> config.schedule_errors().contains("daemon.vacuum_hour_local must be between 0 and 23"@),
{
    lemma_due(config.api.cache_ttl_hours == 0, "api.cache_ttl_hours must be greater than 0"@);
    let e0 = text::when(config.api.cache_ttl_hours == 0, "api.cache_ttl_hours must be greater than 0"@);
    lemma_due(config.daemon.interval_minutes == 0, "daemon.interval_minutes must be greater than 0"@);
    let e1 = text::when(config.daemon.interval_minutes == 0, "daemon.interval_minutes must be greater than 0"@);
    lemma_due(config.daemon.vacuum_hour_local > 23, "daemon.vacuum_hour_local must be between 0 and 23"@);
    let e2 = text::when(config.daemon.vacuum_hour_local > 23, "daemon.vacuum_hour_local must be between 0 and 23"@);
    lemma_both_are_kept(e0, e1);
    let s1 = e0 + e1;
    lemma_both_are_kept(s1, e2);
    let s2 = s1 + e2;
    assert(config.schedule_errors() == s2);
}

proof fn lemma_any_of_ten(
    e0: Seq<Seq<char>>,
    e1: Seq<Seq<char>>,
    e2: Seq<Seq<char>>,
    e3: Seq<Seq<char>>,
    e4: Seq<Seq<char>>,
    e5: Seq<Seq<char>>,
    e6: Seq<Seq<char>>,
    e7: Seq<Seq<char>>,
    e8: Seq<Seq<char>>,
    e9: Seq<Seq<char>>,
    message: Seq<char>,
)
    ensures
        e0.contains(message) || e1.contains(message) || e2.contains(message) || e3.contains(message)
            || e4.contains(message) || e5.contains(message) || e6.contains(message) || e7.contains(
            message,
        ) || e8.contains(message) || e9.contains(message) ==> (e0 + e1 + e2 + e3 + e4 + e5 + e6 + e7
            + e8 + e9).contains(message),
{
    lemma_both_are_kept(e0, e1);
    lemma_both_are_kept(e0 + e1, e2);
    lemma_both_are_kept(e0 + e1 + e2, e3);
    lemma_both_are_kept(e0 + e1 + e2 + e3, e4);
    lemma_both_are_kept(e0 + e1 + e2 + e3 + e4, e5);
    lemma_both_are_kept(e0 + e1 + e2 + e3 + e4 + e5, e6);
    lemma_both_are_kept(e0 + e1 + e2 + e3 + e4 + e5 + e6, e7);
    lemma_both_are_kept(e0 + e1 + e2 + e3 + e4 + e5 + e6 + e7, e8);
    lemma_both_are_kept(e0 + e1 + e2 + e3 + e4 + e5 + e6 + e7 + e8, e9);
}

/// A limit of a service that cannot hold is named, where the service is configured.
pub proof fn lemma_limits_are_named(config: &Config)
    ensures
        config.decypharr.url@.len() > 0 && config.decypharr.poll_interval_seconds == 0 ==> config.service_errors().contains("decypharr.poll_interval_seconds must be greater than 0"@),
        config.decypharr.url@.len() > 0 && config.decypharr.completion_timeout_minutes == 0 ==> config.service_errors().contains("decypharr.completion_timeout_minutes must be greater than 0"@),
        config.decypharr.url@.len() > 0 && config.decypharr.relink_timeout_minutes == 0 ==> config.service_errors().contains("decypharr.relink_timeout_minutes must be greater than 0"@),
        config.decypharr.url@.len() > 0 && config.decypharr.max_in_flight == 0 ==> config.service_errors().contains("decypharr.max_in_flight must be greater than 0"@),
        config.decypharr.url@.len() > 0 && config.decypharr.max_requests_per_run == 0 ==> config.service_errors().contains("decypharr.max_requests_per_run must be greater than 0"@),
        config.decypharr.url@.len() > 0 && config.decypharr.queue_page_size == 0 ==> config.service_errors().contains("decypharr.queue_page_size must be greater than 0"@),
        config.dmm.url@.len() > 0 && config.dmm.max_search_results == 0 ==> config.service_errors().contains("dmm.max_search_results must be greater than 0"@),
        config.dmm.url@.len() > 0 && config.dmm.max_torrent_results == 0 ==> config.service_errors().contains("dmm.max_torrent_results must be greater than 0"@),
        config.realdebrid.api_token@.len() > 0 && config.realdebrid.torrents_page_limit == 0 ==> config.service_errors().contains("realdebrid.torrents_page_limit must be greater than 0"@),
        config.realdebrid.api_token@.len() > 0 && config.realdebrid.max_pages == 0 ==> config.service_errors().contains("realdebrid.max_pages must be greater than 0"@),
{
    let e0 = text::when(config.decypharr.url@.len() > 0 && config.decypharr.poll_interval_seconds == 0, "decypharr.poll_interval_seconds must be greater than 0"@);
    let e1 = text::when(config.decypharr.url@.len() > 0 && config.decypharr.completion_timeout_minutes == 0, "decypharr.completion_timeout_minutes must be greater than 0"@);
    let e2 = text::when(config.decypharr.url@.len() > 0 && config.decypharr.relink_timeout_minutes == 0, "decypharr.relink_timeout_minutes must be greater than 0"@);
    let e3 = text::when(config.decypharr.url@.len() > 0 && config.decypharr.max_in_flight == 0, "decypharr.max_in_flight must be greater than 0"@);
    let e4 = text::when(config.decypharr.url@.len() > 0 && config.decypharr.max_requests_per_run == 0, "decypharr.max_requests_per_run must be greater than 0"@);
    let e5 = text::when(config.decypharr.url@.len() > 0 && config.decypharr.queue_page_size == 0, "decypharr.queue_page_size must be greater than 0"@);
    let e6 = text::when(config.dmm.url@.len() > 0 && config.dmm.max_search_results == 0, "dmm.max_search_results must be greater than 0"@);
    let e7 = text::when(config.dmm.url@.len() > 0 && config.dmm.max_torrent_results == 0, "dmm.max_torrent_results must be greater than 0"@);
    let e8 = text::when(config.realdebrid.api_token@.len() > 0 && config.realdebrid.torrents_page_limit == 0, "realdebrid.torrents_page_limit must be greater than 0"@);
    let e9 = text::when(config.realdebrid.api_token@.len() > 0 && config.realdebrid.max_pages == 0, "realdebrid.max_pages must be greater than 0"@);
    lemma_due(config.decypharr.url@.len() > 0 && config.decypharr.poll_interval_seconds == 0, "decypharr.poll_interval_seconds must be greater than 0"@);
    lemma_any_of_ten(e0, e1, e2, e3, e4, e5, e6, e7, e8, e9, "decypharr.poll_interval_seconds must be greater than 0"@);
    lemma_due(config.decypharr.url@.len() > 0 && config.decypharr.completion_timeout_minutes == 0, "decypharr.completion_timeout_minutes must be greater than 0"@);
    lemma_any_of_ten(e0, e1, e2, e3, e4, e5, e6, e7, e8, e9, "decypharr.completion_timeout_minutes must be greater than 0"@);
    lemma_due(config.decypharr.url@.len() > 0 && config.decypharr.relink_timeout_minutes == 0, "decypharr.relink_timeout_minutes must be greater than 0"@);
    lemma_any_of_ten(e0, e1, e2, e3, e4, e5, e6, e7, e8, e9, "decypharr.relink_timeout_minutes must be greater than 0"@);
    lemma_due(config.decypharr.url@.len() > 0 && config.decypharr.max_in_flight == 0, "decypharr.max_in_flight must be greater than 0"@);
    lemma_any_of_ten(e0, e1, e2, e3, e4, e5, e6, e7, e8, e9, "decypharr.max_in_flight must be greater than 0"@);
    lemma_due(config.decypharr.url@.len() > 0 && config.decypharr.max_requests_per_run == 0, "decypharr.max_requests_per_run must be greater than 0"@);
    lemma_any_of_ten(e0, e1, e2, e3, e4, e5, e6, e7, e8, e9, "decypharr.max_requests_per_run must be greater than 0"@);
    lemma_due(config.decypharr.url@.len() > 0 && config.decypharr.queue_page_size == 0, "decypharr.queue_page_size must be greater than 0"@);
    lemma_any_of_ten(e0, e1, e2, e3, e4, e5, e6, e7, e8, e9, "decypharr.queue_page_size must be greater than 0"@);
    lemma_due(config.dmm.url@.len() > 0 && config.dmm.max_search_results == 0, "dmm.max_search_results must be greater than 0"@);
    lemma_any_of_ten(e0, e1, e2, e3, e4, e5, e6, e7, e8, e9, "dmm.max_search_results must be greater than 0"@);
    lemma_due(config.dmm.url@.len() > 0 && config.dmm.max_torrent_results == 0, "dmm.max_torrent_results must be greater than 0"@);
    lemma_any_of_ten(e0, e1, e2, e3, e4, e5, e6, e7, e8, e9, "dmm.max_torrent_results must be greater than 0"@);
    lemma_due(config.realdebrid.api_token@.len() > 0 && config.realdebrid.torrents_page_limit == 0, "realdebrid.torrents_page_limit must be greater than 0"@);
    lemma_any_of_ten(e0, e1, e2, e3, e4, e5, e6, e7, e8, e9, "realdebrid.torrents_page_limit must be greater than 0"@);
    lemma_due(config.realdebrid.api_token@.len() > 0 && config.realdebrid.max_pages == 0, "realdebrid.max_pages must be greater than 0"@);
    lemma_any_of_ten(e0, e1, e2, e3, e4, e5, e6, e7, e8, e9, "realdebrid.max_pages must be greater than 0"@);
}

/// A user name or a password alone, and remote access without both, are named.
pub proof fn lemma_missing_logins_are_named(config: &Config)
    ensures
        config.web.enabled && (text::trim(config.web.username@).len() > 0) != (text::trim(config.web.password@).len() > 0) ==> config.auth_errors().contains("web.username and web.password must either both be set or both be empty"@),
        config.web.enabled && config.web.is_remote() && config.web.allow_remote && !(config.web.names_user() && config.web.sets_password()) ==> config.auth_errors().contains("web.allow_remote=true requires web.username/web.password so the built-in HTML UI is not exposed unauthenticated"@),
{
    lemma_due(config.web.enabled && config.web.names_user() != config.web.sets_password(), "web.username and web.password must either both be set or both be empty"@);
    let e0 = text::when(config.web.enabled && config.web.names_user() != config.web.sets_password(), "web.username and web.password must either both be set or both be empty"@);
    lemma_due(config.web.enabled && config.web.is_remote() && config.web.allow_remote && !(config.web.names_user() && config.web.sets_password()), "web.allow_remote=true requires web.username/web.password so the built-in HTML UI is not exposed unauthenticated"@);
    let e1 = text::when(config.web.enabled && config.web.is_remote() && config.web.allow_remote && !(config.web.names_user() && config.web.sets_password()), "web.allow_remote=true requires web.username/web.password so the built-in HTML UI is not exposed unauthenticated"@);
    lemma_both_are_kept(e0, e1);
    let s1 = e0 + e1;
    assert(config.auth_errors() == s1);
}

/// A probe without time to answer is named.
pub proof fn lemma_probe_is_named(config: &Config)
    ensures
        config.symlink.verify_source_readability && config.symlink.source_probe_timeout_ms == 0 ==> config.probe_errors().contains("symlink.source_probe_timeout_ms must be greater than 0 when symlink.verify_source_readability is enabled"@),
{
    lemma_due(config.symlink.verify_source_readability && config.symlink.source_probe_timeout_ms == 0, "symlink.source_probe_timeout_ms must be greater than 0 when symlink.verify_source_readability is enabled"@);
    let e0 = text::when(config.symlink.verify_source_readability && config.symlink.source_probe_timeout_ms == 0, "symlink.source_probe_timeout_ms must be greater than 0 when symlink.verify_source_readability is enabled"@);
    assert(config.probe_errors() == e0);
}

/// A provider without a token and snapshots without a limit are warned of.
pub proof fn lemma_policy_is_named(config: &Config)
    ensures
        config.security.require_secret_provider && config.realdebrid.api_token@.len() == 0 ==> config.policy_warnings().contains("security.require_secret_provider enabled but realdebrid.api_token is empty"@),
        config.backup.max_safety_backups == 0 ==> config.policy_warnings().contains("backup.max_safety_backups=0 keeps unlimited safety snapshots; use a bounded value"@),
{
    lemma_due(config.security.require_secret_provider && config.realdebrid.api_token@.len() == 0, "security.require_secret_provider enabled but realdebrid.api_token is empty"@);
    let e0 = text::when(config.security.require_secret_provider && config.realdebrid.api_token@.len() == 0, "security.require_secret_provider enabled but realdebrid.api_token is empty"@);
    lemma_due(config.backup.max_safety_backups == 0, "backup.max_safety_backups=0 keeps unlimited safety snapshots; use a bounded value"@);
    let e1 = text::when(config.backup.max_safety_backups == 0, "backup.max_safety_backups=0 keeps unlimited safety snapshots; use a bounded value"@);
    lemma_both_are_kept(e0, e1);
    let s1 = e0 + e1;
    assert(config.policy_warnings() == s1);
}

/// All that is found is reported: what each check finds is among the errors.
pub proof fn lemma_findings_are_reported(config: &Config, facts: Surroundings, message: Seq<char>)
    ensures
        config.listing_errors().contains(message) || config.key_errors().contains(message)
            || config.schedule_errors().contains(message) || source_type_errors(
            config.sources@,
        ).contains(message) || config.bind_errors().contains(message)
            || config.auth_errors().contains(message) || config.service_errors().contains(message)
            || template_errors(config.symlink.naming_template@).contains(message)
            || config.probe_errors().contains(message) ==> config.runtime_errors(facts).contains(
            message,
        ),
        config.security.enforce_secure_permissions && config.permission_errors(facts).contains(
            message,
        ) ==> config.runtime_errors(facts).contains(message),
        config.policy_warnings().contains(message) || config.bind_warnings().contains(message)
            ==> config.runtime_warnings().contains(message),
{
    let e0 = config.listing_errors();
    let e1 = config.key_errors();
    let e2 = config.schedule_errors();
    let e3 = source_type_errors(config.sources@);
    let e4 = config.bind_errors();
    let e5 = config.auth_errors();
    let e6 = config.service_errors();
    let e7 = if config.security.enforce_secure_permissions {
        config.permission_errors(facts)
    } else {
        Seq::<Seq<char>>::empty()
    };
    let e8 = template_errors(config.symlink.naming_template@);
    let e9 = config.probe_errors();
    lemma_both_are_kept(e0, e1);
    lemma_both_are_kept(e0 + e1, e2);
    lemma_both_are_kept(e0 + e1 + e2, e3);
    lemma_both_are_kept(e0 + e1 + e2 + e3, e4);
    lemma_both_are_kept(e0 + e1 + e2 + e3 + e4, e5);
    lemma_both_are_kept(e0 + e1 + e2 + e3 + e4 + e5, e6);
    lemma_both_are_kept(e0 + e1 + e2 + e3 + e4 + e5 + e6, e7);
    lemma_both_are_kept(e0 + e1 + e2 + e3 + e4 + e5 + e6 + e7, e8);
    lemma_both_are_kept(e0 + e1 + e2 + e3 + e4 + e5 + e6 + e7 + e8, e9);
    lemma_both_are_kept(config.policy_warnings(), config.bind_warnings());
}

/// A file that is not private is named with its label and its mode, and one that cannot be
/// inspected is named too.
pub proof fn lemma_open_files_are_named(path: Seq<char>, label: Seq<char>, mode: PathMode)
    ensures
        private_errors(path, label, mode).len() == 0 <==> is_private(mode),
        mode is Unreadable ==> private_errors(path, label, mode)[0] == label
            + " could not be inspected for permissions: "@ + path,
        mode matches PathMode::Mode(bits) ==> (bits % 64 != 0 ==> private_errors(
            path,
            label,
            mode,
        )[0] == label + " must not be group/world accessible: "@ + path + " (mode "@ + text::octal(
            (bits % 512) as nat,
        ) + ")"@),
{
}

/// An address that is blank, and one beyond this machine that is not acknowledged, are named;
/// one that is acknowledged is warned of.
pub proof fn lemma_bind_addresses_are_named(config: &Config)
    requires
        config.web.enabled,
    ensures
        ({
            let bind = text::trim(config.web.bind_address@);
            let remote = bind.len() > 0 && !crate::config::address::is_loopback(bind);
            &&& bind.len() == 0 ==> config.bind_errors() == seq![
                "web.bind_address must not be empty when web.enabled=true"@,
            ]
            &&& remote && !config.web.allow_remote ==> config.bind_errors().len() == 1
                && text::begins(config.bind_errors()[0], "web.bind_address="@ + bind)
            &&& remote && config.web.allow_remote ==> config.bind_warnings().len() == 1
                && text::begins(config.bind_warnings()[0], "web.bind_address="@ + bind)
            &&& !remote ==> config.bind_warnings().len() == 0
        }),
{
    let bind = text::trim(config.web.bind_address@);
    let head = "web.bind_address="@ + bind;
    if config.bind_errors().len() == 1 && bind.len() > 0 {
        assert(config.bind_errors()[0].subrange(0, head.len() as int) =~= head);
    }
    if config.bind_warnings().len() == 1 {
        assert(config.bind_warnings()[0].subrange(0, head.len() as int) =~= head);
    }
}

} // verus!
