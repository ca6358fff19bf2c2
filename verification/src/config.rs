//! The configuration: its settings, their defaults, what is configured, and
//! the rules that a configuration must meet.

use vstd::prelude::*;
use crate::models::MediaType;
use crate::text;

pub mod address;
pub mod defaults;
pub mod load;
pub mod secrets;
pub mod validation;
pub mod yaml;

verus! {

/// The kind of content, which decides how file names are read.
#[derive(Debug, Clone, Copy, PartialEq, Eq, Structural)]
pub enum ContentType {
    Tv,
    Anime,
    Movie,
}

impl Default for ContentType {
    fn default() -> (out: Self)
        ensures
            out == ContentType::Tv,
    {
        ContentType::Tv
    }
}

impl ContentType {
    /// The name of the kind.
    pub fn as_str(&self) -> (out: &'static str)
        ensures
            out@ == (match *self {
                ContentType::Tv => "tv"@,
                ContentType::Anime => "anime"@,
                ContentType::Movie => "movie"@,
            }),
    {
        match self {
            ContentType::Tv => "tv",
            ContentType::Anime => "anime",
            ContentType::Movie => "movie",
        }
    }

    /// The kind that a library has where its settings name none.
    pub fn from_media_type(mt: MediaType) -> (out: Self)
        ensures
            out == (match mt {
                MediaType::Tv => ContentType::Tv,
                MediaType::Movie => ContentType::Movie,
            }),
    {
        match mt {
            MediaType::Tv => ContentType::Tv,
            MediaType::Movie => ContentType::Movie,
        }
    }
}

/// How strictly titles must agree.
#[derive(Debug, Clone, Copy, PartialEq, Eq, Structural)]
pub enum MatchingMode {
    Strict,
    Balanced,
    Aggressive,
}

impl Default for MatchingMode {
    fn default() -> (out: Self)
        ensures
            out == MatchingMode::Strict,
    {
        MatchingMode::Strict
    }
}

impl MatchingMode {
    /// The name of the mode.
    pub fn as_str(&self) -> (out: &'static str)
        ensures
            out@ == (match *self {
                MatchingMode::Strict => "strict"@,
                MatchingMode::Balanced => "balanced"@,
                MatchingMode::Aggressive => "aggressive"@,
            }),
    {
        match self {
            MatchingMode::Strict => "strict",
            MatchingMode::Balanced => "balanced",
            MatchingMode::Aggressive => "aggressive",
        }
    }

    /// Whether only strict agreement counts.
    pub fn is_strict(self) -> (b: bool)
        ensures
            b == (self == MatchingMode::Strict),
    {
        self == MatchingMode::Strict
    }
}

/// Where metadata may come from.
#[derive(Debug, Clone, Copy, PartialEq, Eq, Structural)]
pub enum MetadataMode {
    /// The cache, and the providers where it has no answer.
    Full,
    /// The cache alone.
    CacheOnly,
    /// Nowhere: the titles of folders are all there is.
    Off,
}

impl Default for MetadataMode {
    fn default() -> (out: Self)
        ensures
            out == MetadataMode::Full,
    {
        MetadataMode::Full
    }
}

impl MetadataMode {
    /// The name of the mode.
    pub fn as_str(&self) -> (out: &'static str)
        ensures
            out@ == (match *self {
                MetadataMode::Full => "full"@,
                MetadataMode::CacheOnly => "cache_only"@,
                MetadataMode::Off => "off"@,
            }),
    {
        match self {
            MetadataMode::Full => "full",
            MetadataMode::CacheOnly => "cache_only",
            MetadataMode::Off => "off",
        }
    }

    /// Whether providers may be asked.
    pub fn allows_network(self) -> (b: bool)
        ensures
            b == (self == MetadataMode::Full),
    {
        self == MetadataMode::Full
    }
}

/// A library directory.
#[derive(Debug)]
pub struct LibraryConfig {
    pub name: String,
    pub path: String,
    pub media_type: MediaType,
    /// Derived from the media type where it is left out.
    pub content_type: Option<ContentType>,
    /// How deep tagged folders are looked for.
    pub depth: usize,
}

impl Clone for LibraryConfig {
    fn clone(&self) -> (out: Self)
        ensures
            out == *self,
    {
        LibraryConfig {
            name: self.name.clone(),
            path: self.path.clone(),
            media_type: self.media_type,
            content_type: self.content_type,
            depth: self.depth,
        }
    }
}

/// A source directory.
#[derive(Debug, Clone)]
pub struct SourceConfig {
    pub name: String,
    pub path: String,
    /// `auto`, `anime`, `tv` or `movie`.
    pub media_type: String,
}

/// How strictly titles are matched.
#[derive(Debug, Clone)]
pub struct MatchingConfig {
    /// Strict, balanced or aggressive.
    pub mode: MatchingMode,
    /// Where metadata may come from.
    pub metadata_mode: MetadataMode,
    /// How many metadata lookups run at once.
    pub metadata_concurrency: usize,
}

impl Default for MatchingConfig {
    fn default() -> (out: Self)
        ensures
            out.mode == MatchingMode::Strict,
            out.metadata_mode == MetadataMode::Full,
            out.metadata_concurrency == 8,
    {
        MatchingConfig {
            mode: MatchingMode::Strict,
            metadata_mode: MetadataMode::Full,
            metadata_concurrency: defaults::default_metadata_concurrency(),
        }
    }
}

/// The web interface.
#[derive(Debug, Clone)]
pub struct WebConfig {
    pub enabled: bool,
    /// The address that the server listens on.
    pub bind_address: String,
    /// Whether an address beyond loopback is acknowledged.
    pub allow_remote: bool,
    pub port: u16,
    pub username: String,
    pub password: String,
    /// Authenticates clients of the JSON API.
    pub api_key: String,
}

impl Default for WebConfig {
    fn default() -> (out: Self)
        ensures
            out.enabled == false,
            out.bind_address@ == "127.0.0.1"@,
            out.allow_remote == false,
            out.port == 8726,
            out.username@ == ""@,
            out.password@ == ""@,
            out.api_key@ == ""@,
    {
        proof {
            reveal_strlit("");
        }
        WebConfig {
            enabled: false,
            bind_address: defaults::default_web_bind_address(),
            allow_remote: false,
            port: defaults::default_web_port(),
            username: String::new(),
            password: String::new(),
            api_key: String::new(),
        }
    }
}

/// Metadata providers.
#[derive(Debug, Clone)]
pub struct ApiConfig {
    pub tmdb_api_key: String,
    /// Preferred over the key where it is set.
    pub tmdb_read_access_token: String,
    pub tvdb_api_key: String,
    /// How long answers stay cached; metadata is meant to be sticky.
    pub cache_ttl_hours: u64,
}

impl Default for ApiConfig {
    fn default() -> (out: Self)
        ensures
            out.tmdb_api_key@ == ""@,
            out.tmdb_read_access_token@ == ""@,
            out.tvdb_api_key@ == ""@,
            out.cache_ttl_hours == 87600,
    {
        proof {
            reveal_strlit("");
        }
        ApiConfig {
            tmdb_api_key: String::new(),
            tmdb_read_access_token: String::new(),
            tvdb_api_key: String::new(),
            cache_ttl_hours: defaults::default_cache_ttl(),
        }
    }
}

/// The background service.
#[derive(Debug, Clone)]
pub struct DaemonConfig {
    pub enabled: bool,
    /// Minutes between scans.
    pub interval_minutes: u64,
    /// Whether the service may acquire missing items.
    pub search_missing: bool,
    /// Whether the database is vacuumed once a day.
    pub vacuum_enabled: bool,
    /// The local hour at which that may happen.
    pub vacuum_hour_local: u8,
}

impl Default for DaemonConfig {
    fn default() -> (out: Self)
        ensures
            out.enabled == false,
            out.interval_minutes == 30,
            out.search_missing == false,
            out.vacuum_enabled == false,
            out.vacuum_hour_local == 4,
    {
        DaemonConfig {
            enabled: false,
            interval_minutes: defaults::default_interval(),
            search_missing: false,
            vacuum_enabled: false,
            vacuum_hour_local: defaults::default_vacuum_hour_local(),
        }
    }
}

/// How links are made.
#[derive(Debug, Clone)]
pub struct SymlinkConfig {
    /// Report what would be done without doing it.
    pub dry_run: bool,
    /// The template of episode file names.
    pub naming_template: String,
    /// Probe a source before a link to it is written.
    pub verify_source_readability: bool,
    /// The time limit of that probe.
    pub source_probe_timeout_ms: u64,
}

impl Default for SymlinkConfig {
    fn default() -> (out: Self)
        ensures
            out.dry_run == false,
            out.naming_template@ == "{title} - S{season:02}E{episode:02} - {episode_title}"@,
            out.verify_source_readability == true,
            out.source_probe_timeout_ms == 2500,
    {
        SymlinkConfig {
            dry_run: false,
            naming_template: defaults::default_naming_template(),
            verify_source_readability: defaults::default_true(),
            source_probe_timeout_ms: defaults::default_source_probe_timeout_ms(),
        }
    }
}

/// Real-Debrid.
#[derive(Debug, Clone)]
pub struct RealDebridConfig {
    pub api_token: String,
    /// Torrents asked for per page.
    pub torrents_page_limit: u32,
    /// Pause between pages.
    pub pagination_delay_ms: u64,
    /// Pages read at most.
    pub max_pages: u32,
}

impl Default for RealDebridConfig {
    fn default() -> (out: Self)
        ensures
            out.api_token@ == ""@,
            out.torrents_page_limit == 5000,
            out.pagination_delay_ms == 200,
            out.max_pages == 5000,
    {
        proof {
            reveal_strlit("");
        }
        RealDebridConfig {
            api_token: String::new(),
            torrents_page_limit: defaults::default_realdebrid_torrents_page_limit(),
            pagination_delay_ms: defaults::default_realdebrid_pagination_delay_ms(),
            max_pages: defaults::default_realdebrid_max_pages(),
        }
    }
}

/// Decypharr.
#[derive(Debug, Clone)]
pub struct DecypharrConfig {
    pub url: String,
    pub api_token: Option<String>,
    /// Seconds between polls of the queue.
    pub poll_interval_seconds: u64,
    /// How long a download may take.
    pub completion_timeout_minutes: u64,
    /// How long a finished download may stay unlinked.
    pub relink_timeout_minutes: u64,
    /// Unfinished downloads at which new ones wait.
    pub max_in_flight: usize,
    /// Requests made in one run at most.
    pub max_requests_per_run: usize,
    pub queue_page_size: usize,
    /// The category name for movies.
    pub arr_name_movie: String,
    /// The category name for series.
    pub arr_name_tv: String,
    /// The category name for anime.
    pub arr_name_anime: String,
}

impl Default for DecypharrConfig {
    fn default() -> (out: Self)
        ensures
            out.url@ == "http://localhost:8282"@,
            out.api_token is None,
            out.poll_interval_seconds == 30,
            out.completion_timeout_minutes == 180,
            out.relink_timeout_minutes == 15,
            out.max_in_flight == 3,
            out.max_requests_per_run == 10,
            out.queue_page_size == 100,
            out.arr_name_movie@ == "radarr"@,
            out.arr_name_tv@ == "sonarr"@,
            out.arr_name_anime@ == "sonarr-anime"@,
    {
        DecypharrConfig {
            url: defaults::default_decypharr_url(),
            api_token: None,
            poll_interval_seconds: defaults::default_decypharr_poll_interval_seconds(),
            completion_timeout_minutes: defaults::default_decypharr_completion_timeout_minutes(),
            relink_timeout_minutes: defaults::default_decypharr_relink_timeout_minutes(),
            max_in_flight: defaults::default_decypharr_max_in_flight(),
            max_requests_per_run: defaults::default_decypharr_max_requests_per_run(),
            queue_page_size: defaults::default_decypharr_queue_page_size(),
            arr_name_movie: defaults::default_arr_name_movie(),
            arr_name_tv: defaults::default_arr_name_tv(),
            arr_name_anime: defaults::default_arr_name_anime(),
        }
    }
}

/// Debrid Media Manager.
#[derive(Debug, Clone)]
pub struct DmmConfig {
    pub url: String,
    /// Overrides the salt of the service's tokens.
    pub auth_salt: Option<String>,
    pub only_trusted: bool,
    pub max_search_results: usize,
    pub max_torrent_results: usize,
}

impl Default for DmmConfig {
    fn default() -> (out: Self)
        ensures
            out.url@ == ""@,
            out.auth_salt is None,
            out.only_trusted == true,
            out.max_search_results == 3,
            out.max_torrent_results == 10,
    {
        proof {
            reveal_strlit("");
        }
        DmmConfig {
            url: String::new(),
            auth_salt: None,
            only_trusted: defaults::default_dmm_only_trusted(),
            max_search_results: defaults::default_dmm_max_search_results(),
            max_torrent_results: defaults::default_dmm_max_torrent_results(),
        }
    }
}

/// Prowlarr.
#[derive(Debug, Clone)]
pub struct ProwlarrConfig {
    pub url: String,
    pub api_key: String,
}

impl Default for ProwlarrConfig {
    fn default() -> (out: Self)
        ensures
            out.url@ == ""@,
            out.api_key@ == ""@,
    {
        proof {
            reveal_strlit("");
        }
        ProwlarrConfig {
            url: String::new(),
            api_key: String::new(),
        }
    }
}

/// Bazarr.
#[derive(Debug, Clone)]
pub struct BazarrConfig {
    pub url: String,
    pub api_key: String,
}

impl Default for BazarrConfig {
    fn default() -> (out: Self)
        ensures
            out.url@ == ""@,
            out.api_key@ == ""@,
    {
        proof {
            reveal_strlit("");
        }
        BazarrConfig {
            url: String::new(),
            api_key: String::new(),
        }
    }
}

/// Tautulli.
#[derive(Debug, Clone)]
pub struct TautulliConfig {
    pub url: String,
    pub api_key: String,
}

impl Default for TautulliConfig {
    fn default() -> (out: Self)
        ensures
            out.url@ == ""@,
            out.api_key@ == ""@,
    {
        proof {
            reveal_strlit("");
        }
        TautulliConfig {
            url: String::new(),
            api_key: String::new(),
        }
    }
}

/// Plex.
#[derive(Debug, Clone)]
pub struct PlexConfig {
    pub url: String,
    pub token: String,
    /// Whether linking triggers library refreshes.
    pub refresh_enabled: bool,
    /// Pause between refreshes.
    pub refresh_delay_ms: u64,
    /// Paths of one library from which its root is refreshed instead.
    pub refresh_coalesce_threshold: usize,
    /// Refreshes per run at most; 0 for no limit.
    pub max_refresh_batches_per_run: usize,
    /// Refresh nothing where the plan is over the limit.
    pub abort_refresh_when_capped: bool,
}

impl Default for PlexConfig {
    fn default() -> (out: Self)
        ensures
            out.url@ == ""@,
            out.token@ == ""@,
            out.refresh_enabled == true,
            out.refresh_delay_ms == 250,
            out.refresh_coalesce_threshold == 8,
            out.max_refresh_batches_per_run == 12,
            out.abort_refresh_when_capped == true,
    {
        proof {
            reveal_strlit("");
        }
        PlexConfig {
            url: String::new(),
            token: String::new(),
            refresh_enabled: defaults::default_plex_refresh_enabled(),
            refresh_delay_ms: defaults::default_plex_refresh_delay_ms(),
            refresh_coalesce_threshold: defaults::default_plex_refresh_coalesce_threshold(),
            max_refresh_batches_per_run: defaults::default_plex_max_refresh_batches_per_run(),
            abort_refresh_when_capped: defaults::default_plex_abort_refresh_when_capped(),
        }
    }
}

/// Emby or Jellyfin.
#[derive(Debug, Clone)]
pub struct MediaBrowserConfig {
    pub url: String,
    pub api_key: String,
    /// Whether linking triggers library updates.
    pub refresh_enabled: bool,
    /// Pause between updates.
    pub refresh_delay_ms: u64,
    /// Paths per update.
    pub refresh_batch_size: usize,
    /// Updates per run at most; 0 for no limit.
    pub max_refresh_batches_per_run: usize,
    /// Update nothing where the plan is over the limit.
    pub abort_refresh_when_capped: bool,
    /// Update library roots where single paths are over the limit.
    pub fallback_to_library_roots_when_capped: bool,
}

impl Default for MediaBrowserConfig {
    fn default() -> (out: Self)
        ensures
            out.url@ == ""@,
            out.api_key@ == ""@,
            out.refresh_enabled == true,
            out.refresh_delay_ms == 250,
            out.refresh_batch_size == 64,
            out.max_refresh_batches_per_run == 12,
            out.abort_refresh_when_capped == true,
            out.fallback_to_library_roots_when_capped == true,
    {
        proof {
            reveal_strlit("");
        }
        MediaBrowserConfig {
            url: String::new(),
            api_key: String::new(),
            refresh_enabled: defaults::default_media_browser_refresh_enabled(),
            refresh_delay_ms: defaults::default_media_browser_refresh_delay_ms(),
            refresh_batch_size: defaults::default_media_browser_refresh_batch_size(),
            max_refresh_batches_per_run: defaults::default_media_browser_max_refresh_batches_per_run(),
            abort_refresh_when_capped: defaults::default_media_browser_abort_refresh_when_capped(),
            fallback_to_library_roots_when_capped: defaults::default_media_browser_fallback_to_library_roots_when_capped(),
        }
    }
}

/// Radarr.
#[derive(Debug, Clone)]
pub struct RadarrConfig {
    pub url: String,
    pub api_key: String,
}

impl Default for RadarrConfig {
    fn default() -> (out: Self)
        ensures
            out.url@ == ""@,
            out.api_key@ == ""@,
    {
        proof {
            reveal_strlit("");
        }
        RadarrConfig {
            url: String::new(),
            api_key: String::new(),
        }
    }
}

/// Sonarr.
#[derive(Debug, Clone)]
pub struct SonarrConfig {
    pub url: String,
    pub api_key: String,
}

impl Default for SonarrConfig {
    fn default() -> (out: Self)
        ensures
            out.url@ == ""@,
            out.api_key@ == ""@,
    {
        proof {
            reveal_strlit("");
        }
        SonarrConfig {
            url: String::new(),
            api_key: String::new(),
        }
    }
}

/// Backups.
#[derive(Debug, Clone)]
pub struct BackupConfig {
    pub enabled: bool,
    /// The directory of the backups.
    pub path: String,
    /// Hours between scheduled backups; 0 for none.
    pub interval_hours: u64,
    /// Scheduled backups kept.
    pub max_backups: usize,
    /// Safety snapshots kept; 0 for all.
    pub max_safety_backups: usize,
}

impl Default for BackupConfig {
    fn default() -> (out: Self)
        ensures
            out.enabled == true,
            out.path@ == "backups"@,
            out.interval_hours == 24,
            out.max_backups == 10,
            out.max_safety_backups == 25,
    {
        BackupConfig {
            enabled: defaults::default_backup_enabled(),
            path: defaults::default_backup_path(),
            interval_hours: defaults::default_backup_interval(),
            max_backups: defaults::default_max_backups(),
            max_safety_backups: defaults::default_max_safety_backups(),
        }
    }
}

/// Feature switches.
#[derive(Debug, Clone)]
pub struct FeaturesConfig {
    /// Whether a link whose source changed counts as updated.
    pub reconcile_links: bool,
}

impl Default for FeaturesConfig {
    fn default() -> (out: Self)
        ensures
            out.reconcile_links == true,
    {
        FeaturesConfig {
            reconcile_links: defaults::default_true(),
        }
    }
}

/// Security policy.
#[derive(Debug, Clone)]
pub struct SecurityConfig {
    /// Keep destructive work below the configured roots.
    pub enforce_roots: bool,
    /// Refuse secrets written in plain text.
    pub require_secret_provider: bool,
    /// Require private permissions on files of the application.
    pub enforce_secure_permissions: bool,
}

impl Default for SecurityConfig {
    fn default() -> (out: Self)
        ensures
            out.enforce_roots == true,
            out.require_secret_provider == false,
            out.enforce_secure_permissions == true,
    {
        SecurityConfig {
            enforce_roots: defaults::default_true(),
            require_secret_provider: false,
            enforce_secure_permissions: defaults::default_true(),
        }
    }
}

/// What pruning may do.
#[derive(Debug, Clone)]
pub struct PrunePolicyConfig {
    pub enforce_policy: bool,
    /// How old a report may be when it is applied.
    pub max_report_age_hours: u64,
    /// Deletions at most unless the command says otherwise.
    pub default_max_delete: usize,
    /// Move links of unknown origin aside instead of deleting them.
    pub quarantine_foreign: bool,
    /// Where they are moved.
    pub quarantine_path: String,
}

impl Default for PrunePolicyConfig {
    fn default() -> (out: Self)
        ensures
            out.enforce_policy == true,
            out.max_report_age_hours == 72,
            out.default_max_delete == 5000,
            out.quarantine_foreign == true,
            out.quarantine_path@ == "quarantine"@,
    {
        PrunePolicyConfig {
            enforce_policy: defaults::default_true(),
            max_report_age_hours: defaults::default_prune_max_report_age_hours(),
            default_max_delete: defaults::default_prune_default_max_delete(),
            quarantine_foreign: defaults::default_true(),
            quarantine_path: defaults::default_prune_quarantine_path(),
        }
    }
}

/// Cleanup policy.
#[derive(Debug, Clone)]
pub struct CleanupPolicyConfig {
    pub prune: PrunePolicyConfig,
}

impl Default for CleanupPolicyConfig {
    fn default() -> (out: Self)
        ensures
            out.prune.enforce_policy == true,
            out.prune.max_report_age_hours == 72,
            out.prune.default_max_delete == 5000,
            out.prune.quarantine_foreign == true,
            out.prune.quarantine_path@ == "quarantine"@,
    {
        CleanupPolicyConfig {
            prune: PrunePolicyConfig::default(),
        }
    }
}

/// What a validation found.
#[derive(Debug, PartialEq, Eq)]
pub struct ValidationReport {
    pub errors: Vec<String>,
    pub warnings: Vec<String>,
}

impl Default for ValidationReport {
    fn default() -> (out: Self)
        ensures
            out.errors@.len() == 0,
            out.warnings@.len() == 0,
    {
        ValidationReport { errors: Vec::new(), warnings: Vec::new() }
    }
}

/// The files that a configuration names and that a restore may write.
#[derive(Debug, Clone, PartialEq, Eq)]
pub struct RestoreConfigTargets {
    pub db_path: String,
    pub secret_files: Vec<String>,
}

/// The whole configuration.
#[derive(Debug, Clone)]
pub struct Config {
    pub libraries: Vec<LibraryConfig>,
    pub sources: Vec<SourceConfig>,
    pub api: ApiConfig,
    pub realdebrid: RealDebridConfig,
    pub decypharr: DecypharrConfig,
    pub dmm: DmmConfig,
    pub backup: BackupConfig,
    pub db_path: String,
    pub log_level: String,
    pub daemon: DaemonConfig,
    pub symlink: SymlinkConfig,
    pub matching: MatchingConfig,
    pub prowlarr: ProwlarrConfig,
    pub bazarr: BazarrConfig,
    pub tautulli: TautulliConfig,
    pub plex: PlexConfig,
    pub emby: MediaBrowserConfig,
    pub jellyfin: MediaBrowserConfig,
    pub radarr: RadarrConfig,
    pub sonarr: SonarrConfig,
    pub sonarr_anime: SonarrConfig,
    pub features: FeaturesConfig,
    pub security: SecurityConfig,
    pub cleanup: CleanupPolicyConfig,
    pub web: WebConfig,
    /// The file that the configuration was read from.
    pub loaded_from: Option<String>,
    /// The files that hold its secrets.
    pub secret_files: Vec<String>,
}

impl WebConfig {
    /// The bind address without surrounding white space; where that leaves
    /// nothing, the default.
    pub open spec fn address(&self) -> Seq<char> {
        let trimmed = text::trim(self.bind_address@);
        if trimmed.len() == 0 {
            "127.0.0.1"@
        } else {
            trimmed
        }
    }

    /// Whether the interface is reached from beyond this machine.
    pub open spec fn is_remote(&self) -> bool {
        !address::is_loopback(self.address())
    }

    /// Whether a user name is set.
    pub open spec fn names_user(&self) -> bool {
        text::trim(self.username@).len() > 0
    }

    /// Whether a password is set.
    pub open spec fn sets_password(&self) -> bool {
        text::trim(self.password@).len() > 0
    }

    /// The address that the server binds.
    pub fn normalized_bind_address(&self) -> (out: String)
        ensures
            out@ == self.address(),
    {
        let trimmed = text::trimmed(self.bind_address.as_str());
        if trimmed.as_str().is_empty() {
            defaults::default_web_bind_address()
        } else {
            trimmed
        }
    }

    /// Whether the interface is reached from this machine only.
    pub fn binds_loopback_only(&self) -> (b: bool)
        ensures
            b == !self.is_remote(),
    {
        address::is_loopback_address(self.normalized_bind_address().as_str())
    }

    /// Whether remote access has to be acknowledged.
    pub fn requires_remote_ack(&self) -> (b: bool)
        ensures
            b == self.is_remote(),
    {
        !self.binds_loopback_only()
    }

    /// Whether user name and password are both set.
    pub fn has_basic_auth(&self) -> (b: bool)
        ensures
            b == (self.names_user() && self.sets_password()),
    {
        !text::is_blank(self.username.as_str()) && !text::is_blank(self.password.as_str())
    }

    /// Whether just one of user name and password is set.
    pub fn has_partial_basic_auth(&self) -> (b: bool)
        ensures
            b == (self.names_user() != self.sets_password()),
    {
        text::is_blank(self.username.as_str()) != text::is_blank(self.password.as_str())
    }

    /// Whether an API key is set.
    pub fn has_api_key_auth(&self) -> (b: bool)
        ensures
            b == (self.api_key@.len() > 0),
    {
        !self.api_key.as_str().is_empty()
    }
}

impl BackupConfig {
    /// The settings for a restore that has no configuration yet.
    pub fn standalone(backup_dir: String) -> (out: Self)
        ensures
            out.enabled,
            out.path == backup_dir,
            out.interval_hours == 24,
            out.max_backups == 10,
            out.max_safety_backups == 25,
    {
        BackupConfig {
            enabled: true,
            path: backup_dir,
            interval_hours: defaults::default_backup_interval(),
            max_backups: defaults::default_max_backups(),
            max_safety_backups: defaults::default_max_safety_backups(),
        }
    }
}

// ---------------------------------------------------------------------------
// What is configured

impl Config {
    /// Whether TMDB can be asked.
    pub fn has_tmdb(&self) -> (b: bool)
        ensures
            b == (self.api.tmdb_api_key@.len() > 0 || self.api.tmdb_read_access_token@.len() > 0),
    {
        !self.api.tmdb_api_key.as_str().is_empty() || !self.api.tmdb_read_access_token.as_str().is_empty()
    }

    /// Whether TVDB can be asked.
    pub fn has_tvdb(&self) -> (b: bool)
        ensures
            b == (self.api.tvdb_api_key@.len() > 0),
    {
        !self.api.tvdb_api_key.as_str().is_empty()
    }

    /// Whether Real-Debrid can be asked.
    pub fn has_realdebrid(&self) -> (b: bool)
        ensures
            b == (self.realdebrid.api_token@.len() > 0),
    {
        !self.realdebrid.api_token.as_str().is_empty()
    }

    /// Whether Decypharr is configured.
    pub fn has_decypharr(&self) -> (b: bool)
        ensures
            b == (self.decypharr.url@.len() > 0),
    {
        !self.decypharr.url.as_str().is_empty()
    }

    /// Whether Debrid Media Manager is configured.
    pub fn has_dmm(&self) -> (b: bool)
        ensures
            b == (self.dmm.url@.len() > 0),
    {
        !self.dmm.url.as_str().is_empty()
    }

    /// Whether Prowlarr is configured.
    pub fn has_prowlarr(&self) -> (b: bool)
        ensures
            b == (self.prowlarr.url@.len() > 0 && self.prowlarr.api_key@.len() > 0),
    {
        !self.prowlarr.url.as_str().is_empty() && !self.prowlarr.api_key.as_str().is_empty()
    }

    /// Whether Bazarr is configured.
    pub fn has_bazarr(&self) -> (b: bool)
        ensures
            b == (self.bazarr.url@.len() > 0 && self.bazarr.api_key@.len() > 0),
    {
        !self.bazarr.url.as_str().is_empty() && !self.bazarr.api_key.as_str().is_empty()
    }

    /// Whether Tautulli is configured.
    pub fn has_tautulli(&self) -> (b: bool)
        ensures
            b == (self.tautulli.url@.len() > 0 && self.tautulli.api_key@.len() > 0),
    {
        !self.tautulli.url.as_str().is_empty() && !self.tautulli.api_key.as_str().is_empty()
    }

    /// Whether Plex is configured.
    pub fn has_plex(&self) -> (b: bool)
        ensures
            b == (self.plex.url@.len() > 0 && self.plex.token@.len() > 0),
    {
        !self.plex.url.as_str().is_empty() && !self.plex.token.as_str().is_empty()
    }

    /// Whether Plex is configured and to be refreshed.
    pub fn has_plex_refresh(&self) -> (b: bool)
        ensures
            b == (self.plex.url@.len() > 0 && self.plex.token@.len() > 0 && self.plex.refresh_enabled),
    {
        self.has_plex() && self.plex.refresh_enabled
    }

    /// Whether Emby is configured.
    pub fn has_emby(&self) -> (b: bool)
        ensures
            b == (self.emby.url@.len() > 0 && self.emby.api_key@.len() > 0),
    {
        !self.emby.url.as_str().is_empty() && !self.emby.api_key.as_str().is_empty()
    }

    /// Whether Emby is configured and to be refreshed.
    pub fn has_emby_refresh(&self) -> (b: bool)
        ensures
            b == (self.emby.url@.len() > 0 && self.emby.api_key@.len() > 0 && self.emby.refresh_enabled),
    {
        self.has_emby() && self.emby.refresh_enabled
    }

    /// Whether Jellyfin is configured.
    pub fn has_jellyfin(&self) -> (b: bool)
        ensures
            b == (self.jellyfin.url@.len() > 0 && self.jellyfin.api_key@.len() > 0),
    {
        !self.jellyfin.url.as_str().is_empty() && !self.jellyfin.api_key.as_str().is_empty()
    }

    /// Whether Jellyfin is configured and to be refreshed.
    pub fn has_jellyfin_refresh(&self) -> (b: bool)
        ensures
            b == (self.jellyfin.url@.len() > 0 && self.jellyfin.api_key@.len() > 0 && self.jellyfin.refresh_enabled),
    {
        self.has_jellyfin() && self.jellyfin.refresh_enabled
    }

    /// Whether Radarr is configured.
    pub fn has_radarr(&self) -> (b: bool)
        ensures
            b == (self.radarr.url@.len() > 0 && self.radarr.api_key@.len() > 0),
    {
        !self.radarr.url.as_str().is_empty() && !self.radarr.api_key.as_str().is_empty()
    }

    /// Whether Sonarr is configured.
    pub fn has_sonarr(&self) -> (b: bool)
        ensures
            b == (self.sonarr.url@.len() > 0 && self.sonarr.api_key@.len() > 0),
    {
        !self.sonarr.url.as_str().is_empty() && !self.sonarr.api_key.as_str().is_empty()
    }

    /// Whether the Sonarr for anime is configured.
    pub fn has_sonarr_anime(&self) -> (b: bool)
        ensures
            b == (self.sonarr_anime.url@.len() > 0 && self.sonarr_anime.api_key@.len() > 0),
    {
        !self.sonarr_anime.url.as_str().is_empty() && !self.sonarr_anime.api_key.as_str().is_empty()
    }

    /// Whether the web interface is enabled.
    pub fn has_web(&self) -> (b: bool)
        ensures
            b == (self.web.enabled),
    {
        self.web.enabled
    }
}

/// The web interface is reached from beyond this machine exactly where an address is set
/// that does not stay on it; without one the address is that of this machine.
pub proof fn lemma_remote_is_told_by_the_address(web: WebConfig)
    ensures
        web.is_remote() <==> text::trim(web.bind_address@).len() > 0 && !address::is_loopback(
            text::trim(web.bind_address@),
        ),
        text::trim(web.bind_address@).len() == 0 ==> web.address() == "127.0.0.1"@,
        text::trim(web.bind_address@).len() > 0 ==> web.address() == text::trim(web.bind_address@),
        web.names_user() <==> text::trim(web.username@).len() > 0,
        web.sets_password() <==> text::trim(web.password@).len() > 0,
{
    address::lemma_default_address_is_loopback();
}

} // verus!
