//! The values that settings take where the configuration leaves them out.

use vstd::prelude::*;
use crate::models::MediaType;

verus! {

pub fn default_metadata_concurrency() -> (value: usize)
    ensures
        value == 8,
{
    8
}

pub fn default_web_bind_address() -> (value: String)
    ensures
        value@ == "127.0.0.1"@,
{
    "127.0.0.1".to_owned()
}

pub fn default_web_port() -> (value: u16)
    ensures
        value == 8726,
{
    8726
}

pub fn default_plex_refresh_enabled() -> (value: bool)
    ensures
        value == true,
{
    true
}

pub fn default_plex_refresh_delay_ms() -> (value: u64)
    ensures
        value == 250,
{
    250
}

pub fn default_plex_refresh_coalesce_threshold() -> (value: usize)
    ensures
        value == 8,
{
    8
}

pub fn default_plex_max_refresh_batches_per_run() -> (value: usize)
    ensures
        value == 12,
{
    12
}

pub fn default_plex_abort_refresh_when_capped() -> (value: bool)
    ensures
        value == true,
{
    true
}

pub fn default_media_browser_refresh_enabled() -> (value: bool)
    ensures
        value == true,
{
    true
}

pub fn default_media_browser_refresh_delay_ms() -> (value: u64)
    ensures
        value == 250,
{
    250
}

pub fn default_media_browser_refresh_batch_size() -> (value: usize)
    ensures
        value == 64,
{
    64
}

pub fn default_media_browser_max_refresh_batches_per_run() -> (value: usize)
    ensures
        value == 12,
{
    12
}

pub fn default_media_browser_abort_refresh_when_capped() -> (value: bool)
    ensures
        value == true,
{
    true
}

pub fn default_media_browser_fallback_to_library_roots_when_capped() -> (value: bool)
    ensures
        value == true,
{
    true
}

pub fn default_backup_enabled() -> (value: bool)
    ensures
        value == true,
{
    true
}

pub fn default_backup_path() -> (value: String)
    ensures
        value@ == "backups"@,
{
    "backups".to_owned()
}

pub fn default_backup_interval() -> (value: u64)
    ensures
        value == 24,
{
    24
}

pub fn default_max_backups() -> (value: usize)
    ensures
        value == 10,
{
    10
}

pub fn default_max_safety_backups() -> (value: usize)
    ensures
        value == 25,
{
    25
}

pub fn default_true() -> (value: bool)
    ensures
        value == true,
{
    true
}

pub fn default_prune_max_report_age_hours() -> (value: u64)
    ensures
        value == 72,
{
    72
}

pub fn default_prune_default_max_delete() -> (value: usize)
    ensures
        value == 5000,
{
    5000
}

pub fn default_prune_quarantine_path() -> (value: String)
    ensures
        value@ == "quarantine"@,
{
    "quarantine".to_owned()
}

pub fn default_db_path() -> (value: String)
    ensures
        value@ == "symlinkarr.db"@,
{
    "symlinkarr.db".to_owned()
}

pub fn default_log_level() -> (value: String)
    ensures
        value@ == "info"@,
{
    "info".to_owned()
}

pub fn default_media_type() -> (value: MediaType)
    ensures
        value == MediaType::Tv,
{
    MediaType::Tv
}

pub fn default_source_media_type() -> (value: String)
    ensures
        value@ == "auto"@,
{
    "auto".to_owned()
}

pub fn default_depth() -> (value: usize)
    ensures
        value == 1,
{
    1
}

pub fn default_cache_ttl() -> (value: u64)
    ensures
        value == 87600,
{
    87600
}

pub fn default_interval() -> (value: u64)
    ensures
        value == 30,
{
    30
}

pub fn default_vacuum_hour_local() -> (value: u8)
    ensures
        value == 4,
{
    4
}

pub fn default_realdebrid_torrents_page_limit() -> (value: u32)
    ensures
        value == 5000,
{
    5000
}

pub fn default_realdebrid_pagination_delay_ms() -> (value: u64)
    ensures
        value == 200,
{
    200
}

pub fn default_realdebrid_max_pages() -> (value: u32)
    ensures
        value == 5000,
{
    5000
}

pub fn default_naming_template() -> (value: String)
    ensures
        value@ == "{title} - S{season:02}E{episode:02} - {episode_title}"@,
{
    "{title} - S{season:02}E{episode:02} - {episode_title}".to_owned()
}

pub fn default_source_probe_timeout_ms() -> (value: u64)
    ensures
        value == 2500,
{
    2500
}

pub fn default_decypharr_url() -> (value: String)
    ensures
        value@ == "http://localhost:8282"@,
{
    "http://localhost:8282".to_owned()
}

pub fn default_decypharr_poll_interval_seconds() -> (value: u64)
    ensures
        value == 30,
{
    30
}

pub fn default_decypharr_completion_timeout_minutes() -> (value: u64)
    ensures
        value == 180,
{
    180
}

pub fn default_decypharr_relink_timeout_minutes() -> (value: u64)
    ensures
        value == 15,
{
    15
}

pub fn default_decypharr_max_in_flight() -> (value: usize)
    ensures
        value == 3,
{
    3
}

pub fn default_decypharr_max_requests_per_run() -> (value: usize)
    ensures
        value == 10,
{
    10
}

pub fn default_decypharr_queue_page_size() -> (value: usize)
    ensures
        value == 100,
{
    100
}

pub fn default_arr_name_movie() -> (value: String)
    ensures
        value@ == "radarr"@,
{
    "radarr".to_owned()
}

pub fn default_arr_name_tv() -> (value: String)
    ensures
        value@ == "sonarr"@,
{
    "sonarr".to_owned()
}

pub fn default_arr_name_anime() -> (value: String)
    ensures
        value@ == "sonarr-anime"@,
{
    "sonarr-anime".to_owned()
}

pub fn default_dmm_only_trusted() -> (value: bool)
    ensures
        value == true,
{
    true
}

pub fn default_dmm_max_search_results() -> (value: usize)
    ensures
        value == 3,
{
    3
}

pub fn default_dmm_max_torrent_results() -> (value: usize)
    ensures
        value == 10,
{
    10
}

} // verus!
