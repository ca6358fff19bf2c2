//! Secrets: a setting holds one in plain text, or names an environment variable
//! or a file that does.

use vstd::prelude::*;
use crate::config::Config;
use crate::config::yaml;
use crate::tables::TextMap;
use crate::text;

verus! {

/// What has to be fetched before a secret is known.
#[derive(Debug, PartialEq, Eq)]
pub enum SecretRequest {
    Nothing,
    /// The environment variable of this name.
    Variable(String),
    /// The text of this file.
    File(String),
}

/// What was fetched.
#[derive(Debug, PartialEq, Eq)]
pub enum SecretReply {
    Found(String),
    /// It could not be had, and what the system says of that.
    Failed(String),
}

/// What a setting asks for; files are seen from the configuration's directory.
pub open spec fn asks_variable(raw: Seq<char>) -> Option<Seq<char>> {
    if text::begins(raw, "env:"@) {
        Some(raw.skip("env:"@.len() as int))
    } else {
        None
    }
}

/// The file that a setting names.
pub open spec fn asks_file(raw: Seq<char>, dir: Option<Seq<char>>) -> Option<Seq<char>> {
    if asks_variable(raw) is None && text::begins(raw, "secretfile:"@) {
        Some(yaml::resolved_from(dir, raw.skip("secretfile:"@.len() as int)))
    } else {
        None
    }
}

/// What has to be fetched for a setting.
pub fn secret_request(raw: &str, config_dir: Option<&str>) -> (out: SecretRequest)
    ensures
        match out {
            SecretRequest::Variable(name) => asks_variable(raw@) == Some(name@),
            SecretRequest::File(path) => asks_file(raw@, yaml::opt_view(config_dir)) == Some(path@),
            SecretRequest::Nothing => asks_variable(raw@) is None && asks_file(
                raw@,
                yaml::opt_view(config_dir),
            ) is None,
        },
{
    if let Some(name) = text::without_prefix(raw, "env:") {
        return SecretRequest::Variable(name);
    }
    match text::without_prefix(raw, "secretfile:") {
        Some(file) => SecretRequest::File(
            yaml::resolve_restore_target_path(file.as_str(), config_dir),
        ),
        None => SecretRequest::Nothing,
    }
}

/// The texts of a map.
pub open spec fn overlay_texts(overlay: TextMap<String>) -> Map<Seq<char>, Seq<char>> {
    overlay@.map_values(|value: String| value@)
}

/// The secret that a setting stands for, or the message of the error.
///
/// An empty setting stands for itself. A variable is taken from the environment,
/// or else from `overlay`. A file must hold more than white space. Plain text is
/// refused where a provider is required.
pub open spec fn secret(
    raw: Seq<char>,
    field: Seq<char>,
    require_provider: bool,
    dir: Option<Seq<char>>,
    overlay: Map<Seq<char>, Seq<char>>,
    reply: SecretReply,
) -> Result<Seq<char>, Seq<char>> {
    if raw.len() == 0 {
        Ok(raw)
    } else if asks_variable(raw) is Some {
        let name = asks_variable(raw)->0;
        match reply {
            SecretReply::Found(value) => Ok(text::trim(value@)),
            _ => if overlay.contains_key(name) {
                Ok(text::trim(overlay[name]))
            } else {
                Err("Missing environment variable '"@ + name + "' for "@ + field)
            },
        }
    } else if asks_file(raw, dir) is Some {
        let path = asks_file(raw, dir)->0;
        match reply {
            SecretReply::Found(value) => if text::trim(value@).len() == 0 {
                Err("Secret file '"@ + path + "' is empty or contains only whitespace"@)
            } else {
                Ok(text::trim(value@))
            },
            SecretReply::Failed(reason) => Err(
                "Failed reading secret file '"@ + path + "' for "@ + field + ": "@ + reason@,
            ),
        }
    } else if require_provider {
        Err(
            "Plaintext secret is not allowed for "@ + field
                + ". Use env:VAR or secretfile:/path/to/file"@,
        )
    } else {
        Ok(raw)
    }
}

/// The secret that a setting stands for; `reply` is what `secret_request` asked
/// for.
pub fn resolve_secret(
    raw: &str,
    field: &str,
    require_provider: bool,
    config_dir: Option<&str>,
    dotenv_overlay: &TextMap<String>,
    reply: &SecretReply,
) -> (out: Result<String, String>)
    requires
        dotenv_overlay.wf(),
    ensures
        match out {
            Ok(value) => secret(
                raw@,
                field@,
                require_provider,
                yaml::opt_view(config_dir),
                overlay_texts(*dotenv_overlay),
                *reply,
            ) == Ok::<Seq<char>, Seq<char>>(value@),
            Err(message) => secret(
                raw@,
                field@,
                require_provider,
                yaml::opt_view(config_dir),
                overlay_texts(*dotenv_overlay),
                *reply,
            ) == Err::<Seq<char>, Seq<char>>(message@),
        },
{
    if raw.is_empty() {
        return Ok(raw.to_owned());
    }
    match secret_request(raw, config_dir) {
        SecretRequest::Variable(name) => {
            if let SecretReply::Found(value) = reply {
                return Ok(text::trimmed(value.as_str()));
            }
            match dotenv_overlay.get(name.as_str()) {
                Some(value) => Ok(text::trimmed(value.as_str())),
                None => Err(
                    text::concat4(
                        "Missing environment variable '",
                        name.as_str(),
                        "' for ",
                        field,
                    ),
                ),
            }
        },
        SecretRequest::File(path) => {
            match reply {
                SecretReply::Found(value) => {
                    let trimmed = text::trimmed(value.as_str());
                    if trimmed.as_str().is_empty() {
                        Err(
                            text::concat3(
                                "Secret file '",
                                path.as_str(),
                                "' is empty or contains only whitespace",
                            ),
                        )
                    } else {
                        Ok(trimmed)
                    }
                },
                SecretReply::Failed(reason) => Err(
                    text::concat6(
                        "Failed reading secret file '",
                        path.as_str(),
                        "' for ",
                        field,
                        ": ",
                        reason.as_str(),
                    ),
                ),
            }
        },
        SecretRequest::Nothing => {
            if require_provider {
                Err(
                    text::concat3(
                        "Plaintext secret is not allowed for ",
                        field,
                        ". Use env:VAR or secretfile:/path/to/file",
                    ),
                )
            } else {
                Ok(raw.to_owned())
            }
        },
    }
}

// ---------------------------------------------------------------------------
// All secrets of a configuration

/// The characters of an optional text.
pub open spec fn opt_text(t: Option<String>) -> Option<Seq<char>> {
    match t {
        Some(s) => Some(s@),
        None => None,
    }
}

/// The characters of an optional text.
pub open spec fn opt_view(t: Option<&str>) -> Option<Seq<char>> {
    yaml::opt_view(t)
}

/// The number of settings that may hold a secret.
pub const SECRET_COUNT: usize = 17;

/// The names of the settings that may hold a secret, in the order in which they
/// are resolved.
pub open spec fn secret_names() -> Seq<Seq<char>> {
    seq![
        "api.tmdb_api_key"@,
        "api.tmdb_read_access_token"@,
        "api.tvdb_api_key"@,
        "realdebrid.api_token"@,
        "decypharr.api_token"@,
        "dmm.auth_salt"@,
        "prowlarr.api_key"@,
        "bazarr.api_key"@,
        "tautulli.api_key"@,
        "plex.token"@,
        "emby.api_key"@,
        "jellyfin.api_key"@,
        "web.password"@,
        "web.api_key"@,
        "radarr.api_key"@,
        "sonarr.api_key"@,
        "sonarr_anime.api_key"@,
    ]
}

/// What a result leaves in its setting; an unset one stays unset.
pub open spec fn settled(result: Option<Result<Seq<char>, Seq<char>>>) -> Option<Seq<char>> {
    match result {
        Some(Ok(value)) => Some(value),
        _ => None,
    }
}

/// The number of results before the first error, or before `upto`.
pub open spec fn error_at(results: Seq<Option<Result<Seq<char>, Seq<char>>>>, upto: int) -> int
    decreases upto,
{
    if upto <= 0 {
        0
    } else if error_at(results, upto - 1) < upto - 1 {
        error_at(results, upto - 1)
    } else if results[upto - 1] is Some && results[upto - 1]->0 is Err {
        upto - 1
    } else {
        upto
    }
}

proof fn lemma_error_at(results: Seq<Option<Result<Seq<char>, Seq<char>>>>, at: int, upto: int)
    requires
        0 <= at < upto,
        error_at(results, at) == at,
        results[at] is Some,
        results[at]->0 is Err,
    ensures
        error_at(results, upto) == at,
    decreases upto,
{
    if upto > at + 1 {
        lemma_error_at(results, at, upto - 1);
    }
}

impl Config {
    /// The settings that may hold a secret; `None` for one that is not set.
    pub open spec fn raw_secrets(&self) -> Seq<Option<Seq<char>>> {
        seq![
            Some(self.api.tmdb_api_key@),
            Some(self.api.tmdb_read_access_token@),
            Some(self.api.tvdb_api_key@),
            Some(self.realdebrid.api_token@),
            opt_text(self.decypharr.api_token),
            opt_text(self.dmm.auth_salt),
            Some(self.prowlarr.api_key@),
            Some(self.bazarr.api_key@),
            Some(self.tautulli.api_key@),
            Some(self.plex.token@),
            Some(self.emby.api_key@),
            Some(self.jellyfin.api_key@),
            Some(self.web.password@),
            Some(self.web.api_key@),
            Some(self.radarr.api_key@),
            Some(self.sonarr.api_key@),
            Some(self.sonarr_anime.api_key@),
        ]
    }

    /// What each setting that may hold a secret stands for.
    pub open spec fn secret_results(
        &self,
        dir: Option<Seq<char>>,
        overlay: Map<Seq<char>, Seq<char>>,
        replies: Seq<SecretReply>,
    ) -> Seq<Option<Result<Seq<char>, Seq<char>>>> {
        Seq::new(
            SECRET_COUNT as nat,
            |i: int|
                match self.raw_secrets()[i] {
                    Some(raw) => Some(
                        secret(
                            raw,
                            secret_names()[i],
                            self.security.require_secret_provider && secret_names()[i]
                                != "dmm.auth_salt"@,
                            dir,
                            overlay,
                            replies[i],
                        ),
                    ),
                    None => None,
                },
        )
    }

    /// Whether two configurations agree in all but secrets.
    pub open spec fn agrees_but_secrets(&self, other: &Config) -> bool {
        &&& self.libraries == other.libraries
        &&& self.sources == other.sources
        &&& self.backup == other.backup
        &&& self.db_path == other.db_path
        &&& self.log_level == other.log_level
        &&& self.daemon == other.daemon
        &&& self.symlink == other.symlink
        &&& self.matching == other.matching
        &&& self.features == other.features
        &&& self.security == other.security
        &&& self.cleanup == other.cleanup
        &&& self.loaded_from == other.loaded_from
        &&& self.secret_files == other.secret_files
        &&& self.api.cache_ttl_hours == other.api.cache_ttl_hours
        &&& self.realdebrid.torrents_page_limit == other.realdebrid.torrents_page_limit
        &&& self.realdebrid.pagination_delay_ms == other.realdebrid.pagination_delay_ms
        &&& self.realdebrid.max_pages == other.realdebrid.max_pages
        &&& self.decypharr.url == other.decypharr.url
        &&& self.decypharr.poll_interval_seconds == other.decypharr.poll_interval_seconds
        &&& self.decypharr.completion_timeout_minutes == other.decypharr.completion_timeout_minutes
        &&& self.decypharr.relink_timeout_minutes == other.decypharr.relink_timeout_minutes
        &&& self.decypharr.max_in_flight == other.decypharr.max_in_flight
        &&& self.decypharr.max_requests_per_run == other.decypharr.max_requests_per_run
        &&& self.decypharr.queue_page_size == other.decypharr.queue_page_size
        &&& self.decypharr.arr_name_movie == other.decypharr.arr_name_movie
        &&& self.decypharr.arr_name_tv == other.decypharr.arr_name_tv
        &&& self.decypharr.arr_name_anime == other.decypharr.arr_name_anime
        &&& self.dmm.url == other.dmm.url
        &&& self.dmm.only_trusted == other.dmm.only_trusted
        &&& self.dmm.max_search_results == other.dmm.max_search_results
        &&& self.dmm.max_torrent_results == other.dmm.max_torrent_results
        &&& self.prowlarr.url == other.prowlarr.url
        &&& self.bazarr.url == other.bazarr.url
        &&& self.tautulli.url == other.tautulli.url
        &&& self.plex.url == other.plex.url
        &&& self.plex.refresh_enabled == other.plex.refresh_enabled
        &&& self.plex.refresh_delay_ms == other.plex.refresh_delay_ms
        &&& self.plex.refresh_coalesce_threshold == other.plex.refresh_coalesce_threshold
        &&& self.plex.max_refresh_batches_per_run == other.plex.max_refresh_batches_per_run
        &&& self.plex.abort_refresh_when_capped == other.plex.abort_refresh_when_capped
        &&& self.emby.url == other.emby.url
        &&& self.emby.refresh_enabled == other.emby.refresh_enabled
        &&& self.emby.refresh_delay_ms == other.emby.refresh_delay_ms
        &&& self.emby.refresh_batch_size == other.emby.refresh_batch_size
        &&& self.emby.max_refresh_batches_per_run == other.emby.max_refresh_batches_per_run
        &&& self.emby.abort_refresh_when_capped == other.emby.abort_refresh_when_capped
        &&& self.emby.fallback_to_library_roots_when_capped == other.emby.fallback_to_library_roots_when_capped
        &&& self.jellyfin.url == other.jellyfin.url
        &&& self.jellyfin.refresh_enabled == other.jellyfin.refresh_enabled
        &&& self.jellyfin.refresh_delay_ms == other.jellyfin.refresh_delay_ms
        &&& self.jellyfin.refresh_batch_size == other.jellyfin.refresh_batch_size
        &&& self.jellyfin.max_refresh_batches_per_run == other.jellyfin.max_refresh_batches_per_run
        &&& self.jellyfin.abort_refresh_when_capped == other.jellyfin.abort_refresh_when_capped
        &&& self.jellyfin.fallback_to_library_roots_when_capped == other.jellyfin.fallback_to_library_roots_when_capped
        &&& self.web.enabled == other.web.enabled
        &&& self.web.bind_address == other.web.bind_address
        &&& self.web.allow_remote == other.web.allow_remote
        &&& self.web.port == other.web.port
        &&& self.web.username == other.web.username
        &&& self.radarr.url == other.radarr.url
        &&& self.sonarr.url == other.sonarr.url
        &&& self.sonarr_anime.url == other.sonarr_anime.url
    }

    /// The settings that may hold a secret.
    fn raw_secret_list(&self) -> (out: Vec<Option<String>>)
        ensures
            opt_texts(out@) == self.raw_secrets(),
    {
        let out = vec![
            Some(self.api.tmdb_api_key.clone()),
            Some(self.api.tmdb_read_access_token.clone()),
            Some(self.api.tvdb_api_key.clone()),
            Some(self.realdebrid.api_token.clone()),
            self.decypharr.api_token.clone(),
            self.dmm.auth_salt.clone(),
            Some(self.prowlarr.api_key.clone()),
            Some(self.bazarr.api_key.clone()),
            Some(self.tautulli.api_key.clone()),
            Some(self.plex.token.clone()),
            Some(self.emby.api_key.clone()),
            Some(self.jellyfin.api_key.clone()),
            Some(self.web.password.clone()),
            Some(self.web.api_key.clone()),
            Some(self.radarr.api_key.clone()),
            Some(self.sonarr.api_key.clone()),
            Some(self.sonarr_anime.api_key.clone()),
        ];
        assert(opt_texts(out@) =~= self.raw_secrets());
        out
    }

    /// What has to be fetched, in the order of the settings.
    pub fn secret_requests(&self, config_dir: Option<&str>) -> (out: Vec<SecretRequest>)
        ensures
            out@.len() == SECRET_COUNT,
            forall|i: int|
                0 <= i < SECRET_COUNT ==> asks(
                    self.raw_secrets()[i],
                    opt_view(config_dir),
                    #[trigger] out@[i],
                ),
    {
        let raws = self.raw_secret_list();
        assert(opt_texts(raws@).len() == raws@.len());
        let mut out: Vec<SecretRequest> = Vec::new();
        let mut i: usize = 0;
        while i < raws.len()
            invariant
                i <= raws@.len(),
                opt_texts(raws@) == self.raw_secrets(),
                out@.len() == i,
                forall|k: int|
                    0 <= k < i ==> asks(
                        self.raw_secrets()[k],
                        opt_view(config_dir),
                        #[trigger] out@[k],
                    ),
            decreases raws@.len() - i,
        {
            assert(opt_texts(raws@)[i as int] == opt_text(raws@[i as int]));
            match &raws[i] {
                Some(raw) => {
                    out.push(secret_request(raw.as_str(), config_dir));
                },
                None => {
                    out.push(SecretRequest::Nothing);
                },
            }
            i += 1;
        }
        out
    }

    /// What the settings stand for, up to the first error, and that error. From it on
    /// the settings are as they were.
    fn resolved_secrets(
        &self,
        config_dir: Option<&str>,
        dotenv_overlay: &TextMap<String>,
        replies: &Vec<SecretReply>,
    ) -> (out: (Vec<Option<String>>, Option<String>))
        requires
            dotenv_overlay.wf(),
            replies@.len() == SECRET_COUNT,
        ensures
            out.0@.len() == SECRET_COUNT,
            ({
                let results = self.secret_results(
                    opt_view(config_dir),
                    overlay_texts(*dotenv_overlay),
                    replies@,
                );
                let at = error_at(results, SECRET_COUNT as int);
                &&& 0 <= at <= SECRET_COUNT
                &&& match out.1 {
                    Some(message) => at < SECRET_COUNT && results[at] == Some(
                        Err::<Seq<char>, Seq<char>>(message@),
                    ),
                    None => at == SECRET_COUNT,
                }
                &&& forall|i: int|
                    #![trigger out.0@[i]]
                    0 <= i < SECRET_COUNT ==> opt_text(out.0@[i]) == (if i < at {
                        settled(results[i])
                    } else {
                        self.raw_secrets()[i]
                    }) && (out.0@[i] is Some) == (self.raw_secrets()[i] is Some)
            }),
    {
        let require = self.security.require_secret_provider;
        let ghost dir = opt_view(config_dir);
        let ghost overlay = overlay_texts(*dotenv_overlay);
        let ghost results = self.secret_results(dir, overlay, replies@);
        let mut values = self.raw_secret_list();
        let ghost raws = values@;
        assert(opt_texts(raws).len() == raws.len());
        let names = secret_name_list();
        assert(yaml::keys(names@).len() == names@.len());
        assert forall|k: int| 0 <= k < SECRET_COUNT implies opt_text(#[trigger] values@[k])
            == self.raw_secrets()[k] by {
            assert(opt_texts(raws)[k] == opt_text(raws[k]));
        }
        let mut i: usize = 0;
        while i < SECRET_COUNT
            invariant
                i <= SECRET_COUNT,
                names@.len() == SECRET_COUNT,
                yaml::keys(names@) == secret_names(),
                replies@.len() == SECRET_COUNT,
                require == self.security.require_secret_provider,
                dotenv_overlay.wf(),
                dir == opt_view(config_dir),
                overlay == overlay_texts(*dotenv_overlay),
                results == self.secret_results(dir, overlay, replies@),
                error_at(results, i as int) == i,
                values@.len() == SECRET_COUNT,
                forall|k: int|
                    #![trigger values@[k]]
                    0 <= k < SECRET_COUNT ==> opt_text(values@[k]) == (if k < i {
                        settled(results[k])
                    } else {
                        self.raw_secrets()[k]
                    }) && (values@[k] is Some) == (self.raw_secrets()[k] is Some),
            decreases SECRET_COUNT - i,
        {
            assert(yaml::keys(names@)[i as int] == names@[i as int]@);
            assert(opt_text(values@[i as int]) == self.raw_secrets()[i as int]);
            let resolved = match &values[i] {
                Some(raw) => {
                    let strict = require && !text::text_eq(names[i], "dmm.auth_salt");
                    match resolve_secret(
                        raw.as_str(),
                        names[i],
                        strict,
                        config_dir,
                        dotenv_overlay,
                        &replies[i],
                    ) {
                        Ok(value) => Some(value),
                        Err(message) => {
                            proof {
                                lemma_error_at(results, i as int, SECRET_COUNT as int);
                            }
                            return (values, Some(message));
                        },
                    }
                },
                None => None,
            };
            values.set(i, resolved);
            i += 1;
        }
        (values, None)
    }

    /// Sets the settings that may hold a secret.
    fn put_secrets(&mut self, values: &Vec<Option<String>>)
        requires
            values@.len() == SECRET_COUNT,
            forall|i: int|
                0 <= i < SECRET_COUNT ==> ((#[trigger] values@[i]) is Some) == (
                old(self).raw_secrets()[i] is Some),
        ensures
            final(self).raw_secrets() == opt_texts(values@),
            final(self).agrees_but_secrets(old(self)),
    {
        let ghost before = *self;
        assert forall|i: int| 0 <= i < SECRET_COUNT && i != 4 && i != 5 implies (
        #[trigger] values@[i]) is Some by {
            assert(before.raw_secrets()[i] is Some);
        }
        self.api.tmdb_api_key = text_of(&values[0]);
        self.api.tmdb_read_access_token = text_of(&values[1]);
        self.api.tvdb_api_key = text_of(&values[2]);
        self.realdebrid.api_token = text_of(&values[3]);
        self.decypharr.api_token = values[4].clone();
        self.dmm.auth_salt = values[5].clone();
        self.prowlarr.api_key = text_of(&values[6]);
        self.bazarr.api_key = text_of(&values[7]);
        self.tautulli.api_key = text_of(&values[8]);
        self.plex.token = text_of(&values[9]);
        self.emby.api_key = text_of(&values[10]);
        self.jellyfin.api_key = text_of(&values[11]);
        self.web.password = text_of(&values[12]);
        self.web.api_key = text_of(&values[13]);
        self.radarr.api_key = text_of(&values[14]);
        self.sonarr.api_key = text_of(&values[15]);
        self.sonarr_anime.api_key = text_of(&values[16]);
        assert(self.raw_secrets() =~= opt_texts(values@));
    }

    /// Puts the secrets in the place of what stands for them; `replies` answers
    /// `secret_requests`. At the first error the settings before it are resolved and the
    /// others as they were.
    pub fn resolve_secret_fields(
        &mut self,
        config_dir: Option<&str>,
        dotenv_overlay: &TextMap<String>,
        replies: &Vec<SecretReply>,
    ) -> (out: Result<(), String>)
        requires
            dotenv_overlay.wf(),
            replies@.len() == SECRET_COUNT,
        ensures
            final(self).agrees_but_secrets(old(self)),
            ({
                let results = old(self).secret_results(
                    opt_view(config_dir),
                    overlay_texts(*dotenv_overlay),
                    replies@,
                );
                let at = error_at(results, SECRET_COUNT as int);
                &&& match out {
                    Ok(_) => at == SECRET_COUNT,
                    Err(message) => 0 <= at < SECRET_COUNT && results[at] == Some(
                        Err::<Seq<char>, Seq<char>>(message@),
                    ),
                }
                &&& forall|i: int|
                    0 <= i < SECRET_COUNT ==> #[trigger] final(self).raw_secrets()[i] == (if i
                        < at {
                        settled(results[i])
                    } else {
                        old(self).raw_secrets()[i]
                    })
            }),
    {
        let (values, failed) = self.resolved_secrets(config_dir, dotenv_overlay, replies);
        self.put_secrets(&values);
        assert forall|i: int| 0 <= i < SECRET_COUNT implies #[trigger] self.raw_secrets()[i]
            == opt_text(values@[i]) by {
            assert(opt_texts(values@)[i] == opt_text(values@[i]));
        }
        match failed {
            Some(message) => Err(message),
            None => Ok(()),
        }
    }
}

/// Every setting that may hold a secret is also looked at for the file that it names.
pub proof fn lemma_every_secret_may_name_a_file(i: int) -> (k: int)
    requires
        0 <= i < SECRET_COUNT,
    ensures
        0 <= k < yaml::file_fields().len(),
        yaml::file_fields()[k].2 == secret_names()[i],
{
    if i < 5 {
        i
    } else if i == 5 {
        16
    } else {
        i - 1
    }
}

/// The characters of optional texts.
pub open spec fn opt_texts(list: Seq<Option<String>>) -> Seq<Option<Seq<char>>> {
    list.map_values(|t: Option<String>| opt_text(t))
}

/// Whether a request fetches what the setting stands for.
pub open spec fn asks(raw: Option<Seq<char>>, dir: Option<Seq<char>>, request: SecretRequest) -> bool {
    match request {
        SecretRequest::Variable(name) => raw is Some && asks_variable(raw->0) == Some(name@),
        SecretRequest::File(path) => raw is Some && asks_file(raw->0, dir) == Some(path@),
        SecretRequest::Nothing => raw is None || (asks_variable(raw->0) is None && asks_file(
            raw->0,
            dir,
        ) is None),
    }
}

fn text_of(value: &Option<String>) -> (out: String)
    requires
        value is Some,
    ensures
        out@ == value->0@,
{
    match value {
        Some(t) => t.clone(),
        None => String::new(),
    }
}

/// The names of the settings that may hold a secret.
fn secret_name_list() -> (names: Vec<&'static str>)
    ensures
        yaml::keys(names@) == secret_names(),
{
    let names = vec![
        "api.tmdb_api_key",
        "api.tmdb_read_access_token",
        "api.tvdb_api_key",
        "realdebrid.api_token",
        "decypharr.api_token",
        "dmm.auth_salt",
        "prowlarr.api_key",
        "bazarr.api_key",
        "tautulli.api_key",
        "plex.token",
        "emby.api_key",
        "jellyfin.api_key",
        "web.password",
        "web.api_key",
        "radarr.api_key",
        "sonarr.api_key",
        "sonarr_anime.api_key",
    ];
    assert(yaml::keys(names@) =~= secret_names());
    names
}

// ---------------------------------------------------------------------------
// What a setting stands for

/// A variable's name stands behind `env:`, a file's path behind `secretfile:`, seen from
/// the configuration's directory, and every other text stands for itself.
pub proof fn lemma_providers_are_told_by_prefix(rest: Seq<char>, dir: Option<Seq<char>>)
    ensures
        asks_variable("env:"@ + rest) == Some(rest),
        asks_variable("secretfile:"@ + rest) is None,
        asks_file("secretfile:"@ + rest, dir) == Some(
            match dir {
                Some(d) => crate::paths::joined(d, rest),
                None => rest,
            },
        ),
        asks_file("env:"@ + rest, dir) is None,
        !text::begins(rest, "env:"@) && !text::begins(rest, "secretfile:"@) ==> asks_variable(rest)
            is None && asks_file(rest, dir) is None,
{
    reveal_strlit("env:");
    reveal_strlit("secretfile:");
    let a = "env:"@ + rest;
    let b = "secretfile:"@ + rest;
    assert(a.subrange(0, 4) =~= "env:"@);
    assert(a.skip(4) =~= rest);
    assert(b.subrange(0, 11) =~= "secretfile:"@);
    assert(b.skip(11) =~= rest);
    assert(!text::begins(b, "env:"@)) by {
        if text::begins(b, "env:"@) {
            assert(b.subrange(0, 4)[0] == b[0]);
        }
    }
}

/// A variable is taken from the environment, else from the overlay, and trimmed; where
/// neither has it that is an error.
pub proof fn lemma_variables_are_looked_up(
    name: Seq<char>,
    field: Seq<char>,
    require_provider: bool,
    dir: Option<Seq<char>>,
    overlay: Map<Seq<char>, Seq<char>>,
    reply: SecretReply,
)
    ensures
        ({
            let result = secret("env:"@ + name, field, require_provider, dir, overlay, reply);
            &&& reply matches SecretReply::Found(value) ==> result == Ok::<Seq<char>, Seq<char>>(
                text::trim(value@),
            )
            &&& reply is Failed && overlay.contains_key(name) ==> result == Ok::<
                Seq<char>,
                Seq<char>,
            >(text::trim(overlay[name]))
            &&& result is Err <==> reply is Failed && !overlay.contains_key(name)
        }),
{
    lemma_providers_are_told_by_prefix(name, dir);
    reveal_strlit("env:");
}

/// A file's text is trimmed; a file that cannot be read, and one with nothing in it, are
/// errors, whatever the overlay holds.
pub proof fn lemma_files_are_read(
    path: Seq<char>,
    field: Seq<char>,
    require_provider: bool,
    dir: Option<Seq<char>>,
    overlay: Map<Seq<char>, Seq<char>>,
    reply: SecretReply,
)
    ensures
        ({
            let result = secret("secretfile:"@ + path, field, require_provider, dir, overlay, reply);
            &&& result is Ok <==> (reply matches SecretReply::Found(value) && text::trim(
                value@,
            ).len() > 0)
            &&& result matches Ok(found) ==> (reply matches SecretReply::Found(value) && found
                == text::trim(value@))
            &&& (reply matches SecretReply::Failed(reason) ==> (result matches Err(message)
                && text::ends(message, reason@)))
        }),
{
    lemma_providers_are_told_by_prefix(path, dir);
    reveal_strlit("secretfile:");
    if let SecretReply::Failed(reason) = reply {
        let message = secret("secretfile:"@ + path, field, require_provider, dir, overlay, reply)->Err_0;
        assert(message.subrange(message.len() - reason@.len(), message.len() as int) =~= reason@);
    }
}

/// A secret in plain text stands for itself where that is allowed, and is refused where a
/// provider is required; an empty setting is never refused.
pub proof fn lemma_plain_secrets_need_leave(
    raw: Seq<char>,
    field: Seq<char>,
    require_provider: bool,
    dir: Option<Seq<char>>,
    overlay: Map<Seq<char>, Seq<char>>,
    reply: SecretReply,
)
    requires
        !text::begins(raw, "env:"@),
        !text::begins(raw, "secretfile:"@),
    ensures
        secret(raw, field, require_provider, dir, overlay, reply) is Err <==> require_provider
            && raw.len() > 0,
        secret(raw, field, require_provider, dir, overlay, reply) matches Ok(value) ==> value
            == raw,
{
}

/// Where a provider is required no setting keeps a secret in plain text, but for the salt.
pub proof fn lemma_required_providers_are_used(
    config: &Config,
    dir: Option<Seq<char>>,
    overlay: Map<Seq<char>, Seq<char>>,
    replies: Seq<SecretReply>,
    i: int,
)
    requires
        0 <= i < 17,
        config.raw_secrets()[i] is Some,
        config.raw_secrets()[i]->0.len() > 0,
        !text::begins(config.raw_secrets()[i]->0, "env:"@),
        !text::begins(config.raw_secrets()[i]->0, "secretfile:"@),
    ensures
        ({
            let result = config.secret_results(dir, overlay, replies)[i];
            &&& result is Some
            &&& result->0 is Err <==> config.security.require_secret_provider && secret_names()[i]
                != "dmm.auth_salt"@
        }),
{
}

/// Each name is that of its setting.
pub proof fn lemma_secret_settings(config: &Config, i: int)
    requires
        0 <= i < 17,
    ensures
        secret_names().len() == 17,
        config.raw_secrets().len() == 17,
        ({
            let raw = config.raw_secrets()[i];
            let name = secret_names()[i];
            &&& i == 0 ==> name == "api.tmdb_api_key"@ && raw == Some(config.api.tmdb_api_key@)
            &&& i == 1 ==> name == "api.tmdb_read_access_token"@ && raw == Some(
                config.api.tmdb_read_access_token@,
            )
            &&& i == 2 ==> name == "api.tvdb_api_key"@ && raw == Some(config.api.tvdb_api_key@)
            &&& i == 3 ==> name == "realdebrid.api_token"@ && raw == Some(
                config.realdebrid.api_token@,
            )
            &&& i == 4 ==> name == "decypharr.api_token"@ && (raw is Some
                == config.decypharr.api_token is Some) && (config.decypharr.api_token matches Some(
                t,
            ) ==> raw == Some(t@))
            &&& i == 5 ==> name == "dmm.auth_salt"@ && (raw is Some == config.dmm.auth_salt is Some)
                && (config.dmm.auth_salt matches Some(t) ==> raw == Some(t@))
            &&& i == 6 ==> name == "prowlarr.api_key"@ && raw == Some(config.prowlarr.api_key@)
            &&& i == 7 ==> name == "bazarr.api_key"@ && raw == Some(config.bazarr.api_key@)
            &&& i == 8 ==> name == "tautulli.api_key"@ && raw == Some(config.tautulli.api_key@)
            &&& i == 9 ==> name == "plex.token"@ && raw == Some(config.plex.token@)
            &&& i == 10 ==> name == "emby.api_key"@ && raw == Some(config.emby.api_key@)
            &&& i == 11 ==> name == "jellyfin.api_key"@ && raw == Some(config.jellyfin.api_key@)
            &&& i == 12 ==> name == "web.password"@ && raw == Some(config.web.password@)
            &&& i == 13 ==> name == "web.api_key"@ && raw == Some(config.web.api_key@)
            &&& i == 14 ==> name == "radarr.api_key"@ && raw == Some(config.radarr.api_key@)
            &&& i == 15 ==> name == "sonarr.api_key"@ && raw == Some(config.sonarr.api_key@)
            &&& i == 16 ==> name == "sonarr_anime.api_key"@ && raw == Some(
                config.sonarr_anime.api_key@,
            )
        }),
{
}

/// The first error ends the resolving: no result before it is one, and where there is none
/// all are resolved.
pub proof fn lemma_first_error_ends(
    results: Seq<Option<Result<Seq<char>, Seq<char>>>>,
    upto: int,
)
    requires
        0 <= upto <= results.len(),
    ensures
        ({
            let at = error_at(results, upto);
            &&& 0 <= at <= upto
            &&& forall|i: int|
                0 <= i < at ==> !((#[trigger] results[i]) is Some && results[i]->0 is Err)
            &&& at < upto ==> results[at] is Some && results[at]->0 is Err
        }),
    decreases upto,
{
    if upto > 0 {
        lemma_first_error_ends(results, upto - 1);
    }
}

/// Resolving secrets changes nothing else: configurations that agree in all but secrets are
/// alike in every other setting.
pub proof fn lemma_only_secrets_differ(a: Config, b: Config)
    requires
        b.agrees_but_secrets(&a),
    ensures
        b == (Config {
            api: crate::config::ApiConfig {
                tmdb_api_key: b.api.tmdb_api_key,
                tmdb_read_access_token: b.api.tmdb_read_access_token,
                tvdb_api_key: b.api.tvdb_api_key,
                ..a.api
            },
            realdebrid: crate::config::RealDebridConfig {
                api_token: b.realdebrid.api_token,
                ..a.realdebrid
            },
            decypharr: crate::config::DecypharrConfig {
                api_token: b.decypharr.api_token,
                ..a.decypharr
            },
            dmm: crate::config::DmmConfig { auth_salt: b.dmm.auth_salt, ..a.dmm },
            prowlarr: crate::config::ProwlarrConfig { api_key: b.prowlarr.api_key, ..a.prowlarr },
            bazarr: crate::config::BazarrConfig { api_key: b.bazarr.api_key, ..a.bazarr },
            tautulli: crate::config::TautulliConfig { api_key: b.tautulli.api_key, ..a.tautulli },
            plex: crate::config::PlexConfig { token: b.plex.token, ..a.plex },
            emby: crate::config::MediaBrowserConfig { api_key: b.emby.api_key, ..a.emby },
            jellyfin: crate::config::MediaBrowserConfig {
                api_key: b.jellyfin.api_key,
                ..a.jellyfin
            },
            web: crate::config::WebConfig {
                password: b.web.password,
                api_key: b.web.api_key,
                ..a.web
            },
            radarr: crate::config::RadarrConfig { api_key: b.radarr.api_key, ..a.radarr },
            sonarr: crate::config::SonarrConfig { api_key: b.sonarr.api_key, ..a.sonarr },
            sonarr_anime: crate::config::SonarrConfig {
                api_key: b.sonarr_anime.api_key,
                ..a.sonarr_anime
            },
            ..a
        }),
{
}

/// What is asked for is what a setting names: a variable by its name, a file by its path as
/// seen from the directory, and nothing where the setting is not set or names nothing.
pub proof fn lemma_requests_ask_for_what_is_named(
    raw: Option<Seq<char>>,
    dir: Option<Seq<char>>,
    request: SecretRequest,
)
    requires
        asks(raw, dir, request),
    ensures
        raw is None ==> request is Nothing,
        raw matches Some(t) ==> {
            &&& request is Variable <==> text::begins(t, "env:"@)
            &&& request is File <==> text::begins(t, "secretfile:"@) && !text::begins(t, "env:"@)
            &&& request matches SecretRequest::Variable(name) ==> t == "env:"@ + name@
        },
{
    reveal_strlit("env:");
    if let Some(t) = raw {
        if let SecretRequest::Variable(name) = request {
            assert(t =~= "env:"@ + name@) by {
                assert(t.subrange(0, 4) == "env:"@);
                assert(t.skip(4) == name@);
                assert(t =~= t.subrange(0, 4) + t.skip(4));
            }
        }
    }
}

/// What was resolved stands in its setting, and what was not set stays unset.
pub proof fn lemma_resolved_secrets_are_put(result: Option<Result<Seq<char>, Seq<char>>>)
    ensures
        result matches Some(Ok(value)) ==> settled(result) == Some(value),
        result is None ==> settled(result) is None,
{
}

} // verus!
