//! The status: how many links there are, and whether the services answer.

use vstd::prelude::*;
use crate::config::Config;
use crate::db::types::AcquisitionJobCounts;
use crate::text;

verus! {

// ---------------------------------------------------------------------------
// What is shown

/// What a status shows.
#[derive(Debug, Clone, Copy, PartialEq, Eq, Structural)]
pub struct StatusOutput {
    /// Whether the numbers are shown as a panel.
    pub panel: bool,
    /// Whether the services are asked.
    pub health: bool,
    /// Whether all that was found is shown as one JSON value.
    pub json: bool,
}

/// Decides what a status shows.
pub fn run_status(health: bool, as_json: bool) -> (out: StatusOutput)
    ensures
        out == (StatusOutput { panel: !as_json, health, json: as_json }),
{
    StatusOutput { panel: !as_json, health, json: as_json }
}

/// A row of the panel.
#[derive(Debug, Clone, Copy, PartialEq, Eq)]
pub enum PanelRow {
    /// The upper edge.
    Top,
    /// The title.
    Title(&'static str),
    /// A line between two parts.
    Divider,
    /// A number and what it counts.
    Count(&'static str, i64),
    /// The lower edge.
    Bottom,
}

/// The rows of the panel.
pub open spec fn panel(active: i64, dead: i64, total: i64, jobs: AcquisitionJobCounts) -> Seq<
    PanelRow,
> {
    seq![
        PanelRow::Top,
        PanelRow::Title("Symlinkarr Status"),
        PanelRow::Divider,
        PanelRow::Count("  Active symlinks:", active),
        PanelRow::Count("  Dead links:", dead),
        PanelRow::Count("  Total:", total),
        PanelRow::Divider,
        PanelRow::Count("  Auto-acquire active:", jobs.total() as i64),
    ] + (if jobs.total() > 0 {
        seq![
            PanelRow::Count("  Queued:", jobs.queued),
            PanelRow::Count("  Downloading:", jobs.downloading),
            PanelRow::Count("  Relinking:", jobs.relinking),
            PanelRow::Count("  Blocked:", jobs.blocked),
            PanelRow::Count("  No result:", jobs.no_result),
            PanelRow::Count("  Failed:", jobs.failed),
            PanelRow::Count("  Unlinked:", jobs.completed_unlinked),
        ]
    } else {
        Seq::<PanelRow>::empty()
    }) + seq![PanelRow::Bottom]
}

/// The rows of the panel: the links, and the jobs one by one where there are any.
pub fn panel_rows(active: i64, dead: i64, total: i64, jobs: &AcquisitionJobCounts) -> (rows: Vec<
    PanelRow,
>)
    requires
        i64::MIN <= jobs.total() <= i64::MAX,
    ensures
        rows@ == panel(active, dead, total, *jobs),
{
    let mut rows: Vec<PanelRow> = Vec::new();
    rows.push(PanelRow::Top);
    rows.push(PanelRow::Title("Symlinkarr Status"));
    rows.push(PanelRow::Divider);
    rows.push(PanelRow::Count("  Active symlinks:", active));
    rows.push(PanelRow::Count("  Dead links:", dead));
    rows.push(PanelRow::Count("  Total:", total));
    rows.push(PanelRow::Divider);
    rows.push(PanelRow::Count("  Auto-acquire active:", jobs.active_total()));
    if jobs.active_total() > 0 {
        rows.push(PanelRow::Count("  Queued:", jobs.queued));
        rows.push(PanelRow::Count("  Downloading:", jobs.downloading));
        rows.push(PanelRow::Count("  Relinking:", jobs.relinking));
        rows.push(PanelRow::Count("  Blocked:", jobs.blocked));
        rows.push(PanelRow::Count("  No result:", jobs.no_result));
        rows.push(PanelRow::Count("  Failed:", jobs.failed));
        rows.push(PanelRow::Count("  Unlinked:", jobs.completed_unlinked));
    }
    rows.push(PanelRow::Bottom);
    assert(rows@ =~= panel(active, dead, total, *jobs));
    rows
}

// ---------------------------------------------------------------------------
// Media servers

/// A media server.
#[derive(Debug, Clone, Copy, PartialEq, Eq, Structural)]
pub enum MediaServerKind {
    Plex,
    Emby,
    Jellyfin,
}

impl MediaServerKind {
    /// The name.
    pub open spec fn name(self) -> Seq<char> {
        match self {
            MediaServerKind::Plex => "Plex"@,
            MediaServerKind::Emby => "Emby"@,
            MediaServerKind::Jellyfin => "Jellyfin"@,
        }
    }

    /// The name.
    pub fn as_str(self) -> (out: &'static str)
        ensures
            out@ == self.name(),
    {
        match self {
            MediaServerKind::Plex => "Plex",
            MediaServerKind::Emby => "Emby",
            MediaServerKind::Jellyfin => "Jellyfin",
        }
    }

    /// The name that programs read.
    pub fn service_key(self) -> (out: &'static str)
        ensures
            out@ == (match self {
                MediaServerKind::Plex => "plex"@,
                MediaServerKind::Emby => "emby"@,
                MediaServerKind::Jellyfin => "jellyfin"@,
            }),
    {
        match self {
            MediaServerKind::Plex => "plex",
            MediaServerKind::Emby => "emby",
            MediaServerKind::Jellyfin => "jellyfin",
        }
    }

    /// Whether the server is configured.
    pub open spec fn is_configured(self, cfg: Config) -> bool {
        match self {
            MediaServerKind::Plex => cfg.plex.url@.len() > 0 && cfg.plex.token@.len() > 0,
            MediaServerKind::Emby => cfg.emby.url@.len() > 0 && cfg.emby.api_key@.len() > 0,
            MediaServerKind::Jellyfin => cfg.jellyfin.url@.len() > 0 && cfg.jellyfin.api_key@.len()
                > 0,
        }
    }

    /// Whether the server is configured and to be refreshed.
    pub open spec fn is_refreshed(self, cfg: Config) -> bool {
        self.is_configured(cfg) && match self {
            MediaServerKind::Plex => cfg.plex.refresh_enabled,
            MediaServerKind::Emby => cfg.emby.refresh_enabled,
            MediaServerKind::Jellyfin => cfg.jellyfin.refresh_enabled,
        }
    }

    /// Whether the server is configured.
    pub fn configured(self, cfg: &Config) -> (b: bool)
        ensures
            b == self.is_configured(*cfg),
    {
        match self {
            MediaServerKind::Plex => cfg.has_plex(),
            MediaServerKind::Emby => cfg.has_emby(),
            MediaServerKind::Jellyfin => cfg.has_jellyfin(),
        }
    }
}

/// The media servers, in the order in which they are shown.
pub open spec fn servers() -> Seq<MediaServerKind> {
    seq![MediaServerKind::Plex, MediaServerKind::Emby, MediaServerKind::Jellyfin]
}

/// The media servers that are refreshed, in the order in which they are shown.
pub open spec fn refreshed_servers(cfg: Config) -> Seq<MediaServerKind> {
    servers().filter(|server: MediaServerKind| server.is_refreshed(cfg))
}

/// The media servers that are refreshed.
pub fn configured_refresh_backends(cfg: &Config) -> (out: Vec<MediaServerKind>)
    ensures
        out@ == refreshed_servers(*cfg),
{
    let ghost keep = |server: MediaServerKind| server.is_refreshed(*cfg);
    let mut out: Vec<MediaServerKind> = Vec::new();
    if cfg.has_plex_refresh() {
        out.push(MediaServerKind::Plex);
    }
    if cfg.has_emby_refresh() {
        out.push(MediaServerKind::Emby);
    }
    if cfg.has_jellyfin_refresh() {
        out.push(MediaServerKind::Jellyfin);
    }
    proof {
        reveal_with_fuel(Seq::filter, 4);
        let all = servers();
        assert(all.drop_last() =~= seq![MediaServerKind::Plex, MediaServerKind::Emby]);
        assert(all.drop_last().drop_last() =~= seq![MediaServerKind::Plex]);
        assert(all.drop_last().drop_last().drop_last() =~= Seq::<MediaServerKind>::empty());
        assert(out@ =~= all.filter(keep));
    }
    out
}

/// The names of servers.
pub open spec fn server_names(list: Seq<MediaServerKind>) -> Seq<Seq<char>> {
    list.map_values(|server: MediaServerKind| server.name())
}

/// The names of servers, with commas between them.
pub fn display_server_list(list: &Vec<MediaServerKind>) -> (out: String)
    ensures
        out@ == text::join(server_names(list@), ", "@),
{
    let mut names: Vec<String> = Vec::new();
    let mut i: usize = 0;
    assert(text::views(names@) =~= server_names(list@).take(0));
    while i < list.len()
        invariant
            i <= list@.len(),
            text::views(names@) == server_names(list@).take(i as int),
        decreases list@.len() - i,
    {
        text::push_text(&mut names, list[i].as_str().to_owned());
        assert(text::views(names@) =~= server_names(list@).take(i + 1));
        i += 1;
    }
    assert(server_names(list@).take(i as int) =~= server_names(list@));
    text::join_texts(&names, ", ")
}

/// What is said of the media servers that are refreshed.
pub fn refresh_backends_line(list: &Vec<MediaServerKind>) -> (out: String)
    ensures
        out@ == "   🔁 Active refresh backends: "@ + (if list@.len() == 0 {
            "none"@
        } else {
            text::join(server_names(list@), ", "@)
        }),
{
    if list.len() == 0 {
        text::concat2("   🔁 Active refresh backends: ", "none")
    } else {
        text::concat2("   🔁 Active refresh backends: ", display_server_list(list).as_str())
    }
}

/// What the collections of a server are called.
pub fn collection_label(server: MediaServerKind, count: usize) -> (out: &'static str)
    ensures
        out@ == (match (server, count == 1) {
            (MediaServerKind::Plex, true) => "section"@,
            (MediaServerKind::Plex, false) => "sections"@,
            (_, true) => "library"@,
            (_, false) => "libraries"@,
        }),
{
    match server {
        MediaServerKind::Plex => if count == 1 {
            "section"
        } else {
            "sections"
        },
        MediaServerKind::Emby | MediaServerKind::Jellyfin => if count == 1 {
            "library"
        } else {
            "libraries"
        },
    }
}

// ---------------------------------------------------------------------------
// The health of services

/// A service that is asked, in the order in which they are asked.
#[derive(Debug, Clone, Copy, PartialEq, Eq, Structural)]
pub enum Service {
    Tautulli,
    MediaServer(MediaServerKind),
    Prowlarr,
    Bazarr,
    Radarr,
    Sonarr,
    SonarrAnime,
}

/// What a service that is configured replied.
#[derive(Debug, PartialEq, Eq)]
pub enum Reply {
    /// It answered.
    Answered,
    /// It answered with the number of active streams.
    Streams(usize),
    /// It answered with the number of its collections.
    Collections(usize),
    /// It could not be asked, and why.
    Failed(String),
}

/// What is known of a service.
#[derive(Debug, PartialEq, Eq)]
pub enum Health {
    NotConfigured,
    Replied(Reply),
}

impl Service {
    /// The name.
    pub open spec fn name(self) -> Seq<char> {
        match self {
            Service::Tautulli => "Tautulli"@,
            Service::MediaServer(server) => server.name(),
            Service::Prowlarr => "Prowlarr"@,
            Service::Bazarr => "Bazarr"@,
            Service::Radarr => "Radarr"@,
            Service::Sonarr => "Sonarr"@,
            Service::SonarrAnime => "Sonarr-Anime"@,
        }
    }

    /// The name.
    pub fn as_str(self) -> (out: &'static str)
        ensures
            out@ == self.name(),
    {
        match self {
            Service::Tautulli => "Tautulli",
            Service::MediaServer(server) => server.as_str(),
            Service::Prowlarr => "Prowlarr",
            Service::Bazarr => "Bazarr",
            Service::Radarr => "Radarr",
            Service::Sonarr => "Sonarr",
            Service::SonarrAnime => "Sonarr-Anime",
        }
    }

    /// The name that programs read: in lower case, with no hyphen.
    pub open spec fn key(self) -> Seq<char> {
        text::replace(text::lowercase(self.name()), "-"@, "_"@)
    }

    /// The name that programs read.
    pub fn service_key(self) -> (out: String)
        ensures
            out@ == self.key(),
    {
        proof {
            reveal_strlit("-");
        }
        let lower = self.as_str().to_lowercase();
        text::replace_text(lower.as_str(), "-", "_")
    }

    /// Whether the service is configured.
    pub open spec fn is_configured(self, cfg: Config) -> bool {
        match self {
            Service::Tautulli => cfg.tautulli.url@.len() > 0 && cfg.tautulli.api_key@.len() > 0,
            Service::MediaServer(server) => server.is_configured(cfg),
            Service::Prowlarr => cfg.prowlarr.url@.len() > 0 && cfg.prowlarr.api_key@.len() > 0,
            Service::Bazarr => cfg.bazarr.url@.len() > 0 && cfg.bazarr.api_key@.len() > 0,
            Service::Radarr => cfg.radarr.url@.len() > 0 && cfg.radarr.api_key@.len() > 0,
            Service::Sonarr => cfg.sonarr.url@.len() > 0 && cfg.sonarr.api_key@.len() > 0,
            Service::SonarrAnime => cfg.sonarr_anime.url@.len() > 0
                && cfg.sonarr_anime.api_key@.len() > 0,
        }
    }

    /// Whether the service is configured; only then it is asked.
    pub fn configured(self, cfg: &Config) -> (b: bool)
        ensures
            b == self.is_configured(*cfg),
    {
        match self {
            Service::Tautulli => cfg.has_tautulli(),
            Service::MediaServer(server) => server.configured(cfg),
            Service::Prowlarr => cfg.has_prowlarr(),
            Service::Bazarr => cfg.has_bazarr(),
            Service::Radarr => cfg.has_radarr(),
            Service::Sonarr => cfg.has_sonarr(),
            Service::SonarrAnime => cfg.has_sonarr_anime(),
        }
    }
}

/// The services, in the order in which they are asked.
pub open spec fn services() -> Seq<Service> {
    seq![
        Service::Tautulli,
        Service::MediaServer(MediaServerKind::Plex),
        Service::MediaServer(MediaServerKind::Emby),
        Service::MediaServer(MediaServerKind::Jellyfin),
        Service::Prowlarr,
        Service::Bazarr,
        Service::Radarr,
        Service::Sonarr,
        Service::SonarrAnime,
    ]
}

/// The services, in the order in which they are asked.
pub fn checked_services() -> (out: Vec<Service>)
    ensures
        out@ == services(),
{
    let mut out: Vec<Service> = Vec::new();
    out.push(Service::Tautulli);
    out.push(Service::MediaServer(MediaServerKind::Plex));
    out.push(Service::MediaServer(MediaServerKind::Emby));
    out.push(Service::MediaServer(MediaServerKind::Jellyfin));
    out.push(Service::Prowlarr);
    out.push(Service::Bazarr);
    out.push(Service::Radarr);
    out.push(Service::Sonarr);
    out.push(Service::SonarrAnime);
    assert(out@ =~= services());
    out
}

/// Each service is asked once.
pub proof fn lemma_each_service_is_asked_once(service: Service)
    ensures
        services().contains(service),
        services().no_duplicates(),
{
    let all = services();
    match service {
        Service::Tautulli => assert(all[0] == service),
        Service::MediaServer(MediaServerKind::Plex) => assert(all[1] == service),
        Service::MediaServer(MediaServerKind::Emby) => assert(all[2] == service),
        Service::MediaServer(MediaServerKind::Jellyfin) => assert(all[3] == service),
        Service::Prowlarr => assert(all[4] == service),
        Service::Bazarr => assert(all[5] == service),
        Service::Radarr => assert(all[6] == service),
        Service::Sonarr => assert(all[7] == service),
        Service::SonarrAnime => assert(all[8] == service),
    }
}

/// What is known of a service: what it replied, where it is configured.
pub fn check_service(cfg: &Config, service: Service, reply: Reply) -> (out: Health)
    ensures
        out == (if service.is_configured(*cfg) {
            Health::Replied(reply)
        } else {
            Health::NotConfigured
        }),
{
    if service.configured(cfg) {
        Health::Replied(reply)
    } else {
        Health::NotConfigured
    }
}

/// What a line says behind the name.
pub open spec fn health_text(service: Service, health: Health) -> Seq<char> {
    match health {
        Health::NotConfigured => "Not configured"@,
        Health::Replied(Reply::Answered) => "Connected"@,
        Health::Replied(Reply::Streams(streams)) => "Connected ("@ + text::decimal(streams as nat)
            + " active streams)"@,
        Health::Replied(Reply::Collections(count)) => "Connected ("@ + text::decimal(count as nat)
            + " "@ + (match (service, count == 1) {
            (Service::MediaServer(MediaServerKind::Plex), true) => "section"@,
            (Service::MediaServer(MediaServerKind::Plex), false) => "sections"@,
            (_, true) => "library"@,
            (_, false) => "libraries"@,
        }) + ")"@,
        Health::Replied(Reply::Failed(error)) => "Connection error ("@ + error@ + ")"@,
    }
}

/// The sign that a line begins with.
pub open spec fn health_sign(health: Health) -> Seq<char> {
    match health {
        Health::NotConfigured => "   ⚪ "@,
        Health::Replied(Reply::Failed(_)) => "   ❌ "@,
        Health::Replied(_) => "   ✅ "@,
    }
}

/// The line that tells of the health of a service.
pub fn health_line(service: Service, health: &Health) -> (out: String)
    ensures
        out@ == health_sign(*health) + service.name() + ": "@ + health_text(service, *health),
{
    let (sign, said): (&str, String) = match health {
        Health::NotConfigured => ("   ⚪ ", "Not configured".to_owned()),
        Health::Replied(Reply::Answered) => ("   ✅ ", "Connected".to_owned()),
        Health::Replied(Reply::Streams(streams)) => (
            "   ✅ ",
            text::concat3(
                "Connected (",
                text::decimal_text(*streams as u64).as_str(),
                " active streams)",
            ),
        ),
        Health::Replied(Reply::Collections(count)) => {
            let server = match service {
                Service::MediaServer(server) => server,
                _ => MediaServerKind::Emby,
            };
            (
                "   ✅ ",
                text::concat5(
                    "Connected (",
                    text::decimal_text(*count as u64).as_str(),
                    " ",
                    collection_label(server, *count),
                    ")",
                ),
            )
        },
        Health::Replied(Reply::Failed(error)) => (
            "   ❌ ",
            text::concat3("Connection error (", error.as_str(), ")"),
        ),
    };
    text::concat4(sign, service.as_str(), ": ", said.as_str())
}

/// The line that tells of what was watched lately.
pub fn recent_activity_line(entries: usize) -> (out: String)
    ensures
        out@ == "      Recent activity: "@ + text::decimal(entries as nat) + " entries fetched"@,
{
    text::concat3(
        "      Recent activity: ",
        text::decimal_text(entries as u64).as_str(),
        " entries fetched",
    )
}

// ---------------------------------------------------------------------------
// What is shown, and who is asked

/// The panel shows each number under its own name, and the jobs one by one exactly where
/// there are any.
pub proof fn lemma_panel_shows_the_numbers(
    active: i64,
    dead: i64,
    total: i64,
    jobs: AcquisitionJobCounts,
)
    requires
        i64::MIN <= jobs.total() <= i64::MAX,
    ensures
        ({
            let rows = panel(active, dead, total, jobs);
            &&& rows.len() == (if jobs.total() > 0 {
                16int
            } else {
                9
            })
            &&& rows[0] is Top && rows.last() is Bottom
            &&& rows[3] == PanelRow::Count("  Active symlinks:", active)
            &&& rows[4] == PanelRow::Count("  Dead links:", dead)
            &&& rows[5] == PanelRow::Count("  Total:", total)
            &&& (rows[7] matches PanelRow::Count(_, n) && n == jobs.total())
            &&& jobs.total() > 0 ==> {
                &&& rows[8] == PanelRow::Count("  Queued:", jobs.queued)
                &&& rows[9] == PanelRow::Count("  Downloading:", jobs.downloading)
                &&& rows[10] == PanelRow::Count("  Relinking:", jobs.relinking)
                &&& rows[11] == PanelRow::Count("  Blocked:", jobs.blocked)
                &&& rows[12] == PanelRow::Count("  No result:", jobs.no_result)
                &&& rows[13] == PanelRow::Count("  Failed:", jobs.failed)
                &&& rows[14] == PanelRow::Count("  Unlinked:", jobs.completed_unlinked)
            }
        }),
{
}

/// A media server is refreshed exactly where its URL and its key are set and its refresh is
/// enabled; those that are keep their order.
pub proof fn lemma_refreshed_servers(cfg: Config)
    ensures
        ({
            let plex = cfg.plex.url@.len() > 0 && cfg.plex.token@.len() > 0
                && cfg.plex.refresh_enabled;
            let emby = cfg.emby.url@.len() > 0 && cfg.emby.api_key@.len() > 0
                && cfg.emby.refresh_enabled;
            let jellyfin = cfg.jellyfin.url@.len() > 0 && cfg.jellyfin.api_key@.len() > 0
                && cfg.jellyfin.refresh_enabled;
            let none = Seq::<MediaServerKind>::empty();
            refreshed_servers(cfg) == (if plex {
                seq![MediaServerKind::Plex]
            } else {
                none
            }) + (if emby {
                seq![MediaServerKind::Emby]
            } else {
                none
            }) + (if jellyfin {
                seq![MediaServerKind::Jellyfin]
            } else {
                none
            })
        }),
{
    reveal_with_fuel(Seq::filter, 4);
    let all = servers();
    assert(all.drop_last() =~= seq![MediaServerKind::Plex, MediaServerKind::Emby]);
    assert(all.drop_last().drop_last() =~= seq![MediaServerKind::Plex]);
    assert(all.drop_last().drop_last().drop_last() =~= Seq::<MediaServerKind>::empty());
}

/// A service is asked exactly where its URL and its key are set.
pub proof fn lemma_configured_services(cfg: Config, service: Service)
    ensures
        service is Tautulli ==> service.is_configured(cfg) == (cfg.tautulli.url@.len() > 0
            && cfg.tautulli.api_key@.len() > 0),
        service is Prowlarr ==> service.is_configured(cfg) == (cfg.prowlarr.url@.len() > 0
            && cfg.prowlarr.api_key@.len() > 0),
        service is Bazarr ==> service.is_configured(cfg) == (cfg.bazarr.url@.len() > 0
            && cfg.bazarr.api_key@.len() > 0),
        service is Radarr ==> service.is_configured(cfg) == (cfg.radarr.url@.len() > 0
            && cfg.radarr.api_key@.len() > 0),
        service is Sonarr ==> service.is_configured(cfg) == (cfg.sonarr.url@.len() > 0
            && cfg.sonarr.api_key@.len() > 0),
        service is SonarrAnime ==> service.is_configured(cfg) == (cfg.sonarr_anime.url@.len() > 0
            && cfg.sonarr_anime.api_key@.len() > 0),
        service == Service::MediaServer(MediaServerKind::Plex) ==> service.is_configured(cfg) == (
        cfg.plex.url@.len() > 0 && cfg.plex.token@.len() > 0),
        service == Service::MediaServer(MediaServerKind::Emby) ==> service.is_configured(cfg) == (
        cfg.emby.url@.len() > 0 && cfg.emby.api_key@.len() > 0),
        service == Service::MediaServer(MediaServerKind::Jellyfin) ==> service.is_configured(cfg)
            == (cfg.jellyfin.url@.len() > 0 && cfg.jellyfin.api_key@.len() > 0),
{
}

/// The names of services are those that are shown.
pub proof fn lemma_service_names(service: Service)
    ensures
        service is Tautulli ==> service.name() == "Tautulli"@,
        service is Prowlarr ==> service.name() == "Prowlarr"@,
        service is Bazarr ==> service.name() == "Bazarr"@,
        service is Radarr ==> service.name() == "Radarr"@,
        service is Sonarr ==> service.name() == "Sonarr"@,
        service is SonarrAnime ==> service.name() == "Sonarr-Anime"@,
        service == Service::MediaServer(MediaServerKind::Plex) ==> service.name() == "Plex"@,
        service == Service::MediaServer(MediaServerKind::Emby) ==> service.name() == "Emby"@,
        service == Service::MediaServer(MediaServerKind::Jellyfin) ==> service.name()
            == "Jellyfin"@,
{
}

/// A line tells how a service is: its sign is that of a failure exactly where it failed,
/// and the reason is told; a service that is not configured neither failed nor answered.
pub proof fn lemma_health_is_told(service: Service, health: Health)
    ensures
        health is NotConfigured ==> health_sign(health) == "   ⚪ "@ && health_text(service, health)
            == "Not configured"@,
        health matches Health::Replied(Reply::Failed(error)) ==> health_sign(health) == "   ❌ "@
            && health_text(service, health) == "Connection error ("@ + error@ + ")"@,
        (health is Replied && !(health->Replied_0 is Failed)) ==> health_sign(health)
            == "   ✅ "@ && text::begins(health_text(service, health), "Connected"@),
        health matches Health::Replied(Reply::Streams(n)) ==> text::has_part(
            health_text(service, health),
            text::decimal(n as nat),
        ),
        health matches Health::Replied(Reply::Collections(n)) ==> text::has_part(
            health_text(service, health),
            text::decimal(n as nat),
        ),
{
    let words = health_text(service, health);
    reveal_strlit("Connected");
    reveal_strlit("Connected (");
    if health is Replied && !(health->Replied_0 is Failed) {
        assert(words.subrange(0, "Connected"@.len() as int) =~= "Connected"@);
    }
    let at = "Connected ("@.len() as int;
    if let Health::Replied(Reply::Streams(n)) = health {
        let number = text::decimal(n as nat);
        assert(words.subrange(at, at + number.len()) =~= number);
        assert(text::occurs_at(words, number, at));
    }
    if let Health::Replied(Reply::Collections(n)) = health {
        let number = text::decimal(n as nat);
        assert(words.subrange(at, at + number.len()) =~= number);
        assert(text::occurs_at(words, number, at));
    }
}

/// Servers are listed by their names, in order.
pub proof fn lemma_servers_are_listed_by_name(list: Seq<MediaServerKind>, i: int)
    requires
        0 <= i < list.len(),
    ensures
        server_names(list).len() == list.len(),
        server_names(list)[i] == list[i].name(),
{
}

} // verus!
