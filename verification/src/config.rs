//! The settings of the program.

use vstd::prelude::*;

use crate::string_map::StringMap;
use crate::text::text_eq;

verus! {

/// The directory of the program in the user's directory for settings.
pub const CONFIG_DIR: &'static str = "synclock";

/// The file that the settings are in.
pub const CONFIG_FILE: &'static str = "config.json";

/// The settings, as they are kept in `config.json`.
#[derive(Debug)]
pub struct AppConfig {
    /// Where time entries come from: `early` or `toggl`.
    pub provider: String,
    pub early_api_key: String,
    pub early_api_secret: String,
    pub toggl_api_token: String,
    /// Where time entries go: `jira` or `youtrack`.
    pub target: String,
    pub jira_base_url: String,
    pub jira_email: String,
    pub jira_api_token: String,
    pub youtrack_base_url: String,
    pub youtrack_token: String,
    /// The issue key for entries that hold none. Where it is empty, such
    /// entries are skipped.
    pub default_issue_key: String,
    /// From the id of an Early activity to the id of a YouTrack work item
    /// type; an empty type is none.
    pub activity_type_map: StringMap,
    pub auto_sync_enabled: bool,
    /// The time of day of the automatic sync, as `HH:MM`.
    pub auto_sync_time: String,
    /// The style of the tray icon: `color` or `mono`.
    pub tray_icon: String,
}

/// The provider where none is set.
pub fn default_provider() -> (r: String)
    ensures
        r@ == "early"@,
{
    "early".to_owned()
}

/// The target where none is set.
pub fn default_target() -> (r: String)
    ensures
        r@ == "jira"@,
{
    "jira".to_owned()
}

/// The time of the automatic sync where none is set.
pub fn default_auto_sync_time() -> (r: String)
    ensures
        r@ == "19:00"@,
{
    "19:00".to_owned()
}

/// The style of the tray icon where none is set.
pub fn default_tray_icon() -> (r: String)
    ensures
        r@ == "color"@,
{
    "color".to_owned()
}

impl AppConfig {
    /// The settings of a program that nobody has set up.
    pub open spec fn is_default(self) -> bool {
        &&& self.provider@ == "early"@
        &&& self.early_api_key@.len() == 0
        &&& self.early_api_secret@.len() == 0
        &&& self.toggl_api_token@.len() == 0
        &&& self.target@ == "jira"@
        &&& self.jira_base_url@.len() == 0
        &&& self.jira_email@.len() == 0
        &&& self.jira_api_token@.len() == 0
        &&& self.youtrack_base_url@.len() == 0
        &&& self.youtrack_token@.len() == 0
        &&& self.default_issue_key@.len() == 0
        &&& self.activity_type_map@ == Map::<Seq<char>, Seq<char>>::empty()
        &&& !self.auto_sync_enabled
        &&& self.auto_sync_time@ == "19:00"@
        &&& self.tray_icon@ == "color"@
    }

    /// Whether two settings hold the same values.
    pub open spec fn same_as(self, other: AppConfig) -> bool {
        &&& self.provider@ == other.provider@
        &&& self.early_api_key@ == other.early_api_key@
        &&& self.early_api_secret@ == other.early_api_secret@
        &&& self.toggl_api_token@ == other.toggl_api_token@
        &&& self.target@ == other.target@
        &&& self.jira_base_url@ == other.jira_base_url@
        &&& self.jira_email@ == other.jira_email@
        &&& self.jira_api_token@ == other.jira_api_token@
        &&& self.youtrack_base_url@ == other.youtrack_base_url@
        &&& self.youtrack_token@ == other.youtrack_token@
        &&& self.default_issue_key@ == other.default_issue_key@
        &&& self.activity_type_map@ == other.activity_type_map@
        &&& self.auto_sync_enabled == other.auto_sync_enabled
        &&& self.auto_sync_time@ == other.auto_sync_time@
        &&& self.tray_icon@ == other.tray_icon@
    }

    /// Whether the credentials of the chosen provider are there. A provider
    /// that is not known has none.
    pub open spec fn has_provider(self) -> bool {
        if self.provider@ == "early"@ {
            self.early_api_key@.len() > 0 && self.early_api_secret@.len() > 0
        } else if self.provider@ == "toggl"@ {
            self.toggl_api_token@.len() > 0
        } else {
            false
        }
    }

    /// Whether the address and the credentials of the chosen target are
    /// there. Whatever is not YouTrack is Jira.
    pub open spec fn has_target(self) -> bool {
        if self.target@ == "youtrack"@ {
            self.youtrack_base_url@.len() > 0 && self.youtrack_token@.len() > 0
        } else {
            self.jira_base_url@.len() > 0 && self.jira_email@.len() > 0
                && self.jira_api_token@.len() > 0
        }
    }

    /// Whether both ends of the sync are set up.
    pub fn is_configured(&self) -> (r: bool)
        ensures
            r == (self.has_provider() && self.has_target()),
    {
        let has_provider: bool = if text_eq(self.provider.as_str(), "early") {
            !self.early_api_key.as_str().is_empty() && !self.early_api_secret.as_str().is_empty()
        } else if text_eq(self.provider.as_str(), "toggl") {
            !self.toggl_api_token.as_str().is_empty()
        } else {
            false
        };
        let has_target: bool = if text_eq(self.target.as_str(), "youtrack") {
            !self.youtrack_base_url.as_str().is_empty() && !self.youtrack_token.as_str().is_empty()
        } else {
            !self.jira_base_url.as_str().is_empty() && !self.jira_email.as_str().is_empty()
                && !self.jira_api_token.as_str().is_empty()
        };
        has_provider && has_target
    }
}

impl Default for AppConfig {
    fn default() -> (r: AppConfig)
        ensures
            r.is_default(),
    {
        AppConfig {
            provider: default_provider(),
            early_api_key: String::new(),
            early_api_secret: String::new(),
            toggl_api_token: String::new(),
            target: default_target(),
            jira_base_url: String::new(),
            jira_email: String::new(),
            jira_api_token: String::new(),
            youtrack_base_url: String::new(),
            youtrack_token: String::new(),
            default_issue_key: String::new(),
            activity_type_map: StringMap::new(),
            auto_sync_enabled: false,
            auto_sync_time: default_auto_sync_time(),
            tray_icon: default_tray_icon(),
        }
    }
}

impl Clone for AppConfig {
    fn clone(&self) -> (r: AppConfig)
        ensures
            r.same_as(*self),
    {
        AppConfig {
            provider: self.provider.clone(),
            early_api_key: self.early_api_key.clone(),
            early_api_secret: self.early_api_secret.clone(),
            toggl_api_token: self.toggl_api_token.clone(),
            target: self.target.clone(),
            jira_base_url: self.jira_base_url.clone(),
            jira_email: self.jira_email.clone(),
            jira_api_token: self.jira_api_token.clone(),
            youtrack_base_url: self.youtrack_base_url.clone(),
            youtrack_token: self.youtrack_token.clone(),
            default_issue_key: self.default_issue_key.clone(),
            activity_type_map: self.activity_type_map.clone(),
            auto_sync_enabled: self.auto_sync_enabled,
            auto_sync_time: self.auto_sync_time.clone(),
            tray_icon: self.tray_icon.clone(),
        }
    }
}

/// The settings to start with, given what was read from the file. A missing or
/// unreadable file yields the defaults.
pub fn load_config(read: Option<AppConfig>) -> (r: AppConfig)
    ensures
        match read {
            Some(cfg) => r == cfg,
            None => r.is_default(),
        },
{
    match read {
        Some(cfg) => cfg,
        None => AppConfig::default(),
    }
}

/// The settings in force.
pub fn get_config(current: &AppConfig) -> (r: AppConfig)
    ensures
        r.same_as(*current),
{
    current.clone()
}

/// The environment variables that settings give, with their values.
pub open spec fn environment(cfg: AppConfig) -> Seq<(Seq<char>, Seq<char>)> {
    seq![
        ("EARLY_API_KEY"@, cfg.early_api_key@),
        ("EARLY_API_SECRET"@, cfg.early_api_secret@),
        ("TOGGL_API_TOKEN"@, cfg.toggl_api_token@),
        ("JIRA_BASE_URL"@, cfg.jira_base_url@),
        ("JIRA_EMAIL"@, cfg.jira_email@),
        ("JIRA_API_TOKEN"@, cfg.jira_api_token@),
    ]
}

/// The environment variables that settings give, with their values.
pub fn apply_to_env(cfg: &AppConfig) -> (r: Vec<(String, String)>)
    ensures
        r@.len() == environment(*cfg).len(),
        forall|i: int|
            0 <= i < r@.len() ==> ((#[trigger] r@[i]).0@, r@[i].1@) == environment(*cfg)[i],
{
    let mut out: Vec<(String, String)> = Vec::new();
    out.push(("EARLY_API_KEY".to_owned(), cfg.early_api_key.clone()));
    out.push(("EARLY_API_SECRET".to_owned(), cfg.early_api_secret.clone()));
    out.push(("TOGGL_API_TOKEN".to_owned(), cfg.toggl_api_token.clone()));
    out.push(("JIRA_BASE_URL".to_owned(), cfg.jira_base_url.clone()));
    out.push(("JIRA_EMAIL".to_owned(), cfg.jira_email.clone()));
    out.push(("JIRA_API_TOKEN".to_owned(), cfg.jira_api_token.clone()));
    out
}

/// What is kept between requests, because it was found out with the
/// credentials of the settings.
pub struct Caches {
    /// The token of Early.
    pub early_token: Option<String>,
    /// The cloud id of Jira.
    pub jira_cloud_id: Option<String>,
    /// From an issue key to the id of the issue in YouTrack.
    pub youtrack_aliases: StringMap,
}

impl Caches {
    /// Whether nothing is kept.
    pub open spec fn is_empty(self) -> bool {
        &&& self.early_token is None
        &&& self.jira_cloud_id is None
        &&& self.youtrack_aliases@ == Map::<Seq<char>, Seq<char>>::empty()
    }
}

/// Takes over new settings once they were written to the file. What was kept
/// between requests is dropped, since the credentials may have changed. Where
/// writing failed, both stay as they were.
pub fn save_config(
    current: &mut AppConfig,
    caches: &mut Caches,
    cfg: AppConfig,
    written: Result<(), String>,
) -> (r: Result<(), String>)
    ensures
        r == written,
        written is Ok ==> *final(current) == cfg && final(caches).is_empty(),
        written is Err ==> *final(current) == *old(current) && *final(caches) == *old(caches),
{
    if written.is_ok() {
        crate::early::clear_token_cache(&mut caches.early_token);
        crate::jira::clear_cloud_id_cache(&mut caches.jira_cloud_id);
        crate::youtrack::clear_alias_cache(&mut caches.youtrack_aliases);
        *current = cfg;
    }
    written
}

/// Only the credentials of the chosen provider and the chosen target count, so
/// those of the others can stay in the settings.
pub proof fn law_other_credentials_do_not_matter(a: AppConfig, b: AppConfig)
    requires
        a.provider@ == b.provider@,
        a.target@ == b.target@,
        a.provider@ == "early"@ ==> a.early_api_key@ == b.early_api_key@ && a.early_api_secret@
            == b.early_api_secret@,
        a.provider@ == "toggl"@ ==> a.toggl_api_token@ == b.toggl_api_token@,
        a.target@ == "youtrack"@ ==> a.youtrack_base_url@ == b.youtrack_base_url@
            && a.youtrack_token@ == b.youtrack_token@,
        a.target@ != "youtrack"@ ==> a.jira_base_url@ == b.jira_base_url@ && a.jira_email@
            == b.jira_email@ && a.jira_api_token@ == b.jira_api_token@,
    ensures
        (a.has_provider() && a.has_target()) == (b.has_provider() && b.has_target()),
{
}

/// Settings that come back from the file as they were saved are in force again
/// after loading, those of the provider and the target that are not chosen
/// among them.
pub proof fn law_saved_settings_are_loaded(
    saved: AppConfig,
    read: AppConfig,
    loaded: AppConfig,
    in_force: AppConfig,
)
    requires
        read.same_as(saved),
        loaded == read,
        in_force.same_as(loaded),
    ensures
        in_force.same_as(saved),
{
}

/// A program that nobody has set up is not ready to sync.
pub proof fn law_default_is_not_configured(cfg: AppConfig)
    requires
        cfg.is_default(),
    ensures
        !(cfg.has_provider() && cfg.has_target()),
{
}

/// The program is set up exactly where the chosen provider has all its
/// credentials and the chosen target its address and all its credentials. A
/// provider that is neither Early nor Toggl has none.
pub proof fn law_setup_needs_every_credential(cfg: AppConfig)
    ensures
        cfg.provider@ == "early"@ ==> cfg.has_provider() == (cfg.early_api_key@.len() != 0
            && cfg.early_api_secret@.len() != 0),
        cfg.provider@ != "early"@ && cfg.provider@ == "toggl"@ ==> cfg.has_provider() == (
        cfg.toggl_api_token@.len() != 0),
        cfg.provider@ != "early"@ && cfg.provider@ != "toggl"@ ==> !cfg.has_provider(),
        cfg.target@ == "youtrack"@ ==> cfg.has_target() == (cfg.youtrack_base_url@.len() != 0
            && cfg.youtrack_token@.len() != 0),
        cfg.target@ != "youtrack"@ ==> cfg.has_target() == (cfg.jira_base_url@.len() != 0
            && cfg.jira_email@.len() != 0 && cfg.jira_api_token@.len() != 0),
{
}

/// Settings that are the same agree in every field, so that a copy loses none,
/// whether it is in use or not.
pub proof fn law_same_settings_agree_in_every_field(a: AppConfig, b: AppConfig)
    ensures
        a.same_as(b) == (a.provider@ == b.provider@ && a.early_api_key@ == b.early_api_key@
            && a.early_api_secret@ == b.early_api_secret@ && a.toggl_api_token@
            == b.toggl_api_token@ && a.target@ == b.target@ && a.jira_base_url@ == b.jira_base_url@
            && a.jira_email@ == b.jira_email@ && a.jira_api_token@ == b.jira_api_token@
            && a.youtrack_base_url@ == b.youtrack_base_url@ && a.youtrack_token@
            == b.youtrack_token@ && a.default_issue_key@ == b.default_issue_key@
            && a.activity_type_map@ == b.activity_type_map@ && a.auto_sync_enabled
            == b.auto_sync_enabled && a.auto_sync_time@ == b.auto_sync_time@ && a.tray_icon@
            == b.tray_icon@),
{
}

/// Each secret reaches the environment under its own name.
pub proof fn law_environment_names_each_setting(cfg: AppConfig)
    ensures
        environment(cfg).contains(("EARLY_API_KEY"@, cfg.early_api_key@)),
        environment(cfg).contains(("EARLY_API_SECRET"@, cfg.early_api_secret@)),
        environment(cfg).contains(("TOGGL_API_TOKEN"@, cfg.toggl_api_token@)),
        environment(cfg).contains(("JIRA_BASE_URL"@, cfg.jira_base_url@)),
        environment(cfg).contains(("JIRA_EMAIL"@, cfg.jira_email@)),
        environment(cfg).contains(("JIRA_API_TOKEN"@, cfg.jira_api_token@)),
        environment(cfg).len() == 6,
{
    let env = environment(cfg);
    assert(env[0] == ("EARLY_API_KEY"@, cfg.early_api_key@));
    assert(env[1] == ("EARLY_API_SECRET"@, cfg.early_api_secret@));
    assert(env[2] == ("TOGGL_API_TOKEN"@, cfg.toggl_api_token@));
    assert(env[3] == ("JIRA_BASE_URL"@, cfg.jira_base_url@));
    assert(env[4] == ("JIRA_EMAIL"@, cfg.jira_email@));
    assert(env[5] == ("JIRA_API_TOKEN"@, cfg.jira_api_token@));
}

}
