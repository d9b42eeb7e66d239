//! What the panel, the menu and the tray icon show and do.

use vstd::prelude::*;

use crate::config::AppConfig;
use crate::early::Activity;
use crate::sorting::{
    is_sorted_by, law_sorted_keys_ascend, law_sorting_keeps_the_items, sort_by_keys,
};
use crate::text::{lowercase, text_eq, text_le, texts};

verus! {

/// Whether the provider and the target can be reached.
pub struct Status {
    pub provider: String,
    pub provider_ok: bool,
    pub target: String,
    pub target_check: Result<(), String>,
    pub configured: bool,
}

/// The status of the settings, given what testing the provider and the target
/// came to.
pub fn check_status(cfg: &AppConfig, provider_ok: bool, target_check: Result<(), String>) -> (r:
    Status)
    ensures
        r.provider@ == cfg.provider@,
        r.provider_ok == provider_ok,
        r.target@ == cfg.target@,
        r.target_check == target_check,
        r.configured == (cfg.has_provider() && cfg.has_target()),
{
    Status {
        provider: cfg.provider.clone(),
        provider_ok,
        target: cfg.target.clone(),
        target_check,
        configured: cfg.is_configured(),
    }
}

/// An activity that can be mapped to a type of work items.
#[derive(Debug, Clone)]
pub struct ActivityOption {
    pub id: String,
    pub name: String,
    pub color: String,
}

/// Whether an option is of an activity.
pub open spec fn is_option_of(o: ActivityOption, a: Activity) -> bool {
    o.id@ == a.id@ && o.name@ == a.name@ && o.color@ == a.color@
}

/// The names that activities are sorted by.
pub open spec fn sort_names(activities: Seq<Activity>) -> Seq<Seq<char>> {
    Seq::new(activities.len(), |i: int| lowercase(activities[i].name@))
}

/// The activities of Early as options, sorted by their names, upper and lower
/// case alike.
pub fn get_early_activities(activities: Vec<Activity>) -> (r: Vec<ActivityOption>)
    ensures
        exists|sorted: Seq<Activity>| #[trigger]
            is_sorted_by(activities@, sort_names(activities@), sorted) && r@.len() == sorted.len()
                && forall|i: int| 0 <= i < r@.len() ==> is_option_of(#[trigger] r@[i], sorted[i]),
{
    let ghost input = activities@;
    let mut names: Vec<String> = Vec::new();
    let mut i: usize = 0;
    while i < activities.len()
        invariant
            i <= activities@.len(),
            names@.len() == i,
            forall|j: int|
                0 <= j < i ==> (#[trigger] names@[j])@ == lowercase(activities@[j].name@),
        decreases activities.len() - i,
    {
        names.push(activities[i].name.as_str().to_lowercase());
        i = i + 1;
    }
    assert(texts(names@) =~= sort_names(activities@));
    let sorted = sort_by_keys(activities, names);
    let mut out: Vec<ActivityOption> = Vec::new();
    i = 0;
    while i < sorted.len()
        invariant
            i <= sorted@.len(),
            out@.len() == i,
            forall|j: int| 0 <= j < i ==> is_option_of(#[trigger] out@[j], sorted@[j]),
        decreases sorted.len() - i,
    {
        let a = &sorted[i];
        out.push(
            ActivityOption { id: a.id.clone(), name: a.name.clone(), color: a.color.clone() },
        );
        i = i + 1;
    }
    assert(is_sorted_by(input, sort_names(input), sorted@));
    out
}

/// The two forms of the tray icon.
#[derive(Clone, Copy, Debug, PartialEq, Eq, Structural)]
pub enum TrayIcon {
    Color,
    Mono,
}

/// The tray icon of a style: the one of a single color where that is named.
pub fn update_tray_icon(style: &str) -> (r: TrayIcon)
    ensures
        r == (if style@ == "mono"@ {
            TrayIcon::Mono
        } else {
            TrayIcon::Color
        }),
{
    if text_eq(style, "mono") {
        TrayIcon::Mono
    } else {
        TrayIcon::Color
    }
}

/// What an entry of the menu does.
#[derive(Clone, Copy, Debug, PartialEq, Eq, Structural)]
pub enum MenuAction {
    Quit,
    ShowSettings,
    SyncToday,
    Nothing,
}

/// What the entry of the menu with this id does.
pub fn menu_action(id: &str) -> (r: MenuAction)
    ensures
        r == (if id@ == "quit"@ {
            MenuAction::Quit
        } else if id@ == "settings"@ {
            MenuAction::ShowSettings
        } else if id@ == "sync_today"@ {
            MenuAction::SyncToday
        } else {
            MenuAction::Nothing
        }),
{
    if text_eq(id, "quit") {
        MenuAction::Quit
    } else if text_eq(id, "settings") {
        MenuAction::ShowSettings
    } else if text_eq(id, "sync_today") {
        MenuAction::SyncToday
    } else {
        MenuAction::Nothing
    }
}

/// The activities that are offered ascend by their names in lower case, and
/// they are those of Early, each once.
pub proof fn law_activities_ascend_by_name(
    activities: Seq<Activity>,
    sorted: Seq<Activity>,
    i: int,
    j: int,
)
    requires
        is_sorted_by(activities, sort_names(activities), sorted),
        0 <= i < j < sorted.len(),
    ensures
        text_le(lowercase(sorted[i].name@), lowercase(sorted[j].name@)),
        sorted.to_multiset() == activities.to_multiset(),
{
    law_sorting_keeps_the_items(activities, sort_names(activities), sorted);
    let from = law_sorted_keys_ascend(activities, sort_names(activities), sorted);
    assert(text_le(sort_names(activities)[from[i]], sort_names(activities)[from[j]]));
}

/// An option shows the id, the name and the color of its activity.
pub proof fn law_option_shows_its_activity(o: ActivityOption, a: Activity)
    ensures
        is_option_of(o, a) == (o.id@ == a.id@ && o.name@ == a.name@ && o.color@ == a.color@),
{
}

}
