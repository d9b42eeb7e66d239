//! Time entries of either provider in one form, and where they go to.

use vstd::prelude::*;

use crate::config::AppConfig;
use crate::early;
use crate::issue_keys::distinct;
use crate::issue_keys::without_markup;
use crate::minutes::divide;
use crate::text::{
    has_piece, i64_text, int_text, join3, law_quotient_is_cut_towards_zero, nat_text, opt_text,
    quotient, stands_at, text_eq, texts, trimmed,
};
use crate::toggl;
use crate::toggl::TogglTimeEntry;

verus! {

/// A time entry of either provider.
#[derive(Debug, Clone)]
pub struct TimeEntry {
    pub id: String,
    pub activity: String,
    pub activity_id: Option<String>,
    pub activity_color: String,
    pub jira_keys: Vec<String>,
    pub duration_min: i64,
    pub started_at: String,
    pub stopped_at: String,
    pub note: String,
}

/// The issue keys that an entry is logged for: those it holds, and where it
/// holds none the fallback, unless that is empty.
pub open spec fn keys_of(e: TimeEntry, fallback: Seq<char>) -> Seq<Seq<char>> {
    if e.jira_keys@.len() > 0 {
        texts(e.jira_keys@)
    } else if fallback.len() > 0 {
        seq![fallback]
    } else {
        seq![]
    }
}

/// The issue keys that an entry is logged for.
pub fn keys_to_log(e: &TimeEntry, fallback: &str) -> (r: Vec<String>)
    ensures
        texts(r@) == keys_of(*e, fallback@),
{
    let mut keys: Vec<String> = Vec::new();
    let mut i: usize = 0;
    while i < e.jira_keys.len()
        invariant
            i <= e.jira_keys@.len(),
            keys@.len() == i,
            forall|j: int| 0 <= j < i ==> (#[trigger] keys@[j])@ == e.jira_keys@[j]@,
        decreases e.jira_keys.len() - i,
    {
        keys.push(e.jira_keys[i].clone());
        i = i + 1;
    }
    if keys.len() == 0 && !fallback.is_empty() {
        keys.push(fallback.to_owned());
    }
    assert(texts(keys@) =~= keys_of(*e, fallback@));
    keys
}

/// Where time entries come from.
#[derive(Clone, Copy, Debug, PartialEq, Eq, Structural)]
pub enum Provider {
    Early,
    Toggl,
}

/// Where time entries are logged.
#[derive(Clone, Copy, Debug, PartialEq, Eq, Structural)]
pub enum Target {
    Jira,
    YouTrack,
}

/// The provider of the settings: Toggl where it is named, else Early.
pub fn current_provider(cfg: &AppConfig) -> (r: Provider)
    ensures
        r == (if cfg.provider@ == "toggl"@ {
            Provider::Toggl
        } else {
            Provider::Early
        }),
{
    if text_eq(cfg.provider.as_str(), "toggl") {
        Provider::Toggl
    } else {
        Provider::Early
    }
}

/// The target of the settings: YouTrack where it is named, else Jira.
pub fn current_target(cfg: &AppConfig) -> (r: Target)
    ensures
        r == (if cfg.target@ == "youtrack"@ {
            Target::YouTrack
        } else {
            Target::Jira
        }),
{
    if text_eq(cfg.target.as_str(), "youtrack") {
        Target::YouTrack
    } else {
        Target::Jira
    }
}

/// The name of a time entry that no entry of another provider has.
pub open spec fn marker_of(provider: Seq<char>, entry_id: Seq<char>) -> Seq<char> {
    provider + "-"@ + entry_id
}

/// The name of a time entry that no entry of another provider has.
pub fn dedup_marker_for(provider: &str, entry_id: &str) -> (r: String)
    ensures
        r@ == marker_of(provider@, entry_id@),
{
    join3(provider, "-", entry_id)
}

/// Two time entries with the same marker are the same: of one provider, or of
/// two whose names have no hyphen.
pub proof fn law_marker_names_one_entry(
    provider: Seq<char>,
    id: Seq<char>,
    other_provider: Seq<char>,
    other_id: Seq<char>,
)
    requires
        provider == other_provider || (!provider.contains('-') && !other_provider.contains('-')),
        marker_of(provider, id) == marker_of(other_provider, other_id),
    ensures
        provider == other_provider,
        id == other_id,
{
    reveal_strlit("-");
    let a = marker_of(provider, id);
    let b = marker_of(other_provider, other_id);
    let m = provider.len() as int;
    let n = other_provider.len() as int;
    assert(a[m] == '-');
    assert(b[n] == '-');
    if m < n {
        assert(b[m] == other_provider[m]);
        assert(false);
    }
    if n < m {
        assert(a[n] == provider[n]);
        assert(false);
    }
    assert(provider =~= a.take(m));
    assert(other_provider =~= b.take(n));
    assert(id =~= a.skip(m + 1));
    assert(other_id =~= b.skip(n + 1));
}

/// The activity with this id; the last of them where there are more.
pub open spec fn activity_with(activities: Seq<early::Activity>, id: Seq<char>) -> Option<
    early::Activity,
>
    decreases activities.len(),
{
    if activities.len() == 0 {
        None
    } else if activities.last().id@ == id {
        Some(activities.last())
    } else {
        activity_with(activities.drop_last(), id)
    }
}

fn find_activity<'a>(activities: &'a Vec<early::Activity>, id: &str) -> (r: Option<
    &'a early::Activity,
>)
    ensures
        match r {
            Some(a) => activity_with(activities@, id@) == Some(*a),
            None => activity_with(activities@, id@) is None,
        },
{
    let mut i: usize = activities.len();
    assert(activities@.take(i as int) =~= activities@);
    while i > 0
        invariant
            i <= activities@.len(),
            activity_with(activities@, id@) == activity_with(activities@.take(i as int), id@),
        decreases i,
    {
        i = i - 1;
        assert(activities@.take(i + 1).drop_last() =~= activities@.take(i as int));
        if text_eq(activities[i].id.as_str(), id) {
            return Some(&activities[i]);
        }
    }
    None
}

/// The text of a note, empty where there is none.
pub open spec fn note_text(note: Option<early::Note>) -> Seq<char> {
    match note {
        Some(n) => match n.text {
            Some(t) => t@,
            None => seq![],
        },
        None => seq![],
    }
}

/// Whether `r` is the entry `e` of Early in the common form, with the name and
/// the color of its activity.
pub open spec fn is_early_entry(
    r: TimeEntry,
    e: early::TimeEntry,
    activities: Seq<early::Activity>,
) -> bool {
    let act = activity_with(activities, e.activity_id@);
    &&& r.id@ == e.id@
    &&& r.activity@ == (match act {
        Some(a) => a.name@,
        None => "Unknown"@,
    })
    &&& opt_text(r.activity_id) == Some(e.activity_id@)
    &&& r.activity_color@ == (match act {
        Some(a) => a.color@,
        None => "888"@,
    })
    &&& texts(r.jira_keys@) == distinct(early::note_keys(e.note))
    &&& r.duration_min == early::duration_minutes(e.duration)
    &&& r.started_at@ == e.duration.started_at@
    &&& r.stopped_at@ == e.duration.stopped_at@
    &&& r.note@ == trimmed(without_markup(note_text(e.note)))
}

fn early_entry(e: &early::TimeEntry, activities: &Vec<early::Activity>) -> (r: TimeEntry)
    ensures
        is_early_entry(r, *e, activities@),
{
    let act = find_activity(activities, e.activity_id.as_str());
    let (activity, activity_color) = match act {
        Some(a) => (a.name.clone(), a.color.clone()),
        None => ("Unknown".to_owned(), "888".to_owned()),
    };
    proof {
        reveal_strlit("");
        assert(""@ =~= seq![]);
    }
    let note = match &e.note {
        Some(n) => match &n.text {
            Some(t) => early::clean_note_text(t.as_str()),
            None => early::clean_note_text(""),
        },
        None => early::clean_note_text(""),
    };
    TimeEntry {
        id: e.id.clone(),
        activity,
        activity_id: Some(e.activity_id.clone()),
        activity_color,
        jira_keys: early::extract_jira_keys(e),
        duration_min: early::get_duration_minutes(e),
        started_at: e.duration.started_at.clone(),
        stopped_at: e.duration.stopped_at.clone(),
        note,
    }
}

/// The time entries of Early in the common form, in order.
pub fn fetch_early_entries(entries: &Vec<early::TimeEntry>, activities: &Vec<early::Activity>) -> (r:
    Vec<TimeEntry>)
    ensures
        r@.len() == entries@.len(),
        forall|i: int|
            0 <= i < r@.len() ==> is_early_entry(#[trigger] r@[i], entries@[i], activities@),
{
    let mut out: Vec<TimeEntry> = Vec::new();
    let mut i: usize = 0;
    while i < entries.len()
        invariant
            i <= entries@.len(),
            out@.len() == i,
            forall|j: int|
                0 <= j < i ==> is_early_entry(#[trigger] out@[j], entries@[j], activities@),
        decreases entries.len() - i,
    {
        out.push(early_entry(&entries[i], activities));
        i = i + 1;
    }
    out
}

/// Whether `r` is the entry `e` of Toggl in the common form, in whole minutes.
pub open spec fn is_toggl_entry(r: TimeEntry, e: TogglTimeEntry) -> bool {
    &&& r.id@ == int_text(e.id as int)
    &&& r.activity@ == (match e.description {
        Some(d) => d@,
        None => "No description"@,
    })
    &&& r.activity_id is None
    &&& r.activity_color@ == "6366f1"@
    &&& texts(r.jira_keys@) == distinct(toggl::entry_keys(e))
    &&& r.duration_min == quotient(e.duration as int, 60)
    &&& r.started_at@ == e.start@
    &&& r.stopped_at@ == (match e.stop {
        Some(s) => s@,
        None => e.start@,
    })
    &&& r.note@ == Seq::<char>::empty()
}

fn toggl_entry(e: &TogglTimeEntry) -> (r: TimeEntry)
    ensures
        is_toggl_entry(r, *e),
{
    let (whole, _) = divide(e.duration, 60);
    let duration_min: i64 = whole;
    let activity = match &e.description {
        Some(d) => d.clone(),
        None => "No description".to_owned(),
    };
    let stopped_at = match &e.stop {
        Some(s) => s.clone(),
        None => e.start.clone(),
    };
    TimeEntry {
        id: i64_text(e.id),
        activity,
        activity_id: None,
        activity_color: "6366f1".to_owned(),
        jira_keys: toggl::extract_jira_keys(e),
        duration_min,
        started_at: e.start.clone(),
        stopped_at,
        note: String::new(),
    }
}

/// The time entries of Toggl in the common form, in order.
pub fn fetch_toggl_entries(entries: &Vec<TogglTimeEntry>) -> (r: Vec<TimeEntry>)
    ensures
        r@.len() == entries@.len(),
        forall|i: int| 0 <= i < r@.len() ==> is_toggl_entry(#[trigger] r@[i], entries@[i]),
{
    let mut out: Vec<TimeEntry> = Vec::new();
    let mut i: usize = 0;
    while i < entries.len()
        invariant
            i <= entries@.len(),
            out@.len() == i,
            forall|j: int| 0 <= j < i ==> is_toggl_entry(#[trigger] out@[j], entries@[j]),
        decreases entries.len() - i,
    {
        out.push(toggl_entry(&entries[i]));
        i = i + 1;
    }
    out
}

proof fn lemma_digits(n: nat, i: int)
    requires
        0 <= i < nat_text(n).len(),
    ensures
        '0' <= nat_text(n)[i] <= '9',
    decreases n,
{
    if n >= 10 && i < nat_text(n / 10).len() {
        lemma_digits(n / 10, i);
    }
}

/// The marker of an entry of Toggl holds neither the beginning nor the end of
/// the marker in a text.
pub proof fn law_toggl_markers_are_plain(id: int)
    ensures
        !marker_of("toggl"@, int_text(id)).contains(']'),
        !has_piece(marker_of("toggl"@, int_text(id)), crate::youtrack::MARKER_START@),
{
    reveal_strlit("toggl");
    reveal_strlit("-");
    reveal_strlit("[synclock:");
    let marker = marker_of("toggl"@, int_text(id));
    assert forall|i: int| 0 <= i < marker.len() implies #[trigger] marker[i] != '[' && marker[i]
        != ']' by {
        if i >= 6 {
            let k = i - 6;
            assert(marker[i] == int_text(id)[k]);
            if id < 0 {
                if k > 0 {
                    lemma_digits((-id) as nat, k - 1);
                }
            } else {
                lemma_digits(id as nat, k);
            }
        }
    }
    if has_piece(marker, crate::youtrack::MARKER_START@) {
        let at = choose|at: int| #[trigger]
            stands_at(marker, crate::youtrack::MARKER_START@, at);
        assert(marker.subrange(at, at + 10)[0] == '[');
    }
}

/// The activity of an entry is the last one in the list with its id, and there
/// is none exactly where no activity has the id.
pub proof fn law_activity_has_the_id(activities: Seq<early::Activity>, id: Seq<char>)
    ensures
        match activity_with(activities, id) {
            Some(a) => exists|i: int|
                0 <= i < activities.len() && #[trigger] activities[i] == a && a.id@ == id && forall|
                    j: int,
                |
                    i < j < activities.len() ==> (#[trigger] activities[j]).id@ != id,
            None => forall|i: int|
                0 <= i < activities.len() ==> (#[trigger] activities[i]).id@ != id,
        },
    decreases activities.len(),
{
    if activities.len() > 0 {
        let last = activities.len() - 1;
        if activities[last].id@ == id {
            assert(activities[last] == activities.last());
        } else {
            let less = activities.drop_last();
            law_activity_has_the_id(less, id);
            assert forall|j: int| 0 <= j < last implies #[trigger] activities[j] == less[j] by {}
            if let Some(a) = activity_with(less, id) {
                let i = choose|i: int|
                    0 <= i < less.len() && #[trigger] less[i] == a && a.id@ == id && forall|j: int|
                        i < j < less.len() ==> (#[trigger] less[j]).id@ != id;
                assert(activities[i] == a);
                assert forall|j: int| i < j < activities.len() implies (
                #[trigger] activities[j]).id@ != id by {
                    if j < last {
                        assert(activities[j] == less[j]);
                    }
                }
            }
        }
    }
}

/// An entry of Early keeps its id, its ends and its activity, and its note is
/// the text without markup and without white space around it.
pub proof fn law_early_entry_is_kept(
    r: TimeEntry,
    e: early::TimeEntry,
    activities: Seq<early::Activity>,
)
    requires
        is_early_entry(r, e, activities),
    ensures
        r.id@ == e.id@,
        r.started_at@ == e.duration.started_at@,
        r.stopped_at@ == e.duration.stopped_at@,
        r.activity_id matches Some(id) && id@ == e.activity_id@,
        activity_with(activities, e.activity_id@) matches Some(a) ==> r.activity@ == a.name@
            && r.activity_color@ == a.color@,
        activity_with(activities, e.activity_id@) is None ==> r.activity@ == "Unknown"@
            && r.activity_color@ == "888"@,
        e.note matches Some(n) ==> (n.text matches Some(t) ==> r.note@ == trimmed(
            without_markup(t@),
        )),
        r.duration_min == early::duration_minutes(e.duration),
        texts(r.jira_keys@) == distinct(early::note_keys(e.note)),
{
}

/// An entry of Toggl keeps its id, its description and its ends, and lasts the
/// whole minutes of its seconds, cut off towards zero. It has no activity to be
/// mapped to a type.
pub proof fn law_toggl_entry_is_kept(r: TimeEntry, e: TogglTimeEntry)
    requires
        is_toggl_entry(r, e),
    ensures
        r.id@ == int_text(e.id as int),
        e.description matches Some(d) ==> r.activity@ == d@,
        e.description is None ==> r.activity@ == "No description"@,
        r.activity_id is None,
        r.started_at@ == e.start@,
        e.stop matches Some(stop) ==> r.stopped_at@ == stop@,
        e.stop is None ==> r.stopped_at@ == e.start@,
        e.duration >= 0 ==> 60 * r.duration_min <= e.duration < 60 * r.duration_min + 60,
        e.duration <= 0 ==> 60 * r.duration_min - 60 < e.duration <= 60 * r.duration_min,
        r.note@.len() == 0,
        texts(r.jira_keys@) == distinct(toggl::entry_keys(e)),
{
    law_quotient_is_cut_towards_zero(e.duration as int, 60);
}

/// An entry with keys is logged for each of them, in order and for nothing else;
/// one without for the fallback alone, or for nothing where that is empty.
pub proof fn law_keys_are_held_or_fallback(e: TimeEntry, fallback: Seq<char>)
    ensures
        e.jira_keys@.len() > 0 ==> keys_of(e, fallback).len() == e.jira_keys@.len() && forall|i: int|
            0 <= i < e.jira_keys@.len() ==> keys_of(e, fallback)[i] == (#[trigger] e.jira_keys@[i])@,
        e.jira_keys@.len() == 0 && fallback.len() > 0 ==> keys_of(e, fallback).len() == 1
            && keys_of(e, fallback)[0] == fallback,
        e.jira_keys@.len() == 0 && fallback.len() == 0 ==> keys_of(e, fallback).len() == 0,
{
}

}
