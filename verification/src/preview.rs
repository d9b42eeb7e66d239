//! What is shown of time entries before they are synced.

use vstd::prelude::*;

use crate::entries::{dedup_marker_for, keys_of, keys_to_log, marker_of, TimeEntry};
use crate::issue_keys::{
    add_keys, distinct, law_distinct_keeps_each_once, lemma_contains_concat,
    lemma_with_keys_concat, with_keys,
};
use crate::jira;
use crate::jira::{is_worklog_of, Worklog};
use crate::minutes::{minutes_per_key, share_of};
use crate::text::{has_piece, text_eq, texts};
use crate::youtrack;
use crate::youtrack::{has_marker, WorkItem};

verus! {

/// What is logged for an issue already.
pub enum Logged {
    /// Its worklogs in Jira.
    Worklogs(Vec<Worklog>),
    /// Its work items in YouTrack.
    WorkItems(Vec<WorkItem>),
}

/// The worklogs of an issue; none where they could not be read.
pub fn worklogs_found(r: Result<Vec<Worklog>, String>) -> (found: Logged)
    ensures
        match r {
            Ok(list) => found == Logged::Worklogs(list),
            Err(_) => found matches Logged::Worklogs(list) && list@.len() == 0,
        },
{
    match r {
        Ok(list) => Logged::Worklogs(list),
        Err(_) => Logged::Worklogs(Vec::new()),
    }
}

/// The work items of an issue; none where they could not be read.
pub fn work_items_found(r: Result<Vec<WorkItem>, String>) -> (found: Logged)
    ensures
        match r {
            Ok(list) => found == Logged::WorkItems(list),
            Err(_) => found matches Logged::WorkItems(list) && list@.len() == 0,
        },
{
    match r {
        Ok(list) => Logged::WorkItems(list),
        Err(_) => Logged::WorkItems(Vec::new()),
    }
}

/// Whether one of the worklogs is that of a time entry.
pub open spec fn has_worklog(worklogs: Seq<Worklog>, started_at: Seq<char>, minutes: int) -> bool {
    exists|i: int|
        0 <= i < worklogs.len() && is_worklog_of(#[trigger] worklogs[i], started_at, minutes)
}

/// Whether a time entry is logged for an issue: in Jira by its start and its
/// duration, in YouTrack by its marker.
pub open spec fn is_logged(
    logged: Logged,
    started_at: Seq<char>,
    minutes: int,
    marker: Seq<char>,
) -> bool {
    match logged {
        Logged::Worklogs(list) => has_worklog(list@, started_at, minutes),
        Logged::WorkItems(list) => has_marker(list@, marker),
    }
}

/// Whether a time entry is logged for an issue. A worklog that was added for
/// it in Jira counts, provided the start of the entry can be read.
pub fn already_logged(logged: &Logged, started_at: &str, minutes: i64, marker: &str) -> (r: bool)
    ensures
        r == is_logged(*logged, started_at@, minutes as int, marker@),
        jira::is_readable(started_at@) && (logged matches Logged::Worklogs(list) && exists|i: int|
            0 <= i < list@.len() && jira::is_as_added(
                #[trigger] list@[i],
                started_at@,
                minutes as int,
            )) ==> r,
{
    match logged {
        Logged::Worklogs(list) => jira::is_already_synced(list.as_slice(), started_at, minutes),
        Logged::WorkItems(list) => youtrack::is_already_synced(list.as_slice(), marker),
    }
}

/// The issue keys that all entries are logged for, in order.
pub open spec fn all_keys(entries: Seq<TimeEntry>, fallback: Seq<char>) -> Seq<Seq<char>>
    decreases entries.len(),
{
    if entries.len() == 0 {
        seq![]
    } else {
        all_keys(entries.drop_last(), fallback) + keys_of(entries.last(), fallback)
    }
}

/// The issue keys to be looked up, each once.
pub fn keys_to_look_up(entries: &Vec<TimeEntry>, fallback: &str) -> (r: Vec<String>)
    ensures
        texts(r@) == distinct(all_keys(entries@, fallback@)),
{
    let mut keys: Vec<String> = Vec::new();
    let ghost nothing: Seq<Seq<char>> = seq![];
    assert(texts(keys@) =~= nothing);
    let mut i: usize = 0;
    while i < entries.len()
        invariant
            i <= entries@.len(),
            nothing == Seq::<Seq<char>>::empty(),
            texts(keys@) == with_keys(nothing, all_keys(entries@.take(i as int), fallback@)),
        decreases entries.len() - i,
    {
        proof {
            assert(entries@.take(i + 1).drop_last() =~= entries@.take(i as int));
            lemma_with_keys_concat(
                nothing,
                all_keys(entries@.take(i as int), fallback@),
                keys_of(entries@[i as int], fallback@),
            );
        }
        add_keys(&mut keys, &keys_to_log(&entries[i], fallback));
        i = i + 1;
    }
    assert(entries@.take(i as int) =~= entries@);
    keys
}

/// What was found for an issue key; the last of it where there is more.
pub open spec fn found_for(found: Seq<(String, Logged)>, key: Seq<char>) -> Option<Logged>
    decreases found.len(),
{
    if found.len() == 0 {
        None
    } else if found.last().0@ == key {
        Some(found.last().1)
    } else {
        found_for(found.drop_last(), key)
    }
}

fn look_up<'a>(found: &'a Vec<(String, Logged)>, key: &str) -> (r: Option<&'a Logged>)
    ensures
        match r {
            Some(logged) => found_for(found@, key@) == Some(*logged),
            None => found_for(found@, key@) is None,
        },
{
    let mut i: usize = found.len();
    assert(found@.take(i as int) =~= found@);
    while i > 0
        invariant
            i <= found@.len(),
            found_for(found@, key@) == found_for(found@.take(i as int), key@),
        decreases i,
    {
        i = i - 1;
        assert(found@.take(i + 1).drop_last() =~= found@.take(i as int));
        if text_eq(found[i].0.as_str(), key) {
            return Some(&found[i].1);
        }
    }
    None
}

/// Whether a time entry is logged for one of its issue keys.
pub open spec fn key_logged(
    e: TimeEntry,
    key: Seq<char>,
    provider: Seq<char>,
    fallback: Seq<char>,
    found: Seq<(String, Logged)>,
) -> bool {
    match found_for(found, key) {
        Some(logged) => is_logged(
            logged,
            e.started_at@,
            share_of(e.duration_min as int, keys_of(e, fallback).len() as int),
            marker_of(provider, e.id@),
        ),
        None => false,
    }
}

/// Whether a time entry is synced: there are issue keys for it, and it is
/// logged for each.
pub open spec fn entry_synced(
    e: TimeEntry,
    provider: Seq<char>,
    fallback: Seq<char>,
    found: Seq<(String, Logged)>,
) -> bool {
    keys_of(e, fallback).len() > 0 && forall|i: int|
        0 <= i < keys_of(e, fallback).len() ==> key_logged(
            e,
            #[trigger] keys_of(e, fallback)[i],
            provider,
            fallback,
            found,
        )
}

fn is_entry_synced(
    e: &TimeEntry,
    keys: &Vec<String>,
    provider: &str,
    fallback: &str,
    found: &Vec<(String, Logged)>,
) -> (r: bool)
    requires
        texts(keys@) == keys_of(*e, fallback@),
    ensures
        r == entry_synced(*e, provider@, fallback@, found@),
{
    assert(keys@.len() == keys_of(*e, fallback@).len());
    if keys.len() == 0 {
        return false;
    }
    let per_key: i64 = minutes_per_key(e.duration_min, keys.len());
    let marker = dedup_marker_for(provider, e.id.as_str());
    let mut i: usize = 0;
    while i < keys.len()
        invariant
            i <= keys@.len(),
            texts(keys@) == keys_of(*e, fallback@),
            per_key == share_of(e.duration_min as int, keys@.len() as int),
            marker@ == marker_of(provider@, e.id@),
            forall|j: int|
                0 <= j < i ==> key_logged(
                    *e,
                    #[trigger] keys_of(*e, fallback@)[j],
                    provider@,
                    fallback@,
                    found@,
                ),
        decreases keys.len() - i,
    {
        let logged: bool = match look_up(found, keys[i].as_str()) {
            Some(list) => already_logged(list, e.started_at.as_str(), per_key, marker.as_str()),
            None => false,
        };
        assert(keys_of(*e, fallback@)[i as int] == texts(keys@)[i as int]);
        assert(logged == key_logged(
            *e,
            keys_of(*e, fallback@)[i as int],
            provider@,
            fallback@,
            found@,
        ));
        if !logged {
            return false;
        }
        i = i + 1;
    }
    true
}

/// A time entry as it is shown.
#[derive(Debug, Clone)]
pub struct PreviewItem {
    pub id: String,
    pub activity: String,
    pub activity_color: String,
    pub jira_keys: Vec<String>,
    pub duration_min: i64,
    pub started_at: String,
    pub stopped_at: String,
    pub note: String,
    pub has_jira_key: bool,
    pub synced: bool,
}

/// The time entries as they are shown, how many there are, and how many of
/// them have an issue key.
#[derive(Debug, Clone)]
pub struct PreviewResponse {
    pub total: usize,
    pub with_jira: usize,
    pub items: Vec<PreviewItem>,
}

/// Whether `item` shows the entry `e`, with the issue keys that it is logged
/// for.
pub open spec fn shows(
    item: PreviewItem,
    e: TimeEntry,
    provider: Seq<char>,
    fallback: Seq<char>,
    found: Seq<(String, Logged)>,
) -> bool {
    &&& item.id@ == e.id@
    &&& item.activity@ == e.activity@
    &&& item.activity_color@ == e.activity_color@
    &&& texts(item.jira_keys@) == keys_of(e, fallback)
    &&& item.duration_min == e.duration_min
    &&& item.started_at@ == e.started_at@
    &&& item.stopped_at@ == e.stopped_at@
    &&& item.note@ == e.note@
    &&& item.has_jira_key == (keys_of(e, fallback).len() > 0)
    &&& item.synced == entry_synced(e, provider, fallback, found)
}

fn preview_item(e: &TimeEntry, provider: &str, fallback: &str, found: &Vec<(String, Logged)>) -> (r:
    PreviewItem)
    ensures
        shows(r, *e, provider@, fallback@, found@),
{
    let keys = keys_to_log(e, fallback);
    assert(keys@.len() == keys_of(*e, fallback@).len());
    let has_jira_key: bool = keys.len() > 0;
    let synced: bool = is_entry_synced(e, &keys, provider, fallback, found);
    PreviewItem {
        id: e.id.clone(),
        activity: e.activity.clone(),
        activity_color: e.activity_color.clone(),
        jira_keys: keys,
        duration_min: e.duration_min,
        started_at: e.started_at.clone(),
        stopped_at: e.stopped_at.clone(),
        note: e.note.clone(),
        has_jira_key,
        synced,
    }
}

/// The time entries as they are shown, with what was found for each issue key.
/// `fallback` is the issue key for entries that hold none.
pub fn preview(
    entries: &Vec<TimeEntry>,
    provider: &str,
    fallback: &str,
    found: &Vec<(String, Logged)>,
) -> (r: PreviewResponse)
    ensures
        r.total == entries@.len(),
        r.items@.len() == entries@.len(),
        forall|i: int|
            0 <= i < r.items@.len() ==> shows(
                #[trigger] r.items@[i],
                entries@[i],
                provider@,
                fallback@,
                found@,
            ),
        r.with_jira == entries@.filter(|e: TimeEntry| keys_of(e, fallback@).len() > 0).len(),
{
    let ghost keep = |e: TimeEntry| keys_of(e, fallback@).len() > 0;
    let mut items: Vec<PreviewItem> = Vec::new();
    let mut with_jira: usize = 0;
    let mut i: usize = 0;
    proof {
        reveal(Seq::filter);
        assert(entries@.take(0).filter(keep).len() == 0);
    }
    while i < entries.len()
        invariant
            i <= entries@.len(),
            items@.len() == i,
            keep == (|e: TimeEntry| keys_of(e, fallback@).len() > 0),
            forall|j: int|
                0 <= j < i ==> shows(
                    #[trigger] items@[j],
                    entries@[j],
                    provider@,
                    fallback@,
                    found@,
                ),
            with_jira <= i,
            with_jira == entries@.take(i as int).filter(keep).len(),
        decreases entries.len() - i,
    {
        let item = preview_item(&entries[i], provider, fallback, found);
        proof {
            reveal(Seq::filter);
            assert(entries@.take(i + 1).drop_last() =~= entries@.take(i as int));
        }
        if item.has_jira_key {
            with_jira = with_jira + 1;
        }
        items.push(item);
        i = i + 1;
    }
    assert(entries@.take(i as int) =~= entries@);
    PreviewResponse { total: items.len(), with_jira, items }
}

/// An entry is logged in Jira exactly where one of the worklogs, at whatever
/// position, started near it and lasted as long, and in YouTrack exactly where
/// the text of one of the work items holds its marker in brackets.
pub proof fn law_logged_by_time_or_by_marker(
    worklogs: Vec<Worklog>,
    items: Vec<WorkItem>,
    started_at: Seq<char>,
    minutes: int,
    marker: Seq<char>,
)
    ensures
        is_logged(Logged::Worklogs(worklogs), started_at, minutes, marker) == exists|i: int|
            0 <= i < worklogs@.len() && is_worklog_of(
                #[trigger] worklogs@[i],
                started_at,
                minutes,
            ),
        is_logged(Logged::WorkItems(items), started_at, minutes, marker) == exists|i: int|
            0 <= i < items@.len() && has_piece(
                (#[trigger] items@[i]).text@,
                "[synclock:"@ + marker + "]"@,
            ),
{
    let held = youtrack::item_texts(items@);
    let piece = "[synclock:"@ + marker + "]"@;
    if has_marker(items@, marker) {
        let i = choose|i: int| 0 <= i < held.len() && has_piece(#[trigger] held[i], piece);
        assert(has_piece(items@[i].text@, piece));
    }
    if exists|i: int| 0 <= i < items@.len() && has_piece((#[trigger] items@[i]).text@, piece) {
        let i = choose|i: int| 0 <= i < items@.len() && has_piece((#[trigger] items@[i]).text@, piece);
        assert(has_piece(held[i], piece));
    }
}

/// What is found for an issue key was looked up for that key and no other, and
/// nothing is found exactly where the key was not looked up.
pub proof fn law_found_is_of_the_key(found: Seq<(String, Logged)>, key: Seq<char>)
    ensures
        match found_for(found, key) {
            Some(logged) => exists|i: int|
                0 <= i < found.len() && (#[trigger] found[i]).0@ == key && found[i].1 == logged
                    && forall|j: int| i < j < found.len() ==> (#[trigger] found[j]).0@ != key,
            None => forall|i: int| 0 <= i < found.len() ==> (#[trigger] found[i]).0@ != key,
        },
    decreases found.len(),
{
    if found.len() > 0 {
        let last = found.len() - 1;
        if found[last].0@ == key {
            assert(found[last] == found.last());
        } else {
            let less = found.drop_last();
            law_found_is_of_the_key(less, key);
            assert forall|j: int| 0 <= j < last implies #[trigger] found[j] == less[j] by {}
            if let Some(logged) = found_for(less, key) {
                let i = choose|i: int|
                    0 <= i < less.len() && (#[trigger] less[i]).0@ == key && less[i].1 == logged
                        && forall|j: int| i < j < less.len() ==> (#[trigger] less[j]).0@ != key;
                assert(found[i] == less[i]);
                assert forall|j: int| i < j < found.len() implies (#[trigger] found[j]).0@ != key by {
                    if j < last {
                        assert(found[j] == less[j]);
                    }
                }
            }
        }
    }
}

proof fn lemma_all_keys(entries: Seq<TimeEntry>, fallback: Seq<char>, key: Seq<char>)
    ensures
        all_keys(entries, fallback).contains(key) == exists|i: int|
            0 <= i < entries.len() && keys_of(#[trigger] entries[i], fallback).contains(key),
    decreases entries.len(),
{
    if entries.len() > 0 {
        let less = entries.drop_last();
        lemma_all_keys(less, fallback, key);
        lemma_contains_concat(all_keys(less, fallback), keys_of(entries.last(), fallback), key);
        assert(entries[entries.len() - 1] == entries.last());
        assert(forall|i: int| 0 <= i < less.len() ==> #[trigger] entries[i] == less[i]);
        if all_keys(less, fallback).contains(key) {
            let i = choose|i: int|
                0 <= i < less.len() && keys_of(#[trigger] less[i], fallback).contains(key);
            assert(entries[i] == less[i]);
        }
    }
}

/// An issue key is looked up, and once, exactly where one of the entries, at
/// whatever position, is logged for it.
pub proof fn law_every_key_is_looked_up(
    entries: Seq<TimeEntry>,
    fallback: Seq<char>,
    key: Seq<char>,
)
    ensures
        distinct(all_keys(entries, fallback)).no_duplicates(),
        distinct(all_keys(entries, fallback)).contains(key) == exists|i: int|
            0 <= i < entries.len() && keys_of(#[trigger] entries[i], fallback).contains(key),
{
    law_distinct_keeps_each_once(all_keys(entries, fallback));
    lemma_all_keys(entries, fallback, key);
}

/// An entry is shown as synced exactly where there is a key for it and it is
/// logged for every one of its keys, by what was found for that key, with an
/// equal share of its time and its own marker.
pub proof fn law_synced_means_logged_for_every_key(
    item: PreviewItem,
    e: TimeEntry,
    provider: Seq<char>,
    fallback: Seq<char>,
    found: Seq<(String, Logged)>,
)
    requires
        shows(item, e, provider, fallback, found),
    ensures
        item.synced == (item.jira_keys@.len() > 0 && forall|i: int|
            0 <= i < item.jira_keys@.len() ==> (found_for(found, (#[trigger] item.jira_keys@[i])@)
                matches Some(logged) && is_logged(
                logged,
                e.started_at@,
                share_of(e.duration_min as int, item.jira_keys@.len() as int),
                provider + "-"@ + e.id@,
            ))),
        item.has_jira_key == (item.jira_keys@.len() > 0),
        item.id@ == e.id@,
        item.activity@ == e.activity@,
        item.activity_color@ == e.activity_color@,
        item.duration_min == e.duration_min,
        item.started_at@ == e.started_at@,
        item.stopped_at@ == e.stopped_at@,
        item.note@ == e.note@,
{
    let keys = keys_of(e, fallback);
    assert(keys.len() == item.jira_keys@.len());
    assert forall|i: int| 0 <= i < keys.len() implies (#[trigger] item.jira_keys@[i])@ == keys[i] by {
        assert(texts(item.jira_keys@)[i] == item.jira_keys@[i]@);
    }
    if item.synced {
        assert forall|i: int| 0 <= i < item.jira_keys@.len() implies (found_for(
            found,
            (#[trigger] item.jira_keys@[i])@,
        ) matches Some(logged) && is_logged(
            logged,
            e.started_at@,
            share_of(e.duration_min as int, item.jira_keys@.len() as int),
            provider + "-"@ + e.id@,
        )) by {
            assert(key_logged(e, keys[i], provider, fallback, found));
        }
    } else if keys.len() > 0 {
        let i = choose|i: int|
            0 <= i < keys.len() && !key_logged(e, #[trigger] keys[i], provider, fallback, found);
        assert(item.jira_keys@[i]@ == keys[i]);
    }
}

}
