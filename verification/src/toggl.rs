//! Toggl Track: its time entries, and how they are fetched.

use vstd::prelude::*;

use crate::http::{base64_text, basic_auth, required, Reply};
use crate::issue_keys::{
    add_all_keys, distinct, issue_keys, law_distinct_keeps_each_once, lemma_contains_concat,
    lemma_with_keys_concat, with_keys,
};
use crate::text::{err_text, join2, join3, join4, outcome_text, texts};

verus! {

/// The address of the interface of Toggl Track.
pub const BASE_URL: &'static str = "https://api.track.toggl.com/api/v9";

/// A time entry. Its duration is in seconds, and negative while it is running.
#[derive(Debug, Clone)]
pub struct TogglTimeEntry {
    pub id: i64,
    pub description: Option<String>,
    pub start: String,
    pub stop: Option<String>,
    pub duration: i64,
    pub project_id: Option<i64>,
    pub tags: Option<Vec<String>>,
}

/// The value of the `Authorization` header, from the environment.
pub fn get_auth_header(token: Option<String>) -> (r: Result<String, String>)
    ensures
        outcome_text(r) == (match token {
            None => Err::<Seq<char>, Seq<char>>("TOGGL_API_TOKEN not set"@),
            Some(t) => Ok::<Seq<char>, Seq<char>>("Basic "@ + base64_text(t@ + ":api_token"@)),
        }),
{
    proof {
        reveal_strlit("TOGGL_API_TOKEN");
        reveal_strlit(" not set");
        reveal_strlit("TOGGL_API_TOKEN not set");
        assert("TOGGL_API_TOKEN"@ + " not set"@ =~= "TOGGL_API_TOKEN not set"@);
        reveal_strlit(":");
        reveal_strlit("api_token");
        reveal_strlit(":api_token");
    }
    match required(token, "TOGGL_API_TOKEN") {
        Err(e) => Err(e),
        Ok(t) => {
            assert(t@ + ":"@ + "api_token"@ =~= t@ + ":api_token"@);
            Ok(basic_auth(t.as_str(), "api_token"))
        },
    }
}

/// The address of the time entries.
pub fn time_entries_url() -> (r: String)
    ensures
        r@ == BASE_URL@ + "/me/time_entries"@,
{
    join2(BASE_URL, "/me/time_entries")
}

/// The address that a connection is tested at.
pub fn me_url() -> (r: String)
    ensures
        r@ == BASE_URL@ + "/me"@,
{
    join2(BASE_URL, "/me")
}

/// The parameters of the request for the time entries of the days from `from`
/// to `to`, each with its name.
pub fn time_entries_query(from: &str, to: &str) -> (r: ((&'static str, String), (
    &'static str,
    String,
)))
    ensures
        r.0.0@ == "start_date"@,
        r.0.1@ == from@ + "T00:00:00Z"@,
        r.1.0@ == "end_date"@,
        r.1.1@ == to@ + "T23:59:59Z"@,
{
    (("start_date", join2(from, "T00:00:00Z")), ("end_date", join2(to, "T23:59:59Z")))
}

/// Whether an entry is over: those that are running have no positive duration.
pub open spec fn is_over(e: TogglTimeEntry) -> bool {
    e.duration > 0
}

/// The time entries, from the reply to the request for them, without those
/// that are still running.
pub fn get_time_entries(reply: Reply<Vec<TogglTimeEntry>>) -> (r: Result<
    Vec<TogglTimeEntry>,
    String,
>)
    ensures
        match reply {
            Reply::Unreachable(e) => r matches Err(m) && m@ == "Toggl API error: "@ + e@,
            Reply::Refused { status, body, .. } => r matches Err(m) && m@ == "Toggl API error ("@
                + status@ + "): "@ + body@,
            Reply::Garbled(e) => r matches Err(m) && m@ == e@,
            Reply::Delivered(list) => r matches Ok(kept) && kept@ == list@.filter(
                |e: TogglTimeEntry| is_over(e),
            ),
        },
{
    match reply {
        Reply::Unreachable(e) => Err(join2("Toggl API error: ", e.as_str())),
        Reply::Refused { status, body, .. } => Err(
            join4("Toggl API error (", status.as_str(), "): ", body.as_str()),
        ),
        Reply::Garbled(e) => Err(e),
        Reply::Delivered(list) => Ok(finished(list)),
    }
}

fn finished(list: Vec<TogglTimeEntry>) -> (r: Vec<TogglTimeEntry>)
    ensures
        r@ == list@.filter(|e: TogglTimeEntry| is_over(e)),
{
    let ghost all = list@;
    let ghost keep = |e: TogglTimeEntry| is_over(e);
    let mut out: Vec<TogglTimeEntry> = Vec::new();
    for e in it: list
        invariant
            it.seq() == all,
            keep == (|e: TogglTimeEntry| is_over(e)),
            out@ == it.seq().take(it.index() as int).filter(keep),
    {
        proof {
            reveal(Seq::filter);
            assert(it.seq().take(it.index() + 1).drop_last() =~= it.seq().take(it.index() as int));
        }
        if e.duration > 0 {
            out.push(e);
        }
    }
    assert(all.take(all.len() as int) =~= all);
    out
}

/// The issue keys of each tag, in order.
pub open spec fn tag_keys(tags: Seq<String>) -> Seq<Seq<char>>
    decreases tags.len(),
{
    if tags.len() == 0 {
        seq![]
    } else {
        tag_keys(tags.drop_last()) + issue_keys(tags.last()@)
    }
}

/// The issue keys of a description.
pub open spec fn description_keys(description: Option<String>) -> Seq<Seq<char>> {
    match description {
        Some(d) => issue_keys(d@),
        None => seq![],
    }
}

/// The issue keys of a time entry: those of its description, then those of its
/// tags.
pub open spec fn entry_keys(e: TogglTimeEntry) -> Seq<Seq<char>> {
    description_keys(e.description) + (match e.tags {
        Some(tags) => tag_keys(tags@),
        None => seq![],
    })
}

/// The issue keys of a time entry, in the order in which they are found, each
/// once.
pub fn extract_jira_keys(entry: &TogglTimeEntry) -> (r: Vec<String>)
    ensures
        texts(r@) == distinct(entry_keys(*entry)),
{
    let mut keys: Vec<String> = Vec::new();
    let ghost nothing: Seq<Seq<char>> = seq![];
    assert(texts(keys@) =~= nothing);
    let ghost described = description_keys(entry.description);
    if let Some(description) = &entry.description {
        add_all_keys(&mut keys, description.as_str());
    }
    assert(described + seq![] =~= described);
    if let Some(tags) = &entry.tags {
        let mut i: usize = 0;
        while i < tags.len()
            invariant
                i <= tags@.len(),
                nothing == Seq::<Seq<char>>::empty(),
                texts(keys@) == with_keys(nothing, described + tag_keys(tags@.take(i as int))),
            decreases tags.len() - i,
        {
            let ghost before = described + tag_keys(tags@.take(i as int));
            let ghost more = issue_keys(tags@[i as int]@);
            proof {
                assert(tags@.take(i + 1).drop_last() =~= tags@.take(i as int));
                lemma_with_keys_concat(nothing, before, more);
                assert(before + more =~= described + tag_keys(tags@.take(i + 1)));
            }
            add_all_keys(&mut keys, tags[i].as_str());
            i = i + 1;
        }
        assert(tags@.take(i as int) =~= tags@);
    }
    keys
}

proof fn lemma_tag_keys(tags: Seq<String>, key: Seq<char>)
    ensures
        tag_keys(tags).contains(key) == exists|i: int|
            0 <= i < tags.len() && issue_keys((#[trigger] tags[i])@).contains(key),
    decreases tags.len(),
{
    if tags.len() > 0 {
        let less = tags.drop_last();
        lemma_tag_keys(less, key);
        lemma_contains_concat(tag_keys(less), issue_keys(tags.last()@), key);
        assert(tags[tags.len() - 1] == tags.last());
        assert(forall|i: int| 0 <= i < less.len() ==> #[trigger] tags[i] == less[i]);
        if tag_keys(less).contains(key) {
            let i = choose|i: int| 0 <= i < less.len() && issue_keys((#[trigger] less[i])@).contains(key);
            assert(tags[i] == less[i]);
        }
    }
}

/// A key is among those of an entry exactly where it is in its description or
/// in one of its tags, at whatever position.
pub proof fn law_entry_keys_are_in_description_or_tags(e: TogglTimeEntry, key: Seq<char>)
    ensures
        distinct(entry_keys(e)).contains(key) == ({
            ||| (e.description matches Some(d) && issue_keys(d@).contains(key))
            ||| (e.tags matches Some(tags) && exists|i: int|
                0 <= i < tags@.len() && issue_keys((#[trigger] tags@[i])@).contains(key))
        }),
{
    let from_tags = match e.tags {
        Some(tags) => tag_keys(tags@),
        None => seq![],
    };
    law_distinct_keeps_each_once(entry_keys(e));
    lemma_contains_concat(description_keys(e.description), from_tags, key);
    if let Some(tags) = e.tags {
        lemma_tag_keys(tags@, key);
    }
}

proof fn lemma_filter_keeps_items(
    list: Seq<TogglTimeEntry>,
    keep: spec_fn(TogglTimeEntry) -> bool,
    i: int,
)
    requires
        0 <= i < list.filter(keep).len(),
    ensures
        list.contains(list.filter(keep)[i]),
    decreases list.len(),
{
    reveal(Seq::filter);
    let less = list.drop_last();
    if i < less.filter(keep).len() {
        lemma_filter_keeps_items(less, keep, i);
        let j = choose|j: int| 0 <= j < less.len() && less[j] == less.filter(keep)[i];
        assert(list[j] == less.filter(keep)[i]);
    } else {
        assert(list[list.len() - 1] == list.filter(keep)[i]);
    }
}

/// An entry is kept exactly where its duration is positive: one that is running
/// has none.
pub proof fn law_running_entries_are_left_out(list: Seq<TogglTimeEntry>, e: TogglTimeEntry)
    ensures
        list.filter(|x: TogglTimeEntry| is_over(x)).contains(e) == (list.contains(e) && e.duration
            > 0),
{
    let keep = |x: TogglTimeEntry| is_over(x);
    list.filter_lemma(keep);
    if list.filter(keep).contains(e) {
        let i = choose|i: int| 0 <= i < list.filter(keep).len() && list.filter(keep)[i] == e;
        assert(keep(list.filter(keep)[i]));
        assert(list.contains(e)) by {
            lemma_filter_keeps_items(list, keep, i);
        }
    }
    if list.contains(e) && e.duration > 0 {
        let i = choose|i: int| 0 <= i < list.len() && list[i] == e;
        assert(keep(list[i]));
        assert(list.filter(keep).contains(list[i]));
    }
}

/// What testing the connection came to.
pub fn test_connection(reply: Reply<()>) -> (r: Result<(), String>)
    ensures
        err_text(r) == (match reply {
            Reply::Unreachable(e) => Err::<(), Seq<char>>("Toggl connection failed: "@ + e@),
            Reply::Refused { status, .. } => Err::<(), Seq<char>>(
                "Toggl auth failed ("@ + status@ + ")"@,
            ),
            _ => Ok::<(), Seq<char>>(()),
        }),
{
    match reply {
        Reply::Unreachable(e) => Err(join2("Toggl connection failed: ", e.as_str())),
        Reply::Refused { status, .. } => Err(join3("Toggl auth failed (", status.as_str(), ")")),
        _ => Ok(()),
    }
}

}
