//! Early (formerly Timeular): its time entries, and how they are fetched.

use vstd::prelude::*;

use crate::clock::{
    calendar_day, count_minutes, in_calendar, law_minutes_are_of_milliseconds,
    law_minutes_back_are_negative, law_moment_shows_the_wall_clock,
    law_wall_clock_counts_from_midnight, millis_of, minutes_between, moment_text, naive_moment,
    pair_millis, parse_naive, read_wall_clock, resolve_here, resolved, wall_clock, write_utc, zone_at,
    LocalOffsets, Moment, DATE_FORMAT, DAY, FIRST_SECOND, LAST_SECOND, NAIVE_FORMAT,
    WHOLE_SECONDS_FORMAT,
};
use crate::http::{required, Reply};
use crate::issue_keys::{
    add_all_keys, add_first_key, distinct, first_issue_key, issue_keys,
    law_distinct_keeps_each_once, lemma_contains_concat, lemma_with_keys_concat,
    remove_markup, with_keys, without_markup,
};
use crate::text::{
    err_text, join2, join3, join4, law_quotient_is_cut_towards_zero, outcome_text, quotient, texts,
    trimmed,
};

verus! {

/// The address of the interface of Early.
pub const BASE_URL: &'static str = "https://api.timeular.com/api/v3";

/// The path of the request that signs in.
pub const SIGN_IN_PATH: &'static str = "/developer/sign-in";

/// The path of the request for the activities.
pub const ACTIVITIES_PATH: &'static str = "/activities";

/// When a time entry started and stopped, in UTC and without an offset.
#[derive(Debug, Clone)]
pub struct Duration {
    pub started_at: String,
    pub stopped_at: String,
}

/// A mention in a note.
#[derive(Debug, Clone)]
pub struct NoteMention {
    pub id: i64,
    pub label: Option<String>,
}

/// A tag of a note.
#[derive(Debug, Clone)]
pub struct NoteTag {
    pub id: i64,
    pub label: Option<String>,
}

/// The note of a time entry.
#[derive(Debug, Clone)]
pub struct Note {
    pub text: Option<String>,
    pub tags: Vec<NoteTag>,
    pub mentions: Vec<NoteMention>,
}

/// A time entry.
#[derive(Debug, Clone)]
pub struct TimeEntry {
    pub id: String,
    pub activity_id: String,
    pub duration: Duration,
    pub note: Option<Note>,
}

/// An activity that time is tracked for.
#[derive(Debug, Clone)]
pub struct Activity {
    pub id: String,
    pub name: String,
    pub color: String,
}

/// Forgets the token.
pub fn clear_token_cache(cache: &mut Option<String>)
    ensures
        *final(cache) == None::<String>,
{
    *cache = None;
}

/// How to come by a token.
pub enum TokenStep {
    /// It is at hand.
    Ready(String),
    /// Sign in with these credentials.
    SignIn { api_key: String, api_secret: String },
    /// There are no credentials.
    Failed(String),
}

/// Decides how to come by a token: the one at hand, else by signing in with
/// the credentials of the environment.
pub fn get_token(
    cache: &Option<String>,
    api_key: Option<String>,
    api_secret: Option<String>,
) -> (r: TokenStep)
    ensures
        match r {
            TokenStep::Ready(token) => *cache == Some(token),
            TokenStep::SignIn { api_key: k, api_secret: s } => *cache is None && api_key == Some(k)
                && api_secret == Some(s),
            TokenStep::Failed(e) => *cache is None && (if api_key is None {
                e@ == "EARLY_API_KEY not set"@
            } else {
                api_secret is None && e@ == "EARLY_API_SECRET not set"@
            }),
        },
{
    if let Some(token) = cache {
        return TokenStep::Ready(token.clone());
    }
    proof {
        reveal_strlit("EARLY_API_KEY");
        reveal_strlit("EARLY_API_SECRET");
        reveal_strlit(" not set");
        reveal_strlit("EARLY_API_KEY not set");
        reveal_strlit("EARLY_API_SECRET not set");
        assert("EARLY_API_KEY"@ + " not set"@ =~= "EARLY_API_KEY not set"@);
        assert("EARLY_API_SECRET"@ + " not set"@ =~= "EARLY_API_SECRET not set"@);
    }
    match required(api_key, "EARLY_API_KEY") {
        Err(e) => TokenStep::Failed(e),
        Ok(k) => match required(api_secret, "EARLY_API_SECRET") {
            Err(e) => TokenStep::Failed(e),
            Ok(s) => TokenStep::SignIn { api_key: k, api_secret: s },
        },
    }
}

/// What signing in came to.
pub open spec fn sign_in_result(reply: Reply<String>) -> Result<Seq<char>, Seq<char>> {
    match reply {
        Reply::Unreachable(e) => Err("Early auth request failed: "@ + e@),
        Reply::Refused { status, body, .. } => Err(
            "Early auth failed ("@ + status@ + "): "@ + body@,
        ),
        Reply::Garbled(e) => Err(e@),
        Reply::Delivered(token) => Ok(token@),
    }
}

/// Takes the token that signing in brought and keeps it.
pub fn accept_token(cache: &mut Option<String>, reply: Reply<String>) -> (r: Result<
    String,
    String,
>)
    ensures
        outcome_text(r) == sign_in_result(reply),
        match r {
            Ok(token) => *final(cache) == Some(token),
            Err(_) => *final(cache) == *old(cache),
        },
{
    match reply {
        Reply::Unreachable(e) => Err(join2("Early auth request failed: ", e.as_str())),
        Reply::Refused { status, body, .. } => Err(
            join4("Early auth failed (", status.as_str(), "): ", body.as_str()),
        ),
        Reply::Garbled(e) => Err(e),
        Reply::Delivered(token) => {
            *cache = Some(token.clone());
            Ok(token)
        },
    }
}

/// The address of a request.
pub fn early_url(path: &str) -> (r: String)
    ensures
        r@ == BASE_URL@ + path@,
{
    join2(BASE_URL, path)
}

/// Which of the two attempts of a request is under way.
#[derive(Clone, Copy, Debug, PartialEq, Eq, Structural)]
pub enum Attempt {
    First,
    Second,
}

/// How a request goes on.
pub enum FetchStep<T> {
    /// Get a new token and make the second attempt.
    SignInAgain,
    /// It is over.
    Done(Result<T, String>),
}

/// Whether a reply says that the token is not valid.
pub open spec fn is_unauthorized<T>(reply: Reply<T>) -> bool {
    reply matches Reply::Refused { code, .. } && code == 401
}

/// What a request came to in its last attempt. A refusal in the second attempt
/// is told without its body.
pub open spec fn fetch_result<T>(attempt: Attempt, reply: Reply<T>) -> Result<T, Seq<char>> {
    match reply {
        Reply::Unreachable(e) => Err("Early API error: "@ + e@),
        Reply::Refused { status, body, .. } => match attempt {
            Attempt::First => Err("Early API error ("@ + status@ + "): "@ + body@),
            Attempt::Second => Err("Early API error ("@ + status@ + ")"@),
        },
        Reply::Garbled(e) => Err(e@),
        Reply::Delivered(value) => Ok(value),
    }
}

/// Decides how a request goes on after a reply. A first attempt that is
/// answered with 401 drops the token and is made once more.
pub fn early_fetch<T>(cache: &mut Option<String>, attempt: Attempt, reply: Reply<T>) -> (r:
    FetchStep<T>)
    ensures
        match r {
            FetchStep::SignInAgain => attempt == Attempt::First && is_unauthorized(reply)
                && *final(cache) == None::<String>,
            FetchStep::Done(result) => !(attempt == Attempt::First && is_unauthorized(reply))
                && err_text(result) == fetch_result(attempt, reply) && *final(cache) == *old(cache),
        },
{
    match reply {
        Reply::Unreachable(e) => FetchStep::Done(Err(join2("Early API error: ", e.as_str()))),
        Reply::Refused { code, status, body } => match attempt {
            Attempt::First => {
                if code == 401 {
                    clear_token_cache(cache);
                    FetchStep::SignInAgain
                } else {
                    FetchStep::Done(
                        Err(join4("Early API error (", status.as_str(), "): ", body.as_str())),
                    )
                }
            },
            Attempt::Second => FetchStep::Done(
                Err(join3("Early API error (", status.as_str(), ")")),
            ),
        },
        Reply::Garbled(e) => FetchStep::Done(Err(e)),
        Reply::Delivered(value) => FetchStep::Done(Ok(value)),
    }
}

/// What a local date and a time of day come to as a timestamp in UTC, given
/// the offsets of the machine at that time and an hour later.
pub open spec fn utc_string(
    date: Seq<char>,
    wall: Moment,
    offsets: LocalOffsets,
    later: LocalOffsets,
) -> Result<Seq<char>, Seq<char>> {
    match resolved(wall, offsets, later) {
        Some(m) => Ok(moment_text(m.secs, m.frac, NAIVE_FORMAT@)),
        None => Err("Unresolvable local time for date '"@ + date + "'"@),
    }
}

/// Whether `r` is what a local date and a time of day come to as a timestamp
/// in UTC, in some time zone.
pub open spec fn is_utc_string(
    date: Seq<char>,
    h: u32,
    m: u32,
    s: u32,
    ms: u32,
    r: Result<Seq<char>, Seq<char>>,
) -> bool {
    match wall_clock(date, h, m, s, ms) {
        Err(e) => r == Err::<Seq<char>, Seq<char>>(e),
        Ok(wall) => {
            &&& exists|offsets: LocalOffsets, later: LocalOffsets|
                offsets.valid() && later.valid() && r == #[trigger] utc_string(
                    date,
                    wall,
                    offsets,
                    later,
                )
            &&& ms < 1000 ==> (r matches Ok(stamp) ==> reads_near(stamp, wall))
        },
    }
}

/// Whether a timestamp is read, to the millisecond, as a moment that is less
/// than a day before the wall-clock time taken as UTC, or less than a day and
/// an hour after it.
pub open spec fn reads_near(stamp: Seq<char>, wall: Moment) -> bool {
    match naive_moment(stamp, NAIVE_FORMAT@) {
        Some((secs, frac)) => frac == wall.frac && -86_400 < secs - wall.secs < 90_000,
        None => false,
    }
}

/// Whether a timestamp is read as this moment, in whole milliseconds.
pub open spec fn reads_as(stamp: Seq<char>, m: Option<Moment>) -> bool {
    m matches Some(x) && naive_moment(stamp, NAIVE_FORMAT@) == Some(
        (x.secs, (x.frac - x.frac % 1_000_000) as u32),
    )
}

/// The timestamp in UTC of a moment that was decided for a local date.
pub fn utc_string_of(date: &str, m: Option<Moment>) -> (r: Result<String, String>)
    requires
        m matches Some(x) ==> x.valid(),
    ensures
        outcome_text(r) == (match m {
            Some(x) => Ok::<Seq<char>, Seq<char>>(moment_text(x.secs, x.frac, NAIVE_FORMAT@)),
            None => Err::<Seq<char>, Seq<char>>(
                "Unresolvable local time for date '"@ + date@ + "'"@,
            ),
        }),
        r matches Ok(stamp) ==> (m->0.frac < 1_000_000_000 ==> naive_moment(
            stamp@,
            NAIVE_FORMAT@,
        ) == Some((m->0.secs, (m->0.frac - m->0.frac % 1_000_000) as u32))),
{
    match m {
        Some(x) => Ok(write_utc(x, NAIVE_FORMAT)),
        None => Err(join3("Unresolvable local time for date '", date, "'")),
    }
}

/// The timestamp in UTC of a local date and a time of day. Early filters and
/// stores in UTC, so the bounds of a local day must be translated; otherwise
/// entries near local midnight fall on the wrong day.
///
/// Which moment a wall-clock time is depends on the time zone of the machine.
pub fn local_datetime_to_utc_string(date: &str, h: u32, m: u32, s: u32, ms: u32) -> (r: Result<
    String,
    String,
>)
    ensures
        is_utc_string(date@, h, m, s, ms, outcome_text(r)),
        wall_clock(date@, h, m, s, ms) matches Ok(wall) ==> exists|
            offsets: LocalOffsets,
            later: LocalOffsets,
        |
            zone_at(wall.secs as int, offsets, later) && outcome_text(r) == #[trigger] utc_string(
                date@,
                wall,
                offsets,
                later,
            ) && (r matches Ok(stamp) ==> (ms < 1000 ==> reads_as(
                stamp@,
                resolved(wall, offsets, later),
            ))),
{
    match read_wall_clock(date, h, m, s, ms) {
        Err(e) => Err(e),
        Ok(wall) => {
            let moment = resolve_here(wall);
            let ghost (offsets, later) = choose|offsets: LocalOffsets, later: LocalOffsets|
                zone_at(wall.secs as int, offsets, later) && offsets.valid() && later.valid() && moment
                    == #[trigger] resolved(wall, offsets, later);
            let r = utc_string_of(date, moment);
            assert(outcome_text(r) == utc_string(date@, wall, offsets, later));
            r
        },
    }
}

/// The milliseconds since the Unix epoch of a timestamp without an offset,
/// with or without a fraction of a second.
pub open spec fn naive_ms(stamp: Seq<char>) -> Option<int> {
    match naive_moment(stamp, NAIVE_FORMAT@) {
        Some(m) => Some(pair_millis(m)),
        None => match naive_moment(stamp, WHOLE_SECONDS_FORMAT@) {
            Some(m) => Some(pair_millis(m)),
            None => None,
        },
    }
}

/// Reads a timestamp without an offset, taken as UTC, in milliseconds since
/// the Unix epoch. Takes it with or without milliseconds.
pub fn naive_utc_ms(s: &str) -> (r: Option<i64>)
    ensures
        match r {
            Some(ms) => naive_ms(s@) == Some(ms as int),
            None => naive_ms(s@) is None,
        },
{
    match parse_naive(s, NAIVE_FORMAT) {
        Some(m) => Some(millis_of(m)),
        None => match parse_naive(s, WHOLE_SECONDS_FORMAT) {
            Some(m) => Some(millis_of(m)),
            None => None,
        },
    }
}

/// The bounds, in UTC, of the local days from `from` to `to`.
pub fn day_window(from: &str, to: &str) -> (r: Result<(String, String), String>)
    ensures
        match r {
            Ok((start, end)) => is_utc_string(from@, 0, 0, 0, 0, Ok(start@)) && is_utc_string(
                to@,
                23,
                59,
                59,
                999,
                Ok(end@),
            ),
            Err(e) => is_utc_string(from@, 0, 0, 0, 0, Err(e@)) || (wall_clock(from@, 0, 0, 0, 0) is Ok
                && is_utc_string(to@, 23, 59, 59, 999, Err(e@))),
        },
        match r {
            Ok((start, end)) => call_ensures(
                local_datetime_to_utc_string,
                (from, 0u32, 0u32, 0u32, 0u32),
                Ok(start),
            ) && call_ensures(
                local_datetime_to_utc_string,
                (to, 23u32, 59u32, 59u32, 999u32),
                Ok(end),
            ),
            Err(e) => call_ensures(
                local_datetime_to_utc_string,
                (from, 0u32, 0u32, 0u32, 0u32),
                Err(e),
            ) || call_ensures(
                local_datetime_to_utc_string,
                (to, 23u32, 59u32, 59u32, 999u32),
                Err(e),
            ),
        },
{
    match local_datetime_to_utc_string(from, 0, 0, 0, 0) {
        Err(e) => Err(e),
        Ok(start) => match local_datetime_to_utc_string(to, 23, 59, 59, 999) {
            Err(e) => Err(e),
            Ok(end) => Ok((start, end)),
        },
    }
}

/// The path of the request for the time entries of a window.
pub fn time_entries_path(start: &str, end: &str) -> (r: String)
    ensures
        r@ == "/time-entries/"@ + start@ + "/"@ + end@,
{
    join4("/time-entries/", start, "/", end)
}

/// Whether an entry belongs to the window that begins at `start`: it started
/// then or later. An entry whose start cannot be read belongs to it.
pub open spec fn started_in_window(e: TimeEntry, start: Seq<char>) -> bool {
    match naive_ms(e.duration.started_at@) {
        Some(ms) => match naive_ms(start) {
            Some(from) => ms >= from,
            None => true,
        },
        None => true,
    }
}

/// The time entries of a window, from those that were fetched for it. Early
/// sends every entry that overlaps the window; those that started before it
/// are left out, so that an entry that runs past midnight is on one day only.
pub fn get_time_entries(fetched: Vec<TimeEntry>, start: &str) -> (r: Vec<TimeEntry>)
    ensures
        r@ == fetched@.filter(|e: TimeEntry| started_in_window(e, start@)),
{
    let start_ms: i64 = match naive_utc_ms(start) {
        Some(ms) => ms,
        None => i64::MIN,
    };
    let ghost all = fetched@;
    let ghost keep = |e: TimeEntry| started_in_window(e, start@);
    let mut out: Vec<TimeEntry> = Vec::new();
    for e in it: fetched
        invariant
            it.seq() == all,
            keep == (|e: TimeEntry| started_in_window(e, start@)),
            match naive_ms(start@) {
                Some(from) => start_ms == from,
                None => start_ms == i64::MIN,
            },
            out@ == it.seq().take(it.index() as int).filter(keep),
    {
        proof {
            reveal(Seq::filter);
            assert(it.seq().take(it.index() + 1).drop_last() =~= it.seq().take(it.index() as int));
        }
        let kept: bool = match naive_utc_ms(e.duration.started_at.as_str()) {
            Some(ms) => ms >= start_ms,
            None => true,
        };
        if kept {
            out.push(e);
        }
    }
    assert(all.take(all.len() as int) =~= all);
    out
}

/// A window that begins at local midnight holds an entry exactly where the
/// clock showed that midnight or a later time when it started. `offset` is how
/// far clocks are ahead of UTC, `day` counts days from the Unix epoch.
pub proof fn law_window_begins_at_local_midnight(
    e: TimeEntry,
    start: Seq<char>,
    secs: i64,
    offset: int,
    day: int,
    started: (i64, u32),
)
    ensures
        naive_moment(start, NAIVE_FORMAT@) == Some((secs, 0u32)) && secs + offset == day * 86_400
            && naive_moment(e.duration.started_at@, NAIVE_FORMAT@) == Some(started)
            ==> started_in_window(e, start) == (day * 86_400_000 <= (started.0 + offset) * 1000
            + started.1 as int / 1_000_000),
        naive_moment(e.duration.started_at@, NAIVE_FORMAT@) is None && naive_moment(
            e.duration.started_at@,
            WHOLE_SECONDS_FORMAT@,
        ) is None ==> started_in_window(e, start),
{
}

/// An entry that started before the end of one window does not belong to a
/// window that begins after it, though it may run into that window.
pub proof fn law_entry_is_in_one_window(e: TimeEntry, end: Seq<char>, next_start: Seq<char>)
    ensures
        (naive_ms(e.duration.started_at@) matches Some(ms) && naive_ms(end) matches Some(last)
            && naive_ms(next_start) matches Some(next) && ms <= last && last < next)
            ==> !started_in_window(e, next_start),
{
}

/// The first issue key of each label, in order.
pub open spec fn mention_keys(mentions: Seq<NoteMention>) -> Seq<Seq<char>>
    decreases mentions.len(),
{
    if mentions.len() == 0 {
        seq![]
    } else {
        mention_keys(mentions.drop_last()) + label_key(mentions.last().label)
    }
}

/// The first issue key of each label, in order.
pub open spec fn tag_keys(tags: Seq<NoteTag>) -> Seq<Seq<char>>
    decreases tags.len(),
{
    if tags.len() == 0 {
        seq![]
    } else {
        tag_keys(tags.drop_last()) + label_key(tags.last().label)
    }
}

/// The first issue key of a label, as a list.
pub open spec fn label_key(label: Option<String>) -> Seq<Seq<char>> {
    match label {
        Some(l) => match first_issue_key(l@) {
            Some(key) => seq![key],
            None => seq![],
        },
        None => seq![],
    }
}

/// The issue keys of a note: of its mentions and its tags the first of each,
/// of its text all.
pub open spec fn note_keys(note: Option<Note>) -> Seq<Seq<char>> {
    match note {
        None => seq![],
        Some(n) => mention_keys(n.mentions@) + tag_keys(n.tags@) + (match n.text {
            Some(t) => issue_keys(t@),
            None => seq![],
        }),
    }
}

/// The issue keys of a time entry, in the order in which they are found, each
/// once.
pub fn extract_jira_keys(entry: &TimeEntry) -> (r: Vec<String>)
    ensures
        texts(r@) == distinct(note_keys(entry.note)),
{
    let mut keys: Vec<String> = Vec::new();
    assert(texts(keys@) =~= seq![]);
    if let Some(note) = &entry.note {
        let ghost nothing: Seq<Seq<char>> = seq![];
        let mut i: usize = 0;
        while i < note.mentions.len()
            invariant
                i <= note.mentions@.len(),
                nothing == Seq::<Seq<char>>::empty(),
                texts(keys@) == with_keys(nothing, mention_keys(note.mentions@.take(i as int))),
            decreases note.mentions.len() - i,
        {
            let ghost before = mention_keys(note.mentions@.take(i as int));
            proof {
                assert(note.mentions@.take(i + 1).drop_last() =~= note.mentions@.take(i as int));
                lemma_with_keys_concat(
                    nothing,
                    before,
                    label_key(note.mentions@[i as int].label),
                );
                assert(before + seq![] =~= before);
            }
            if let Some(label) = &note.mentions[i].label {
                add_first_key(&mut keys, label.as_str());
            }
            i = i + 1;
        }
        assert(note.mentions@.take(i as int) =~= note.mentions@);
        let ghost from_mentions = mention_keys(note.mentions@);
        assert(from_mentions + tag_keys(note.tags@.take(0)) =~= from_mentions);
        i = 0;
        while i < note.tags.len()
            invariant
                i <= note.tags@.len(),
                nothing == Seq::<Seq<char>>::empty(),
                texts(keys@) == with_keys(
                    nothing,
                    from_mentions + tag_keys(note.tags@.take(i as int)),
                ),
            decreases note.tags.len() - i,
        {
            let ghost before = from_mentions + tag_keys(note.tags@.take(i as int));
            let ghost more = label_key(note.tags@[i as int].label);
            proof {
                assert(note.tags@.take(i + 1).drop_last() =~= note.tags@.take(i as int));
                lemma_with_keys_concat(nothing, before, more);
                assert(before + more =~= from_mentions + tag_keys(note.tags@.take(i + 1)));
            }
            if let Some(label) = &note.tags[i].label {
                add_first_key(&mut keys, label.as_str());
            }
            i = i + 1;
        }
        assert(note.tags@.take(i as int) =~= note.tags@);
        let ghost from_labels = from_mentions + tag_keys(note.tags@);
        assert(from_labels + seq![] =~= from_labels);
        if let Some(text) = &note.text {
            add_all_keys(&mut keys, text.as_str());
            proof {
                lemma_with_keys_concat(nothing, from_labels, issue_keys(text@));
            }
        }
    }
    keys
}

proof fn lemma_mention_keys(mentions: Seq<NoteMention>, key: Seq<char>)
    ensures
        mention_keys(mentions).contains(key) == exists|i: int|
            0 <= i < mentions.len() && ((#[trigger] mentions[i]).label matches Some(l)
                && first_issue_key(l@) == Some(key)),
    decreases mentions.len(),
{
    if mentions.len() > 0 {
        let less = mentions.drop_last();
        let more = label_key(mentions.last().label);
        lemma_mention_keys(less, key);
        lemma_contains_concat(mention_keys(less), more, key);
        assert(mentions[mentions.len() - 1] == mentions.last());
        assert(forall|i: int| 0 <= i < less.len() ==> #[trigger] mentions[i] == less[i]);
        if mention_keys(less).contains(key) {
            let i = choose|i: int|
                0 <= i < less.len() && ((#[trigger] less[i]).label matches Some(l)
                    && first_issue_key(l@) == Some(key));
            assert(mentions[i] == less[i]);
        }
        lemma_label_key(mentions.last().label, key);
    }
}

proof fn lemma_tag_keys(tags: Seq<NoteTag>, key: Seq<char>)
    ensures
        tag_keys(tags).contains(key) == exists|i: int|
            0 <= i < tags.len() && ((#[trigger] tags[i]).label matches Some(l) && first_issue_key(
                l@,
            ) == Some(key)),
    decreases tags.len(),
{
    if tags.len() > 0 {
        let less = tags.drop_last();
        let more = label_key(tags.last().label);
        lemma_tag_keys(less, key);
        lemma_contains_concat(tag_keys(less), more, key);
        assert(tags[tags.len() - 1] == tags.last());
        assert(forall|i: int| 0 <= i < less.len() ==> #[trigger] tags[i] == less[i]);
        if tag_keys(less).contains(key) {
            let i = choose|i: int|
                0 <= i < less.len() && ((#[trigger] less[i]).label matches Some(l)
                    && first_issue_key(l@) == Some(key));
            assert(tags[i] == less[i]);
        }
        lemma_label_key(tags.last().label, key);
    }
}

proof fn lemma_label_key(label: Option<String>, key: Seq<char>)
    ensures
        label_key(label).contains(key) == (label matches Some(l) && first_issue_key(l@) == Some(
            key,
        )),
{
    if let Some(l) = label {
        if let Some(k) = first_issue_key(l@) {
            assert(label_key(label)[0] == k);
        }
    }
}

/// A key is among those of an entry exactly where it is the first key in the
/// label of one of its mentions, at whatever position, or in the label of one
/// of its tags, or one of the keys in its text.
pub proof fn law_entry_keys_are_those_of_its_note(note: Note, key: Seq<char>)
    ensures
        distinct(note_keys(Some(note))).contains(key) == ({
            ||| exists|i: int|
                0 <= i < note.mentions@.len() && ((#[trigger] note.mentions@[i]).label matches Some(
                    l,
                ) && first_issue_key(l@) == Some(key))
            ||| exists|i: int|
                0 <= i < note.tags@.len() && ((#[trigger] note.tags@[i]).label matches Some(l)
                    && first_issue_key(l@) == Some(key))
            ||| (note.text matches Some(t) && issue_keys(t@).contains(key))
        }),
        distinct(note_keys(None)).len() == 0,
{
    let from_text = match note.text {
        Some(t) => issue_keys(t@),
        None => seq![],
    };
    law_distinct_keeps_each_once(note_keys(Some(note)));
    lemma_mention_keys(note.mentions@, key);
    lemma_tag_keys(note.tags@, key);
    lemma_contains_concat(mention_keys(note.mentions@), tag_keys(note.tags@), key);
    lemma_contains_concat(
        mention_keys(note.mentions@) + tag_keys(note.tags@),
        from_text,
        key,
    );
}

/// How long a time entry lasted, in whole minutes; 0 where one of its ends
/// cannot be read.
pub open spec fn duration_minutes(d: Duration) -> int {
    match (
        naive_moment(d.started_at@, NAIVE_FORMAT@),
        naive_moment(d.stopped_at@, NAIVE_FORMAT@),
    ) {
        (Some(start), Some(stop)) => minutes_between(
            Moment { secs: start.0, frac: start.1 },
            Moment { secs: stop.0, frac: stop.1 },
        ),
        _ => 0,
    }
}

/// The minutes between two moments, 0 where one of them is missing.
pub fn minutes_or_zero(start: Option<Moment>, stop: Option<Moment>) -> (r: i64)
    requires
        start matches Some(m) ==> m.valid(),
        stop matches Some(m) ==> m.valid(),
    ensures
        r == (match (start, stop) {
            (Some(s), Some(e)) => minutes_between(s, e),
            _ => 0,
        }),
{
    match (start, stop) {
        (Some(s), Some(e)) => count_minutes(s, e),
        _ => 0,
    }
}

/// Whether a timestamp is read as a moment outside any leap second, and the
/// milliseconds of that moment are `ms`.
pub open spec fn reads_as_ms(stamp: Seq<char>, ms: int) -> bool {
    match naive_moment(stamp, NAIVE_FORMAT@) {
        Some((secs, frac)) => frac < 1_000_000_000 && pair_millis((secs, frac)) == ms,
        None => false,
    }
}

/// How long a time entry lasted, in whole minutes. Outside leap seconds it is
/// the milliseconds from its start to its stop, cut off to minutes.
pub fn get_duration_minutes(entry: &TimeEntry) -> (r: i64)
    ensures
        r == duration_minutes(entry.duration),
        forall|start: int, stop: int| #[trigger]
            reads_as_ms(entry.duration.started_at@, start) && #[trigger] reads_as_ms(
                entry.duration.stopped_at@,
                stop,
            ) ==> r == quotient(stop - start, 60_000),
{
    let start = parse_naive(entry.duration.started_at.as_str(), NAIVE_FORMAT);
    let stop = parse_naive(entry.duration.stopped_at.as_str(), NAIVE_FORMAT);
    proof {
        if let (Some(s), Some(e)) = (start, stop) {
            if !s.is_leap() && !e.is_leap() {
                law_minutes_are_of_milliseconds(s, e);
            }
        }
    }
    minutes_or_zero(start, stop)
}

/// An entry with its two ends exchanged lasts as long, with the other sign.
pub proof fn law_exchanged_ends_are_negative(d: Duration, exchanged: Duration)
    requires
        exchanged.started_at@ == d.stopped_at@,
        exchanged.stopped_at@ == d.started_at@,
    ensures
        duration_minutes(exchanged) == -duration_minutes(d),
{
    if let (Some(start), Some(stop)) = (
        naive_moment(d.started_at@, NAIVE_FORMAT@),
        naive_moment(d.stopped_at@, NAIVE_FORMAT@),
    ) {
        law_minutes_back_are_negative(
            Moment { secs: start.0, frac: start.1 },
            Moment { secs: stop.0, frac: stop.1 },
        );
    }
}

/// The text of a note without mention markup and without white space at its
/// ends.
pub fn clean_note_text(text: &str) -> (r: String)
    ensures
        r@ == trimmed(without_markup(text@)),
{
    let plain = remove_markup(text);
    plain.as_str().trim().to_owned()
}

/// A request whose token is refused with 401 is made a second time with a new
/// token, once; any other reply ends it, and only a success brings a value.
pub proof fn law_only_a_success_brings_a_value<T>(attempt: Attempt, reply: Reply<T>)
    ensures
        is_unauthorized(reply) == (reply matches Reply::Refused { code, .. } && code == 401),
        reply matches Reply::Delivered(value) ==> fetch_result(attempt, reply) == Ok::<T, Seq<char>>(
            value,
        ),
        !(reply is Delivered) ==> fetch_result(attempt, reply) is Err,
{
}

/// The milliseconds of a timestamp are those of the moment it is read as.
pub proof fn law_timestamp_in_milliseconds(stamp: Seq<char>)
    ensures
        naive_moment(stamp, NAIVE_FORMAT@) matches Some(m) ==> naive_ms(stamp) == Some(
            m.0 * 1000 + m.1 as int / 1_000_000,
        ),
        naive_moment(stamp, NAIVE_FORMAT@) is None ==> (match naive_moment(
            stamp,
            WHOLE_SECONDS_FORMAT@,
        ) {
            Some(m) => naive_ms(stamp) == Some(m.0 * 1000 + m.1 as int / 1_000_000),
            None => naive_ms(stamp) is None,
        }),
{
}

/// In plain numbers: outside leap seconds a duration is the whole minutes that
/// are in the milliseconds from start to stop, with their sign.
pub proof fn law_duration_is_the_time_between(d: Duration, start: (i64, u32), stop: (i64, u32))
    ensures
        naive_moment(d.started_at@, NAIVE_FORMAT@) == Some(start) && naive_moment(
            d.stopped_at@,
            NAIVE_FORMAT@,
        ) == Some(stop) && start.1 < 1_000_000_000 && stop.1 < 1_000_000_000 && start.1 % 1_000_000
            == 0 && stop.1 % 1_000_000 == 0 ==> {
            let apart = (stop.0 - start.0) * 1000 + stop.1 as int / 1_000_000 - start.1 as int
                / 1_000_000;
            let r = duration_minutes(d);
            &&& apart >= 0 ==> 60_000 * r <= apart < 60_000 * r + 60_000
            &&& apart <= 0 ==> 60_000 * r - 60_000 < apart <= 60_000 * r
        },
        naive_moment(d.started_at@, NAIVE_FORMAT@) is None || naive_moment(
            d.stopped_at@,
            NAIVE_FORMAT@,
        ) is None ==> duration_minutes(d) == 0,
{
    if start.1 < 1_000_000_000 && stop.1 < 1_000_000_000 && start.1 % 1_000_000 == 0 && stop.1
        % 1_000_000 == 0 {
        let s = Moment { secs: start.0, frac: start.1 };
        let e = Moment { secs: stop.0, frac: stop.1 };
        law_minutes_are_of_milliseconds(s, e);
        law_quotient_is_cut_towards_zero(e.millis() - s.millis(), 60_000);
    }
}

/// A local date and a time of day are translated to the moment at which the
/// clock of the machine shows them. `offsets` are those of the machine's own
/// zone at that time: where there is one, the timestamp is that much behind the
/// wall clock; where there are two, it is the earlier; where clocks jump over
/// the time, it is that of the hour later.
pub proof fn law_local_time_is_translated_in_the_zone(
    date: &str,
    h: u32,
    m: u32,
    s: u32,
    ms: u32,
    stamp: String,
    day: i32,
)
    requires
        call_ensures(
            local_datetime_to_utc_string,
            (date, h, m, s, ms),
            Ok::<String, String>(stamp),
        ),
        h < 24,
        m < 60,
        s < 60,
        ms < 1000,
    ensures
        calendar_day(date@, DATE_FORMAT@) == Ok::<i32, Seq<char>>(day) && in_calendar(day * DAY)
            && in_calendar(day * DAY + DAY - 1) ==> exists|
            offsets: LocalOffsets,
            later: LocalOffsets,
        | #[trigger]
            zone_at(day * 86_400 + h * 3600 + m * 60 + s, offsets, later) && (naive_moment(
                stamp@,
                NAIVE_FORMAT@,
            ) matches Some(read) && {
                let wall = day * 86_400 + h * 3600 + m * 60 + s;
                &&& read.1 == ms * 1_000_000
                &&& match offsets {
                    LocalOffsets::Single(o) => FIRST_SECOND <= wall - o <= LAST_SECOND ==> read.0 + o
                        == wall,
                    LocalOffsets::Ambiguous(o, p) => FIRST_SECOND <= wall - o <= LAST_SECOND
                        && FIRST_SECOND <= wall - p <= LAST_SECOND ==> (read.0 + o == wall || read.0
                        + p == wall) && read.0 + o <= wall && read.0 + p <= wall,
                    LocalOffsets::Missing => later matches LocalOffsets::Single(p) && read.0 + p
                        == wall + 3600,
                }
            }),
{
    if calendar_day(date@, DATE_FORMAT@) == Ok::<i32, Seq<char>>(day) && in_calendar(day * DAY)
        && in_calendar(day * DAY + DAY - 1) {
        law_wall_clock_counts_from_midnight(date@, day, h, m, s, ms);
        let wall = wall_clock(date@, h, m, s, ms)->Ok_0;
        let (offsets, later) = choose|offsets: LocalOffsets, later: LocalOffsets|
            zone_at(wall.secs as int, offsets, later) && Ok::<Seq<char>, Seq<char>>(stamp@)
                == #[trigger] utc_string(date@, wall, offsets, later) && reads_as(
                stamp@,
                resolved(wall, offsets, later),
            );
        law_moment_shows_the_wall_clock(wall, offsets, later);
        assert(zone_at(day * 86_400 + h * 3600 + m * 60 + s, offsets, later));
    }
}

/// The window of local days begins with what local midnight of the first is in
/// UTC, and ends with what the last millisecond of the last one is.
pub proof fn law_window_is_of_local_days(from: &str, to: &str, start: String, end: String)
    requires
        call_ensures(day_window, (from, to), Ok::<(String, String), String>((start, end))),
    ensures
        call_ensures(
            local_datetime_to_utc_string,
            (from, 0u32, 0u32, 0u32, 0u32),
            Ok::<String, String>(start),
        ),
        call_ensures(
            local_datetime_to_utc_string,
            (to, 23u32, 59u32, 59u32, 999u32),
            Ok::<String, String>(end),
        ),
{
}

/// A token comes of a success alone, as the reply has it.
pub proof fn law_token_is_of_the_reply(reply: Reply<String>)
    ensures
        sign_in_result(reply) is Ok == (reply is Delivered),
        reply matches Reply::Delivered(token) ==> sign_in_result(reply) == Ok::<Seq<char>, Seq<char>>(
            token@,
        ),
{
}

/// An entry whose start can be read belongs to a window exactly where it started
/// at its beginning or later, in milliseconds since the Unix epoch. What cannot
/// be compared is kept.
pub proof fn law_entry_belongs_from_the_start_on(e: TimeEntry, start: Seq<char>)
    ensures
        match (naive_ms(e.duration.started_at@), naive_ms(start)) {
            (Some(ms), Some(from)) => started_in_window(e, start) == (ms - from >= 0),
            _ => started_in_window(e, start),
        },
{
}

}
