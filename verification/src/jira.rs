//! Jira: its worklogs, and the requests that read and add them.

use vstd::prelude::*;

use crate::clock::{
    millis_of, moment_text, offset_moment, pair, pair_millis, parse_offset, read_start,
    started_moment, write_utc, Moment, NAIVE_FORMAT, OFFSET_FORMAT,
};
use crate::http::{base64_text, basic_auth, required, Reply};
use crate::minutes::{duration_text, fmt_duration};
use crate::text::{err_text, join2, join3, join4, opt_text, outcome_text, strip_trailing, without_trailing};

verus! {

/// A worklog of an issue.
#[derive(Debug, Clone)]
pub struct Worklog {
    pub id: String,
    pub started: String,
    pub time_spent_seconds: i64,
}

/// Forgets the cloud id.
pub fn clear_cloud_id_cache(cache: &mut Option<String>)
    ensures
        *final(cache) == None::<String>,
{
    *cache = None;
}

/// How to come by the cloud id.
pub enum CloudIdStep {
    /// It is at hand.
    Ready(String),
    /// Ask at this address.
    Ask { url: String },
    /// There is no address.
    Failed(String),
}

/// Decides how to come by the cloud id: the one at hand, else by asking at the
/// base address of the environment.
pub fn get_cloud_id(cache: &Option<String>, base_url: &Option<String>) -> (r: CloudIdStep)
    ensures
        match r {
            CloudIdStep::Ready(id) => *cache == Some(id),
            CloudIdStep::Ask { url } => *cache is None && *base_url is Some && url@
                == without_trailing(base_url->0@, '/') + "/_edge/tenant_info"@,
            CloudIdStep::Failed(e) => *cache is None && *base_url is None && e@
                == "JIRA_BASE_URL not set"@,
        },
{
    if let Some(id) = cache {
        return CloudIdStep::Ready(id.clone());
    }
    match base_url {
        Some(base) => {
            let host = strip_trailing(base.as_str(), '/');
            CloudIdStep::Ask { url: join2(host.as_str(), "/_edge/tenant_info") }
        },
        None => CloudIdStep::Failed("JIRA_BASE_URL not set".to_owned()),
    }
}

/// What asking for the cloud id came to.
pub open spec fn cloud_id_result(base_url: Seq<char>, reply: Reply<String>) -> Result<
    Seq<char>,
    Seq<char>,
> {
    match reply {
        Reply::Unreachable(e) => Err(e@),
        Reply::Refused { .. } => Err("Failed to resolve Jira Cloud ID from "@ + base_url),
        Reply::Garbled(e) => Err(e@),
        Reply::Delivered(id) => Ok(id@),
    }
}

/// Takes the cloud id that asking brought and keeps it.
pub fn accept_cloud_id(cache: &mut Option<String>, base_url: &str, reply: Reply<String>) -> (r:
    Result<String, String>)
    ensures
        outcome_text(r) == cloud_id_result(base_url@, reply),
        match r {
            Ok(id) => *final(cache) == Some(id),
            Err(_) => *final(cache) == *old(cache),
        },
{
    match reply {
        Reply::Unreachable(e) => Err(e),
        Reply::Refused { .. } => Err(join2("Failed to resolve Jira Cloud ID from ", base_url)),
        Reply::Garbled(e) => Err(e),
        Reply::Delivered(id) => {
            *cache = Some(id.clone());
            Ok(id)
        },
    }
}

/// The address of the interface of a Jira site.
pub fn get_api_base(cloud_id: &str) -> (r: String)
    ensures
        r@ == "https://api.atlassian.com/ex/jira/"@ + cloud_id@,
{
    join2("https://api.atlassian.com/ex/jira/", cloud_id)
}

/// The value of the `Authorization` header, from the environment.
pub fn get_auth_header(email: Option<String>, token: Option<String>) -> (r: Result<String, String>)
    ensures
        outcome_text(r) == (match (email, token) {
            (None, _) => Err::<Seq<char>, Seq<char>>("JIRA_EMAIL not set"@),
            (Some(_), None) => Err::<Seq<char>, Seq<char>>("JIRA_API_TOKEN not set"@),
            (Some(e), Some(t)) => Ok::<Seq<char>, Seq<char>>(
                "Basic "@ + base64_text(e@ + ":"@ + t@),
            ),
        }),
{
    proof {
        reveal_strlit("JIRA_EMAIL");
        reveal_strlit("JIRA_API_TOKEN");
        reveal_strlit(" not set");
        reveal_strlit("JIRA_EMAIL not set");
        reveal_strlit("JIRA_API_TOKEN not set");
        assert("JIRA_EMAIL"@ + " not set"@ =~= "JIRA_EMAIL not set"@);
        assert("JIRA_API_TOKEN"@ + " not set"@ =~= "JIRA_API_TOKEN not set"@);
    }
    match required(email, "JIRA_EMAIL") {
        Err(e) => Err(e),
        Ok(user) => match required(token, "JIRA_API_TOKEN") {
            Err(e) => Err(e),
            Ok(password) => Ok(basic_auth(user.as_str(), password.as_str())),
        },
    }
}

/// The address of the worklogs of an issue.
pub fn worklogs_url(base: &str, issue_key: &str) -> (r: String)
    ensures
        r@ == base@ + "/rest/api/3/issue/"@ + issue_key@ + "/worklog"@,
{
    join4(base, "/rest/api/3/issue/", issue_key, "/worklog")
}

/// The address that a connection is tested at.
pub fn myself_url(base: &str) -> (r: String)
    ensures
        r@ == base@ + "/rest/api/3/myself"@,
{
    join2(base, "/rest/api/3/myself")
}

/// The worklogs of an issue, from the reply to the request for them. An issue
/// whose worklogs are refused has none.
pub fn get_worklogs(reply: Reply<Vec<Worklog>>) -> (r: Result<Vec<Worklog>, String>)
    ensures
        match reply {
            Reply::Unreachable(e) => r == Err::<Vec<Worklog>, String>(e),
            Reply::Refused { .. } => r matches Ok(list) && list@.len() == 0,
            Reply::Garbled(e) => r == Err::<Vec<Worklog>, String>(e),
            Reply::Delivered(list) => r == Ok::<Vec<Worklog>, String>(list),
        },
{
    match reply {
        Reply::Unreachable(e) => Err(e),
        Reply::Refused { .. } => Ok(Vec::new()),
        Reply::Garbled(e) => Err(e),
        Reply::Delivered(list) => Ok(list),
    }
}

/// A worklog to be added.
pub struct WorklogRequest {
    pub time_spent: String,
    pub started: String,
    pub comment: Option<String>,
}

/// When a worklog started, as Jira takes it: the start of the time entry in
/// UTC. A start that cannot be read is taken to be in UTC as it stands.
pub open spec fn started_text(started: Seq<char>) -> Seq<char> {
    stamp_of(started, started_moment(started)) + "+0000"@
}

/// The timestamp, in UTC and without an offset, of a start that was read as a
/// moment; the text as it stands where it was not.
pub open spec fn stamp_of(started: Seq<char>, read: Option<(i64, u32)>) -> Seq<char> {
    match read {
        Some((secs, frac)) => moment_text(secs, frac, NAIVE_FORMAT@),
        None => started,
    }
}

/// Writes a start that was read as a moment, or the text as it stands.
pub fn write_stamp(started: &str, read: Option<Moment>) -> (r: String)
    requires
        read matches Some(m) ==> m.valid(),
    ensures
        r@ == stamp_of(started@, pair(read)),
{
    match read {
        Some(m) => write_utc(m, NAIVE_FORMAT),
        None => started.to_owned(),
    }
}

/// Whether `r` is the worklog to be added for these minutes, this start as Jira
/// takes it, and this comment. An empty comment is none.
pub open spec fn is_worklog_for(
    r: WorklogRequest,
    minutes: int,
    started: Seq<char>,
    comment: Seq<char>,
) -> bool {
    &&& r.time_spent@ == duration_text(minutes)
    &&& r.started@ == started
    &&& opt_text(r.comment) == (if comment.len() == 0 {
        None::<Seq<char>>
    } else {
        Some(comment)
    })
}

/// The worklog to be added with a start in UTC, without an offset.
pub fn worklog_at(time_spent_minutes: i64, stamp: &str, comment: &str) -> (r: WorklogRequest)
    ensures
        is_worklog_for(r, time_spent_minutes as int, stamp@ + "+0000"@, comment@),
{
    WorklogRequest {
        time_spent: fmt_duration(time_spent_minutes),
        started: join2(stamp, "+0000"),
        comment: if comment.is_empty() {
            None
        } else {
            Some(comment.to_owned())
        },
    }
}

/// The worklog to be added for a time entry.
pub fn add_worklog(time_spent_minutes: i64, started: &str, comment: &str) -> (r: WorklogRequest)
    ensures
        is_worklog_for(r, time_spent_minutes as int, started_text(started@), comment@),
{
    let stamp = write_stamp(started, read_start(started));
    worklog_at(time_spent_minutes, stamp.as_str(), comment)
}

/// What testing the connection came to.
pub fn test_connection(reply: Reply<()>) -> (r: Result<(), String>)
    ensures
        err_text(r) == (match reply {
            Reply::Unreachable(e) => Err::<(), Seq<char>>("Jira connection failed: "@ + e@),
            Reply::Refused { status, .. } => Err::<(), Seq<char>>(
                "Jira auth failed ("@ + status@ + ")"@,
            ),
            _ => Ok::<(), Seq<char>>(()),
        }),
{
    match reply {
        Reply::Unreachable(e) => Err(join2("Jira connection failed: ", e.as_str())),
        Reply::Refused { status, .. } => Err(join3("Jira auth failed (", status.as_str(), ")")),
        _ => Ok(()),
    }
}

/// The milliseconds of a moment, where there is one.
pub open spec fn opt_millis(m: Option<(i64, u32)>) -> Option<int> {
    match m {
        Some(x) => Some(pair_millis(x)),
        None => None,
    }
}

/// The start of a time entry in milliseconds, where it can be read.
pub open spec fn entry_start_ms(started_at: Seq<char>) -> Option<int> {
    opt_millis(started_moment(started_at))
}

/// The start of a worklog in milliseconds, where it can be read.
pub open spec fn worklog_start_ms(started: Seq<char>) -> Option<int> {
    opt_millis(offset_moment(started, OFFSET_FORMAT@))
}

/// Whether the start of a time entry can be read.
pub open spec fn is_readable(started_at: Seq<char>) -> bool {
    started_moment(started_at) is Some
}

/// Whether a worklog with this start and these seconds matches a time entry
/// with this start and these minutes: it started less than two minutes apart
/// and lasted less than one minute more or less. A start that could not be read
/// matches nothing.
pub open spec fn is_match(
    worklog_start: Option<int>,
    seconds: int,
    entry_start: Option<int>,
    duration_min: int,
) -> bool {
    match (worklog_start, entry_start) {
        (Some(theirs), Some(ours)) => {
            &&& -120_000 < theirs - ours < 120_000
            &&& -60 < seconds - duration_min * 60 < 60
        },
        _ => false,
    }
}

/// Whether a worklog that started at `started` and took `seconds` is that of a
/// time entry.
pub open spec fn is_time_of(
    started: Seq<char>,
    seconds: int,
    started_at: Seq<char>,
    duration_min: int,
) -> bool {
    is_match(worklog_start_ms(started), seconds, entry_start_ms(started_at), duration_min)
}

/// Whether a worklog is that of a time entry.
pub open spec fn is_worklog_of(wl: Worklog, started_at: Seq<char>, duration_min: int) -> bool {
    is_time_of(wl.started@, wl.time_spent_seconds as int, started_at, duration_min)
}

/// Whether a worklog holds what [`add_worklog`] sends for a time entry.
pub open spec fn is_as_added(wl: Worklog, started_at: Seq<char>, duration_min: int) -> bool {
    &&& wl.started@ == started_text(started_at)
    &&& wl.time_spent_seconds == duration_min * 60
}

/// A number as it is counted, where there is one.
pub open spec fn opt_int(n: Option<i64>) -> Option<int> {
    match n {
        Some(x) => Some(x as int),
        None => None,
    }
}

/// Whether a worklog matches a time entry, given the milliseconds that their
/// starts were read as.
pub fn matches_entry(
    worklog_start: Option<i64>,
    seconds: i64,
    entry_start: Option<i64>,
    duration_min: i64,
) -> (r: bool)
    ensures
        r == is_match(
            opt_int(worklog_start),
            seconds as int,
            opt_int(entry_start),
            duration_min as int,
        ),
{
    match (worklog_start, entry_start) {
        (Some(theirs), Some(ours)) => {
            let apart: i128 = theirs as i128 - ours as i128;
            let longer: i128 = seconds as i128 - duration_min as i128 * 60;
            -120_000 < apart && apart < 120_000 && -60 < longer && longer < 60
        },
        _ => false,
    }
}

fn opt_millis_of(m: Option<Moment>) -> (r: Option<i64>)
    requires
        m matches Some(x) ==> x.valid(),
    ensures
        opt_int(r) == opt_millis(pair(m)),
{
    match m {
        Some(x) => Some(millis_of(x)),
        None => None,
    }
}

/// A worklog is taken for an entry exactly where both starts can be read, it
/// started less than two minutes before or after the entry on the time line,
/// whatever the day, and it lasted less than a minute more or less. Starts are
/// counted in milliseconds since the Unix epoch, `(seconds, nanoseconds)` as they
/// are read.
pub proof fn law_worklog_is_near_its_entry(wl: Worklog, started_at: Seq<char>, duration_min: int)
    ensures
        is_worklog_of(wl, started_at, duration_min) == (offset_moment(
            wl.started@,
            OFFSET_FORMAT@,
        ) matches Some(theirs) && started_moment(started_at) matches Some(ours) && {
            let apart = theirs.0 * 1000 + theirs.1 as int / 1_000_000 - ours.0 * 1000 - ours.1
                as int / 1_000_000;
            &&& -120_000 < apart < 120_000
            &&& -60 < wl.time_spent_seconds - 60 * duration_min < 60
        }),
{
}

/// In plain numbers: a worklog that started two minutes or more away, on
/// whatever day, or lasted a minute or more longer or shorter, is never taken
/// for an entry, and one that is nearer in both is. Without both starts there is
/// no match.
pub proof fn law_match_is_near_in_time_and_length(
    theirs: int,
    seconds: int,
    ours: int,
    duration_min: int,
)
    ensures
        theirs - ours >= 120_000 || ours - theirs >= 120_000 ==> !is_match(
            Some(theirs),
            seconds,
            Some(ours),
            duration_min,
        ),
        seconds - 60 * duration_min >= 60 || 60 * duration_min - seconds >= 60 ==> !is_match(
            Some(theirs),
            seconds,
            Some(ours),
            duration_min,
        ),
        theirs - ours < 120_000 && ours - theirs < 120_000 && seconds - 60 * duration_min < 60 && 60
            * duration_min - seconds < 60 ==> is_match(
            Some(theirs),
            seconds,
            Some(ours),
            duration_min,
        ),
        !is_match(None, seconds, Some(ours), duration_min),
        !is_match(Some(theirs), seconds, None, duration_min),
        !is_match(None, seconds, None, duration_min),
{
}

/// Whether a time entry is among the worklogs of an issue. A worklog that was
/// added for it is recognised again, provided the start of the entry can be
/// read.
pub fn is_already_synced(worklogs: &[Worklog], early_started_at: &str, duration_min: i64) -> (r:
    bool)
    ensures
        r == exists|i: int|
            0 <= i < worklogs@.len() && is_worklog_of(
                #[trigger] worklogs@[i],
                early_started_at@,
                duration_min as int,
            ),
        is_readable(early_started_at@) && (exists|i: int|
            0 <= i < worklogs@.len() && is_as_added(
                #[trigger] worklogs@[i],
                early_started_at@,
                duration_min as int,
            )) ==> r,
{
    let read = read_start(early_started_at);
    let early_start: Option<i64> = opt_millis_of(read);
    let mut i: usize = 0;
    while i < worklogs.len()
        invariant
            i <= worklogs@.len(),
            pair(read) == started_moment(early_started_at@),
            read matches Some(m) ==> m.on_clock(),
            opt_int(early_start) == entry_start_ms(early_started_at@),
            forall|j: int|
                0 <= j < i ==> !is_worklog_of(
                    #[trigger] worklogs@[j],
                    early_started_at@,
                    duration_min as int,
                ),
            is_readable(early_started_at@) ==> forall|j: int|
                0 <= j < i ==> !is_as_added(
                    #[trigger] worklogs@[j],
                    early_started_at@,
                    duration_min as int,
                ),
        decreases worklogs.len() - i,
    {
        let wl = &worklogs[i];
        let jira_start: Option<i64> = opt_millis_of(
            parse_offset(wl.started.as_str(), OFFSET_FORMAT),
        );
        proof {
            if let Some(m) = read {
                if is_as_added(*wl, early_started_at@, duration_min as int) {
                    assert(wl.started@ == moment_text(m.secs, m.frac, NAIVE_FORMAT@) + "+0000"@);
                    assert(opt_int(jira_start) == entry_start_ms(early_started_at@));
                }
            }
        }
        if matches_entry(jira_start, wl.time_spent_seconds, early_start, duration_min) {
            return true;
        }
        i = i + 1;
    }
    false
}

/// What is posted for a start that can be read is the timestamp of that moment,
/// in UTC; else the text as it stands. The time is written in hours and minutes,
/// and a comment is sent exactly where there is one.
pub proof fn law_posted_worklog_is_of_its_entry(
    r: WorklogRequest,
    minutes: int,
    started: Seq<char>,
    comment: Seq<char>,
)
    requires
        is_worklog_for(r, minutes, started_text(started), comment),
    ensures
        match started_moment(started) {
            Some(m) => r.started@ == moment_text(m.0, m.1, "%Y-%m-%dT%H:%M:%S%.3f"@) + "+0000"@,
            None => r.started@ == started + "+0000"@,
        },
        r.time_spent@ == duration_text(minutes),
        comment.len() == 0 ==> r.comment is None,
        comment.len() > 0 ==> (r.comment matches Some(c) && c@ == comment),
{
}

/// A cloud id comes of a success alone, as the reply has it.
pub proof fn law_cloud_id_is_of_the_reply(base_url: Seq<char>, reply: Reply<String>)
    ensures
        cloud_id_result(base_url, reply) is Ok == (reply is Delivered),
        reply matches Reply::Delivered(id) ==> cloud_id_result(base_url, reply) == Ok::<
            Seq<char>,
            Seq<char>,
        >(id@),
{
}

}
