//! Logging time entries, each once for each of its issue keys.

use vstd::prelude::*;

use crate::clock::{is_offset, Moment};
use crate::config::AppConfig;
use crate::entries::{
    current_target, dedup_marker_for, keys_of, keys_to_log, marker_of, Target, TimeEntry,
};
use crate::jira;
use crate::jira::{is_worklog_for, is_worklog_of, started_text, Worklog, WorklogRequest};
use crate::minutes::{duration_text, fmt_duration, law_share_is_fair, minutes_per_key, share_of};
use crate::preview::{already_logged, entry_synced, found_for, is_logged, key_logged, Logged};
use crate::string_map::StringMap;
use crate::text::{has_piece, join3, opt_text, texts};
use crate::youtrack;
use crate::youtrack::{
    is_item_for, is_local_day, is_start_day, item_text, item_texts, law_added_item_is_recognised, marker_text, WorkItem,
    WorkItemRequest,
};

verus! {

/// One time entry to be logged for one issue.
pub struct SyncTask {
    pub entry_id: String,
    pub activity: String,
    pub issue_key: String,
    pub minutes: i64,
    pub started_at: String,
    pub comment: String,
    pub marker: String,
    pub type_id: Option<String>,
}

/// What a [`SyncTask`] holds.
pub struct Task {
    pub entry_id: Seq<char>,
    pub activity: Seq<char>,
    pub issue_key: Seq<char>,
    pub minutes: int,
    pub started_at: Seq<char>,
    pub comment: Seq<char>,
    pub marker: Seq<char>,
    pub type_id: Option<Seq<char>>,
}

impl View for SyncTask {
    type V = Task;

    open spec fn view(&self) -> Task {
        Task {
            entry_id: self.entry_id@,
            activity: self.activity@,
            issue_key: self.issue_key@,
            minutes: self.minutes as int,
            started_at: self.started_at@,
            comment: self.comment@,
            marker: self.marker@,
            type_id: opt_text(self.type_id),
        }
    }
}

/// What the tasks of a list hold.
pub open spec fn tasks_of(list: Seq<SyncTask>) -> Seq<Task> {
    Seq::new(list.len(), |i: int| list[i]@)
}

/// What is said of a time entry where it is logged: its activity, and its note
/// where there is one.
pub open spec fn comment_of(e: TimeEntry) -> Seq<char> {
    if e.note@.len() == 0 {
        e.activity@
    } else {
        e.activity@ + " - "@ + e.note@
    }
}

/// The type of work items that an activity is mapped to, where there is one.
pub open spec fn type_for(activity_id: Option<String>, types: Map<Seq<char>, Seq<char>>) -> Option<
    Seq<char>,
> {
    match activity_id {
        Some(id) => if types.contains_key(id@) && types[id@].len() > 0 {
            Some(types[id@])
        } else {
            None
        },
        None => None,
    }
}

/// The task of a time entry for the `i`-th issue key that it is logged for. Its
/// time is shared between its keys.
pub open spec fn task_for(
    e: TimeEntry,
    i: int,
    provider: Seq<char>,
    types: Map<Seq<char>, Seq<char>>,
    fallback: Seq<char>,
) -> Task {
    Task {
        entry_id: e.id@,
        activity: e.activity@,
        issue_key: keys_of(e, fallback)[i],
        minutes: share_of(e.duration_min as int, keys_of(e, fallback).len() as int),
        started_at: e.started_at@,
        comment: comment_of(e),
        marker: marker_of(provider, e.id@),
        type_id: type_for(e.activity_id, types),
    }
}

/// The tasks of a time entry: one for each issue key that it is logged for,
/// none where it is shorter than a minute.
pub open spec fn entry_tasks(
    e: TimeEntry,
    provider: Seq<char>,
    types: Map<Seq<char>, Seq<char>>,
    fallback: Seq<char>,
) -> Seq<Task> {
    if e.duration_min < 1 {
        seq![]
    } else {
        Seq::new(keys_of(e, fallback).len(), |i: int| task_for(e, i, provider, types, fallback))
    }
}

/// The tasks of all time entries, in order.
pub open spec fn planned(
    entries: Seq<TimeEntry>,
    provider: Seq<char>,
    types: Map<Seq<char>, Seq<char>>,
    fallback: Seq<char>,
) -> Seq<Task>
    decreases entries.len(),
{
    if entries.len() == 0 {
        seq![]
    } else {
        planned(entries.drop_last(), provider, types, fallback) + entry_tasks(
            entries.last(),
            provider,
            types,
            fallback,
        )
    }
}

fn write_comment(e: &TimeEntry) -> (r: String)
    ensures
        r@ == comment_of(*e),
{
    if e.note.as_str().is_empty() {
        e.activity.clone()
    } else {
        join3(e.activity.as_str(), " - ", e.note.as_str())
    }
}

fn pick_type(activity_id: &Option<String>, types: &StringMap) -> (r: Option<String>)
    ensures
        opt_text(r) == type_for(*activity_id, types@),
{
    match activity_id {
        Some(id) => match types.get(id.as_str()) {
            Some(type_id) => if type_id.as_str().is_empty() {
                None
            } else {
                Some(type_id)
            },
            None => None,
        },
        None => None,
    }
}

fn add_tasks(
    tasks: &mut Vec<SyncTask>,
    e: &TimeEntry,
    provider: &str,
    types: &StringMap,
    fallback: &str,
)
    ensures
        tasks_of(final(tasks)@) == tasks_of(old(tasks)@) + entry_tasks(
            *e,
            provider@,
            types@,
            fallback@,
        ),
{
    let ghost before = tasks_of(tasks@);
    let ghost more = entry_tasks(*e, provider@, types@, fallback@);
    let keys = keys_to_log(e, fallback);
    assert(keys@.len() == keys_of(*e, fallback@).len());
    if keys.len() == 0 || e.duration_min < 1 {
        assert(before + more =~= before);
        return;
    }
    let minutes: i64 = minutes_per_key(e.duration_min, keys.len());
    let mut i: usize = 0;
    while i < keys.len()
        invariant
            i <= keys@.len(),
            texts(keys@) == keys_of(*e, fallback@),
            more == entry_tasks(*e, provider@, types@, fallback@),
            e.duration_min >= 1,
            minutes == share_of(e.duration_min as int, keys@.len() as int),
            tasks_of(tasks@) == before + more.take(i as int),
        decreases keys.len() - i,
    {
        let task = SyncTask {
            entry_id: e.id.clone(),
            activity: e.activity.clone(),
            issue_key: keys[i].clone(),
            minutes,
            started_at: e.started_at.clone(),
            comment: write_comment(e),
            marker: dedup_marker_for(provider, e.id.as_str()),
            type_id: pick_type(&e.activity_id, types),
        };
        let ghost listed = tasks@;
        assert(texts(keys@)[i as int] == keys@[i as int]@);
        assert(task@ == more[i as int]);
        tasks.push(task);
        assert(tasks_of(tasks@) =~= tasks_of(listed).push(more[i as int]));
        assert(before + more.take(i + 1) =~= (before + more.take(i as int)).push(more[i as int]));
        i = i + 1;
    }
    assert(more.take(i as int) =~= more);
}

/// The tasks of all time entries, in order. `fallback` is the issue key for
/// entries that hold none.
pub fn plan(entries: &Vec<TimeEntry>, provider: &str, types: &StringMap, fallback: &str) -> (r: Vec<
    SyncTask,
>)
    ensures
        tasks_of(r@) == planned(entries@, provider@, types@, fallback@),
{
    let mut tasks: Vec<SyncTask> = Vec::new();
    let mut i: usize = 0;
    assert(tasks_of(tasks@) =~= seq![]);
    while i < entries.len()
        invariant
            i <= entries@.len(),
            tasks_of(tasks@) == planned(entries@.take(i as int), provider@, types@, fallback@),
        decreases entries.len() - i,
    {
        assert(entries@.take(i + 1).drop_last() =~= entries@.take(i as int));
        add_tasks(&mut tasks, &entries[i], provider, types, fallback);
        i = i + 1;
    }
    assert(entries@.take(i as int) =~= entries@);
    tasks
}

/// What became of a task.
#[derive(Debug, Clone)]
pub struct SyncResultItem {
    pub entry_id: String,
    pub activity: String,
    pub issue_key: String,
    pub duration: String,
    pub success: bool,
    pub skipped: bool,
    pub error: Option<String>,
}

/// What became of all tasks, and how many were logged, skipped and failed.
#[derive(Debug, Clone)]
pub struct SyncResponse {
    pub synced: usize,
    pub skipped: usize,
    pub failed: usize,
    pub results: Vec<SyncResultItem>,
}

/// How a task can end.
pub enum Outcome {
    /// The entry was logged before.
    Skipped,
    /// It is logged now.
    Added,
    /// It could not be logged, for this reason.
    Failed(Seq<char>),
}

/// Whether `r` is a result of the task `t`. It has a reason exactly where the
/// task failed, and a duration exactly where it was logged now.
pub open spec fn is_result_of(r: SyncResultItem, t: Task) -> bool {
    &&& r.entry_id@ == t.entry_id
    &&& r.activity@ == t.activity
    &&& r.issue_key@ == t.issue_key
    &&& r.skipped ==> r.success
    &&& r.error is Some <==> !r.success
    &&& r.duration@ == (if was_added(r) {
        duration_text(t.minutes)
    } else {
        Seq::empty()
    })
}

/// Whether `r` tells that the task `t` ended with `outcome`.
pub open spec fn tells(r: SyncResultItem, t: Task, outcome: Outcome) -> bool {
    &&& r.entry_id@ == t.entry_id
    &&& r.activity@ == t.activity
    &&& r.issue_key@ == t.issue_key
    &&& r.duration@ == (match outcome {
        Outcome::Added => duration_text(t.minutes),
        _ => Seq::empty(),
    })
    &&& r.success == !(outcome is Failed)
    &&& r.skipped == (outcome is Skipped)
    &&& opt_text(r.error) == (match outcome {
        Outcome::Failed(e) => Some(e),
        _ => None,
    })
}

/// A worklog or a work item to be added.
pub enum Addition {
    Worklog(WorklogRequest),
    WorkItem(WorkItemRequest),
}

/// Whether `a` is what is to be added to the target for the task `t`.
pub open spec fn is_addition(a: Addition, t: Task, target: Target) -> bool {
    match a {
        Addition::Worklog(w) => {
            &&& target == Target::Jira
            &&& is_worklog_for(w, t.minutes, started_text(t.started_at), t.comment)
        },
        Addition::WorkItem(w) => {
            &&& target == Target::YouTrack
            &&& is_item_for(w, t.minutes, t.comment, t.marker, t.type_id)
            &&& exists|now: Moment, offset: i32|
                now.valid() && is_offset(offset) && #[trigger] is_start_day(
                    w.date as int,
                    t.started_at,
                    now,
                    offset,
                )
            &&& is_local_day(w.date as int, t.started_at)
        },
    }
}

/// Whether a worklog that was added for the task `t` is among what is logged.
pub open spec fn holds_worklog_for(logged: Logged, t: Task) -> bool {
    logged matches Logged::Worklogs(list) && exists|i: int|
        0 <= i < list@.len() && jira::is_as_added(#[trigger] list@[i], t.started_at, t.minutes)
}

/// A sync under way: its tasks, and what became of those that are over.
pub struct SyncRun {
    target: Target,
    tasks: Vec<SyncTask>,
    results: Vec<SyncResultItem>,
}

/// What is to be done next in a sync.
pub enum SyncStep {
    /// Look up what is logged for this issue.
    LookUp { issue_key: String },
    /// All tasks are over.
    Finish,
}

impl SyncRun {
    /// Where the time entries are logged.
    pub closed spec fn target(self) -> Target {
        self.target
    }

    /// The tasks of the sync.
    pub closed spec fn tasks(self) -> Seq<Task> {
        tasks_of(self.tasks@)
    }

    /// What became of the tasks that are over, in order.
    pub closed spec fn results(self) -> Seq<SyncResultItem> {
        self.results@
    }

    #[verifier::type_invariant]
    spec fn in_order(self) -> bool {
        &&& self.results@.len() <= self.tasks@.len()
        &&& forall|i: int|
            0 <= i < self.results@.len() ==> is_result_of(
                #[trigger] self.results@[i],
                self.tasks@[i]@,
            )
    }

    /// The task that is under way.
    pub open spec fn current(self) -> Option<Task> {
        if self.results().len() < self.tasks().len() {
            Some(self.tasks()[self.results().len() as int])
        } else {
            None
        }
    }

    /// Whether `next` is `self` after one more task, which ended with
    /// `outcome`.
    pub open spec fn advances_to(self, next: SyncRun, outcome: Outcome) -> bool {
        &&& next.target() == self.target()
        &&& next.tasks() == self.tasks()
        &&& next.results().len() == self.results().len() + 1
        &&& next.results().drop_last() == self.results()
        &&& self.current() is Some
        &&& tells(next.results().last(), self.current()->0, outcome)
    }

    /// Whether, on what is logged for the issue of the task under way, the sync
    /// goes on as `next` and `r` is to be added. Where the entry is logged, the
    /// task is over, and a worklog that was added for it counts as such,
    /// provided its start can be read.
    pub open spec fn takes(self, logged: Logged, next: SyncRun, r: Option<Addition>) -> bool {
        &&& match self.current() {
            None => r is None && next == self,
            Some(t) => if is_logged(logged, t.started_at, t.minutes, t.marker) {
                r is None && self.advances_to(next, Outcome::Skipped)
            } else {
                next == self && (r matches Some(a) && is_addition(a, t, self.target()))
            },
        }
        &&& (self.current() matches Some(t) && jira::is_readable(t.started_at)
            && holds_worklog_for(logged, t)) ==> r is None
    }

    /// Begins the sync of time entries, with the target, the provider and the
    /// fallback issue key of the settings.
    pub fn sync(entries: &Vec<TimeEntry>, cfg: &AppConfig) -> (r: SyncRun)
        ensures
            r.target() == (if cfg.target@ == "youtrack"@ {
                Target::YouTrack
            } else {
                Target::Jira
            }),
            r.tasks() == planned(
                entries@,
                cfg.provider@,
                cfg.activity_type_map@,
                cfg.default_issue_key@,
            ),
            r.results().len() == 0,
    {
        let tasks = plan(
            entries,
            cfg.provider.as_str(),
            &cfg.activity_type_map,
            cfg.default_issue_key.as_str(),
        );
        SyncRun { target: current_target(cfg), tasks, results: Vec::new() }
    }

    /// What is to be done next.
    pub fn next_step(&self) -> (r: SyncStep)
        ensures
            match r {
                SyncStep::LookUp { issue_key } => self.current() matches Some(t) && issue_key@
                    == t.issue_key,
                SyncStep::Finish => self.current() is None,
            },
    {
        if self.results.len() < self.tasks.len() {
            SyncStep::LookUp { issue_key: self.tasks[self.results.len()].issue_key.clone() }
        } else {
            SyncStep::Finish
        }
    }

    fn push_result(&mut self, result: SyncResultItem, outcome: Ghost<Outcome>)
        requires
            old(self).current() matches Some(t) && tells(result, t, outcome@),
        ensures
            old(self).advances_to(*final(self), outcome@),
    {
        proof {
            use_type_invariant(&*self);
        }
        let mut results: Vec<SyncResultItem> = Vec::new();
        std::mem::swap(&mut results, &mut self.results);
        let ghost before = results@;
        results.push(result);
        assert(results@.drop_last() =~= before);
        self.results = results;
    }

    /// Takes what is logged for the issue of the task under way. Where the
    /// entry is among it, the task is over: nothing is added twice. Else it
    /// returns what is to be added.
    pub fn looked_up(&mut self, logged: &Logged) -> (r: Option<Addition>)
        ensures
            old(self).takes(*logged, *final(self), r),
    {
        if self.results.len() >= self.tasks.len() {
            return None;
        }
        let task = &self.tasks[self.results.len()];
        if already_logged(logged, task.started_at.as_str(), task.minutes, task.marker.as_str()) {
            let result = SyncResultItem {
                entry_id: task.entry_id.clone(),
                activity: task.activity.clone(),
                issue_key: task.issue_key.clone(),
                duration: String::new(),
                success: true,
                skipped: true,
                error: None,
            };
            self.push_result(result, Ghost(Outcome::Skipped));
            return None;
        }
        match self.target {
            Target::Jira => Some(
                Addition::Worklog(
                    jira::add_worklog(
                        task.minutes,
                        task.started_at.as_str(),
                        task.comment.as_str(),
                    ),
                ),
            ),
            Target::YouTrack => Some(
                Addition::WorkItem(
                    youtrack::add_work_item(
                        task.minutes,
                        task.started_at.as_str(),
                        task.comment.as_str(),
                        task.marker.as_str(),
                        &task.type_id,
                    ),
                ),
            ),
        }
    }

    /// Takes what adding for the task under way came to.
    pub fn added(&mut self, result: Result<String, String>)
        ensures
            match old(self).current() {
                None => *final(self) == *old(self),
                Some(t) => old(self).advances_to(
                    *final(self),
                    match result {
                        Ok(_) => Outcome::Added,
                        Err(e) => Outcome::Failed(e@),
                    },
                ),
            },
    {
        if self.results.len() >= self.tasks.len() {
            return;
        }
        let task = &self.tasks[self.results.len()];
        match result {
            Ok(_) => {
                let item = SyncResultItem {
                    entry_id: task.entry_id.clone(),
                    activity: task.activity.clone(),
                    issue_key: task.issue_key.clone(),
                    duration: fmt_duration(task.minutes),
                    success: true,
                    skipped: false,
                    error: None,
                };
                self.push_result(item, Ghost(Outcome::Added));
            },
            Err(e) => {
                let ghost reason = e@;
                let item = SyncResultItem {
                    entry_id: task.entry_id.clone(),
                    activity: task.activity.clone(),
                    issue_key: task.issue_key.clone(),
                    duration: String::new(),
                    success: false,
                    skipped: false,
                    error: Some(e),
                };
                self.push_result(item, Ghost(Outcome::Failed(reason)));
            },
        }
    }

    /// What became of the tasks that are over: one result for each, in order,
    /// and each is counted once.
    pub fn finish(self) -> (r: SyncResponse)
        ensures
            r.results@ == self.results(),
            is_count(r),
            r.results@.len() <= self.tasks().len(),
            self.current() is None ==> r.results@.len() == self.tasks().len(),
            forall|i: int|
                0 <= i < r.results@.len() ==> is_result_of(
                    #[trigger] r.results@[i],
                    self.tasks()[i],
                ),
            r.synced + r.skipped + r.failed == r.results@.len(),
    {
        proof {
            use_type_invariant(&self);
            law_results_are_counted_once(self.results@);
        }
        summarize(self.results)
    }
}

/// Whether a task was logged.
pub open spec fn was_added(r: SyncResultItem) -> bool {
    r.success && !r.skipped
}

/// Whether the numbers of a response are those of its results.
pub open spec fn is_count(r: SyncResponse) -> bool {
    &&& r.synced == r.results@.filter(|x: SyncResultItem| was_added(x)).len()
    &&& r.skipped == r.results@.filter(|x: SyncResultItem| x.skipped).len()
    &&& r.failed == r.results@.filter(|x: SyncResultItem| !x.success).len()
}

/// Counts what became of tasks.
pub fn summarize(results: Vec<SyncResultItem>) -> (r: SyncResponse)
    ensures
        r.results@ == results@,
        is_count(r),
{
    let ghost is_added = |x: SyncResultItem| was_added(x);
    let ghost is_skipped = |x: SyncResultItem| x.skipped;
    let ghost is_failed = |x: SyncResultItem| !x.success;
    let mut synced: usize = 0;
    let mut skipped: usize = 0;
    let mut failed: usize = 0;
    let mut i: usize = 0;
    proof {
        reveal(Seq::filter);
        let none = results@.take(0);
        assert(none.filter(is_added).len() == 0);
        assert(none.filter(is_skipped).len() == 0);
        assert(none.filter(is_failed).len() == 0);
    }
    while i < results.len()
        invariant
            i <= results@.len(),
            is_added == (|x: SyncResultItem| was_added(x)),
            is_skipped == (|x: SyncResultItem| x.skipped),
            is_failed == (|x: SyncResultItem| !x.success),
            synced <= i,
            skipped <= i,
            failed <= i,
            synced == results@.take(i as int).filter(is_added).len(),
            skipped == results@.take(i as int).filter(is_skipped).len(),
            failed == results@.take(i as int).filter(is_failed).len(),
        decreases results.len() - i,
    {
        proof {
            reveal(Seq::filter);
            assert(results@.take(i + 1).drop_last() =~= results@.take(i as int));
        }
        if results[i].success && !results[i].skipped {
            synced = synced + 1;
        }
        if results[i].skipped {
            skipped = skipped + 1;
        }
        if !results[i].success {
            failed = failed + 1;
        }
        i = i + 1;
    }
    assert(results@.take(i as int) =~= results@);
    SyncResponse { synced, skipped, failed, results }
}

/// Of results of tasks, each is counted once: as logged, skipped or failed.
pub proof fn law_results_are_counted_once(results: Seq<SyncResultItem>)
    requires
        forall|i: int|
            0 <= i < results.len() && (#[trigger] results[i]).skipped ==> results[i].success,
    ensures
        results.filter(|x: SyncResultItem| was_added(x)).len() + results.filter(
            |x: SyncResultItem| x.skipped,
        ).len() + results.filter(|x: SyncResultItem| !x.success).len() == results.len(),
    decreases results.len(),
{
    reveal(Seq::filter);
    if results.len() > 0 {
        let less = results.drop_last();
        assert forall|i: int| 0 <= i < less.len() && (#[trigger] less[i]).skipped implies less[i].success by {
            assert(less[i] == results[i]);
        }
        law_results_are_counted_once(less);
        assert(results.last() == results[results.len() - 1]);
    }
}

/// Every task has at least one minute.
pub proof fn law_every_task_has_time(
    entries: Seq<TimeEntry>,
    provider: Seq<char>,
    types: Map<Seq<char>, Seq<char>>,
    fallback: Seq<char>,
    i: int,
)
    requires
        0 <= i < planned(entries, provider, types, fallback).len(),
    ensures
        planned(entries, provider, types, fallback)[i].minutes >= 1,
    decreases entries.len(),
{
    if entries.len() > 0 {
        let less = planned(entries.drop_last(), provider, types, fallback);
        if i < less.len() {
            law_every_task_has_time(entries.drop_last(), provider, types, fallback, i);
        }
    }
}

/// An entry of a minute or more without an issue key is logged whole for the
/// fallback key, and only where that is empty it is skipped.
pub proof fn law_entry_without_a_key_falls_back(
    e: TimeEntry,
    provider: Seq<char>,
    types: Map<Seq<char>, Seq<char>>,
    fallback: Seq<char>,
)
    requires
        e.jira_keys@.len() == 0,
        e.duration_min >= 1,
    ensures
        fallback.len() == 0 ==> entry_tasks(e, provider, types, fallback).len() == 0,
        fallback.len() > 0 ==> {
            let tasks = entry_tasks(e, provider, types, fallback);
            tasks.len() == 1 && tasks[0].issue_key == fallback && tasks[0].minutes == e.duration_min
        },
{
    law_share_is_fair(e.duration_min as int, 1);
}

/// Whether a task is logged already, by what was found for its issue key.
pub open spec fn is_task_logged(t: Task, found: Seq<(String, Logged)>) -> bool {
    match found_for(found, t.issue_key) {
        Some(logged) => is_logged(logged, t.started_at, t.minutes, t.marker),
        None => false,
    }
}

/// An entry of a minute or more is shown as synced exactly where it has tasks
/// and a sync that finds the same adds nothing for any of them.
pub proof fn law_shown_as_synced_means_nothing_to_add(
    e: TimeEntry,
    provider: Seq<char>,
    types: Map<Seq<char>, Seq<char>>,
    fallback: Seq<char>,
    found: Seq<(String, Logged)>,
)
    requires
        e.duration_min >= 1,
    ensures
        entry_synced(e, provider, fallback, found) == (entry_tasks(
            e,
            provider,
            types,
            fallback,
        ).len() > 0 && forall|i: int|
            0 <= i < entry_tasks(e, provider, types, fallback).len() ==> is_task_logged(
                #[trigger] entry_tasks(e, provider, types, fallback)[i],
                found,
            )),
{
    let tasks = entry_tasks(e, provider, types, fallback);
    let keys = keys_of(e, fallback);
    assert forall|i: int| 0 <= i < tasks.len() implies is_task_logged(#[trigger] tasks[i], found)
        == key_logged(e, keys[i], provider, fallback, found) by {}
    if entry_synced(e, provider, fallback, found) {
        assert forall|i: int| 0 <= i < tasks.len() implies is_task_logged(
            #[trigger] tasks[i],
            found,
        ) by {
            assert(key_logged(e, keys[i], provider, fallback, found));
        }
    } else if tasks.len() > 0 && forall|i: int|
        0 <= i < tasks.len() ==> is_task_logged(#[trigger] tasks[i], found) {
        assert forall|i: int| 0 <= i < keys.len() implies key_logged(
            e,
            #[trigger] keys[i],
            provider,
            fallback,
            found,
        ) by {
            assert(is_task_logged(tasks[i], found));
        }
    }
}

/// Whether all that was logged `before` is still logged `after`.
pub open spec fn is_kept(before: Logged, after: Logged) -> bool {
    match (before, after) {
        (Logged::Worklogs(b), Logged::Worklogs(a)) => forall|i: int|
            0 <= i < b@.len() ==> has_time(
                a@,
                (#[trigger] b@[i]).started@,
                b@[i].time_spent_seconds as int,
            ),
        (Logged::WorkItems(b), Logged::WorkItems(a)) => forall|i: int|
            0 <= i < b@.len() ==> has_text(a@, (#[trigger] b@[i]).text@),
        _ => false,
    }
}

/// Whether one of the worklogs has this start and these seconds.
pub open spec fn has_time(list: Seq<Worklog>, started: Seq<char>, seconds: int) -> bool {
    exists|i: int|
        0 <= i < list.len() && (#[trigger] list[i]).started@ == started
            && list[i].time_spent_seconds == seconds
}

/// Whether one of the work items has this text.
pub open spec fn has_text(list: Seq<WorkItem>, text: Seq<char>) -> bool {
    exists|i: int| 0 <= i < list.len() && (#[trigger] list[i]).text@ == text
}

/// Whether what was to be added for the task `t` is logged: a worklog with its
/// start and its minutes, or a work item with its text.
pub open spec fn is_there(a: Addition, t: Task, logged: Logged) -> bool {
    match (a, logged) {
        (Addition::Worklog(w), Logged::Worklogs(list)) => has_time(
            list@,
            w.started@,
            t.minutes * 60,
        ),
        (Addition::WorkItem(w), Logged::WorkItems(list)) => has_text(list@, w.text@),
        _ => false,
    }
}

/// Whether a sync came to the task `t`, found `before`, and had `added` to be
/// added for it; and whether a later look finds in `after` what was there and
/// what was added, and can read the start of a worklog.
pub open spec fn is_carried_over(
    run: SyncRun,
    t: Task,
    before: Logged,
    added: Option<Addition>,
    after: Logged,
) -> bool {
    &&& run.current() == Some(t)
    &&& exists|next: SyncRun| #[trigger] run.takes(before, next, added)
    &&& is_kept(before, after)
    &&& added matches Some(a) ==> is_there(a, t, after)
    &&& added matches Some(Addition::Worklog(_)) ==> jira::is_readable(t.started_at)
}

proof fn lemma_kept_is_logged(before: Logged, after: Logged, t: Task)
    requires
        is_kept(before, after),
        is_logged(before, t.started_at, t.minutes, t.marker),
    ensures
        is_logged(after, t.started_at, t.minutes, t.marker),
{
    match (before, after) {
        (Logged::Worklogs(b), Logged::Worklogs(a)) => {
            let i = choose|i: int|
                0 <= i < b@.len() && is_worklog_of(#[trigger] b@[i], t.started_at, t.minutes);
            assert(has_time(a@, b@[i].started@, b@[i].time_spent_seconds as int));
            let j = choose|j: int|
                0 <= j < a@.len() && (#[trigger] a@[j]).started@ == b@[i].started@
                    && a@[j].time_spent_seconds == b@[i].time_spent_seconds;
            assert(is_worklog_of(a@[j], t.started_at, t.minutes));
        },
        (Logged::WorkItems(b), Logged::WorkItems(a)) => {
            let i = choose|i: int|
                0 <= i < item_texts(b@).len() && has_piece(
                    #[trigger] item_texts(b@)[i],
                    marker_text(t.marker),
                );
            assert(has_text(a@, b@[i].text@));
            let j = choose|j: int| 0 <= j < a@.len() && (#[trigger] a@[j]).text@ == b@[i].text@;
            assert(item_texts(a@)[j] == item_texts(b@)[i]);
        },
        _ => {},
    }
}

proof fn lemma_carried_over_is_skipped(
    run: SyncRun,
    t: Task,
    before: Logged,
    added: Option<Addition>,
    after: Logged,
    again: SyncRun,
    next: SyncRun,
    r: Option<Addition>,
)
    requires
        is_carried_over(run, t, before, added, after),
        again.current() == Some(t),
        again.takes(after, next, r),
    ensures
        r is None,
        again.advances_to(next, Outcome::Skipped),
{
    if is_logged(before, t.started_at, t.minutes, t.marker) {
        lemma_kept_is_logged(before, after, t);
    } else {
        match (added->0, after) {
            (Addition::Worklog(w), Logged::Worklogs(list)) => {
                let i = choose|i: int|
                    0 <= i < list@.len() && (#[trigger] list@[i]).started@ == w.started@
                        && list@[i].time_spent_seconds == t.minutes * 60;
                assert(jira::is_as_added(list@[i], t.started_at, t.minutes));
                assert(holds_worklog_for(after, t));
            },
            (Addition::WorkItem(w), Logged::WorkItems(list)) => {
                let i = choose|i: int| 0 <= i < list@.len() && (#[trigger] list@[i]).text@ == w.text@;
                law_added_item_is_recognised(list@, i, t.comment, t.marker);
            },
            _ => {},
        }
    }
}

proof fn lemma_second_sync(
    tasks: Seq<Task>,
    first: Seq<SyncRun>,
    before: Seq<Logged>,
    added: Seq<Option<Addition>>,
    again: Seq<SyncRun>,
    after: Seq<Logged>,
    added_again: Seq<Option<Addition>>,
    k: int,
)
    requires
        0 <= k <= tasks.len(),
        again.len() == tasks.len() + 1,
        again[0].tasks() == tasks,
        again[0].results().len() == 0,
        forall|i: int|
            0 <= i < tasks.len() ==> is_carried_over(
                first[i],
                #[trigger] tasks[i],
                before[i],
                added[i],
                after[i],
            ),
        forall|i: int|
            0 <= i < tasks.len() ==> (#[trigger] again[i]).takes(
                after[i],
                again[i + 1],
                added_again[i],
            ),
    ensures
        again[k].tasks() == tasks,
        again[k].results().len() == k,
        forall|i: int| 0 <= i < k ==> #[trigger] added_again[i] is None,
        forall|i: int|
            0 <= i < k ==> tells(#[trigger] again[k].results()[i], tasks[i], Outcome::Skipped),
    decreases k,
{
    if k > 0 {
        let j = k - 1;
        lemma_second_sync(tasks, first, before, added, again, after, added_again, j);
        assert(again[j].current() == Some(tasks[j]));
        assert(again[j].takes(after[j], again[j + 1], added_again[j]));
        lemma_carried_over_is_skipped(
            first[j],
            tasks[j],
            before[j],
            added[j],
            after[j],
            again[j],
            again[k],
            added_again[j],
        );
        assert forall|i: int| 0 <= i < k implies tells(
            #[trigger] again[k].results()[i],
            tasks[i],
            Outcome::Skipped,
        ) by {
            if i < j {
                assert(again[k].results().drop_last()[i] == again[k].results()[i]);
            }
        }
    }
}

/// A sync can be repeated. Where each look-up of the second sync finds what the
/// first one found for the task and what was added for it, the second sync adds
/// nothing, and its result for every task is that it was skipped.
pub proof fn law_second_sync_skips_everything(
    tasks: Seq<Task>,
    first: Seq<SyncRun>,
    before: Seq<Logged>,
    added: Seq<Option<Addition>>,
    again: Seq<SyncRun>,
    after: Seq<Logged>,
    added_again: Seq<Option<Addition>>,
)
    requires
        again.len() == tasks.len() + 1,
        again[0].tasks() == tasks,
        again[0].results().len() == 0,
        forall|i: int|
            0 <= i < tasks.len() ==> is_carried_over(
                first[i],
                #[trigger] tasks[i],
                before[i],
                added[i],
                after[i],
            ),
        forall|i: int|
            0 <= i < tasks.len() ==> (#[trigger] again[i]).takes(
                after[i],
                again[i + 1],
                added_again[i],
            ),
    ensures
        forall|i: int| 0 <= i < tasks.len() ==> #[trigger] added_again[i] is None,
        again.last().results().len() == tasks.len(),
        forall|i: int|
            0 <= i < tasks.len() ==> tells(
                #[trigger] again.last().results()[i],
                tasks[i],
                Outcome::Skipped,
            ),
{
    lemma_second_sync(
        tasks,
        first,
        before,
        added,
        again,
        after,
        added_again,
        tasks.len() as int,
    );
}

/// Whether `t` is the task to log an entry under one of its issue keys: its id,
/// its activity and its start, an equal share of its time, its activity and its
/// note as the comment, its marker, and the type that its activity is mapped to.
pub open spec fn logs_entry(
    t: Task,
    e: TimeEntry,
    key: Seq<char>,
    provider: Seq<char>,
    types: Map<Seq<char>, Seq<char>>,
    fallback: Seq<char>,
) -> bool {
    &&& t.entry_id == e.id@
    &&& t.activity == e.activity@
    &&& t.issue_key == key
    &&& t.started_at == e.started_at@
    &&& t.minutes == share_of(e.duration_min as int, keys_of(e, fallback).len() as int)
    &&& e.note@.len() == 0 ==> t.comment == e.activity@
    &&& e.note@.len() > 0 ==> t.comment == e.activity@ + " - "@ + e.note@
    &&& t.marker == provider + "-"@ + e.id@
    &&& match e.activity_id {
        Some(id) => {
            &&& types.contains_key(id@) && types[id@].len() > 0 ==> t.type_id == Some(types[id@])
            &&& !(types.contains_key(id@) && types[id@].len() > 0) ==> t.type_id is None
        },
        None => t.type_id is None,
    }
}

/// Every entry of a minute or more, at whatever position, is to be logged for
/// every one of its issue keys.
pub proof fn law_every_entry_is_planned(
    entries: Seq<TimeEntry>,
    provider: Seq<char>,
    types: Map<Seq<char>, Seq<char>>,
    fallback: Seq<char>,
    at: int,
    i: int,
)
    requires
        0 <= at < entries.len(),
        entries[at].duration_min >= 1,
        0 <= i < keys_of(entries[at], fallback).len(),
    ensures
        exists|k: int|
            0 <= k < planned(entries, provider, types, fallback).len() && logs_entry(
                #[trigger] planned(entries, provider, types, fallback)[k],
                entries[at],
                keys_of(entries[at], fallback)[i],
                provider,
                types,
                fallback,
            ),
    decreases entries.len(),
{
    let less = entries.drop_last();
    let before = planned(less, provider, types, fallback);
    let all = planned(entries, provider, types, fallback);
    if at < less.len() {
        law_every_entry_is_planned(less, provider, types, fallback, at, i);
        let k = choose|k: int|
            0 <= k < before.len() && logs_entry(
                #[trigger] before[k],
                less[at],
                keys_of(less[at], fallback)[i],
                provider,
                types,
                fallback,
            );
        assert(all[k] == before[k]);
    } else {
        let e = entries.last();
        assert(entry_tasks(e, provider, types, fallback)[i] == all[before.len() + i]);
        assert(logs_entry(
            all[before.len() + i],
            e,
            keys_of(e, fallback)[i],
            provider,
            types,
            fallback,
        ));
    }
}

/// Nothing else is to be logged: every task is of an entry of a minute or more
/// and of one of its issue keys.
pub proof fn law_only_entries_are_planned(
    entries: Seq<TimeEntry>,
    provider: Seq<char>,
    types: Map<Seq<char>, Seq<char>>,
    fallback: Seq<char>,
    k: int,
)
    requires
        0 <= k < planned(entries, provider, types, fallback).len(),
    ensures
        exists|at: int, i: int|
            0 <= at < entries.len() && entries[at].duration_min >= 1 && 0 <= i < keys_of(
                entries[at],
                fallback,
            ).len() && logs_entry(
                planned(entries, provider, types, fallback)[k],
                #[trigger] entries[at],
                #[trigger] keys_of(entries[at], fallback)[i],
                provider,
                types,
                fallback,
            ),
    decreases entries.len(),
{
    if entries.len() > 0 {
        let less = entries.drop_last();
        let before = planned(less, provider, types, fallback);
        if k < before.len() {
            law_only_entries_are_planned(less, provider, types, fallback, k);
            let (at, i) = choose|at: int, i: int|
                0 <= at < less.len() && less[at].duration_min >= 1 && 0 <= i < keys_of(
                    less[at],
                    fallback,
                ).len() && logs_entry(
                    before[k],
                    #[trigger] less[at],
                    #[trigger] keys_of(less[at], fallback)[i],
                    provider,
                    types,
                    fallback,
                );
            assert(entries[at] == less[at]);
            assert(keys_of(entries[at], fallback)[i] == keys_of(less[at], fallback)[i]);
        } else {
            let at = entries.len() - 1;
            let i = k - before.len();
            assert(entries[at] == entries.last());
            assert(entry_tasks(entries.last(), provider, types, fallback)[i] == planned(
                entries,
                provider,
                types,
                fallback,
            )[k]);
            assert(logs_entry(
                planned(entries, provider, types, fallback)[k],
                entries[at],
                keys_of(entries[at], fallback)[i],
                provider,
                types,
                fallback,
            ));
        }
    }
}

/// There are as many tasks as issue keys of entries of a minute or more, so that
/// no entry is to be logged twice for a key.
pub proof fn law_one_task_for_each_key(
    entries: Seq<TimeEntry>,
    e: TimeEntry,
    provider: Seq<char>,
    types: Map<Seq<char>, Seq<char>>,
    fallback: Seq<char>,
)
    ensures
        planned(seq![], provider, types, fallback).len() == 0,
        e.duration_min >= 1 ==> planned(entries.push(e), provider, types, fallback).len() == planned(
            entries,
            provider,
            types,
            fallback,
        ).len() + keys_of(e, fallback).len(),
        e.duration_min < 1 ==> planned(entries.push(e), provider, types, fallback).len() == planned(
            entries,
            provider,
            types,
            fallback,
        ).len(),
{
    assert(entries.push(e).drop_last() =~= entries);
}

/// An entry that is logged for the issue is skipped and nothing is added. One
/// that is not is never skipped: what is to be added is of the task under way
/// and for the target of the sync, and no result is told before it is added.
pub proof fn law_logged_is_skipped_and_else_added(
    run: SyncRun,
    logged: Logged,
    next: SyncRun,
    r: Option<Addition>,
    t: Task,
)
    requires
        run.takes(logged, next, r),
        run.current() == Some(t),
    ensures
        is_logged(logged, t.started_at, t.minutes, t.marker) ==> {
            &&& r is None
            &&& next.results().len() == run.results().len() + 1
            &&& next.results().last().success && next.results().last().skipped
            &&& next.results().last().entry_id@ == t.entry_id
            &&& next.results().last().issue_key@ == t.issue_key
        },
        !is_logged(logged, t.started_at, t.minutes, t.marker) ==> next.results() == run.results()
            && (match r {
            Some(Addition::Worklog(w)) => run.target() == Target::Jira && w.started@
                == started_text(t.started_at) && w.time_spent@ == duration_text(t.minutes) && (
            t.comment.len() > 0 ==> (w.comment matches Some(c) && c@ == t.comment)),
            Some(Addition::WorkItem(w)) => run.target() == Target::YouTrack && w.minutes
                == t.minutes && w.text@ == item_text(t.comment, t.marker) && is_local_day(
                w.date as int,
                t.started_at,
            ) && (t.type_id matches Some(id) ==> (id.len() > 0 ==> (w.type_id matches Some(x) && x@
                == id))) && (t.type_id is None ==> w.type_id is None),
            None => false,
        }),
        next.target() == run.target(),
        next.tasks() == run.tasks(),
{
}

/// A result tells the truth: it is a success exactly where the task did not
/// fail, is skipped exactly where the entry was logged before, has the duration
/// exactly where it is logged now, and the reason exactly where it failed.
pub proof fn law_result_tells_the_outcome(r: SyncResultItem, t: Task, outcome: Outcome)
    requires
        tells(r, t, outcome),
    ensures
        r.entry_id@ == t.entry_id,
        r.activity@ == t.activity,
        r.issue_key@ == t.issue_key,
        match outcome {
            Outcome::Skipped => r.success && r.skipped && r.error is None && r.duration@.len() == 0,
            Outcome::Added => r.success && !r.skipped && r.error is None && r.duration@
                == duration_text(t.minutes),
            Outcome::Failed(e) => !r.success && !r.skipped && r.duration@.len() == 0 && (
            r.error matches Some(reason) && reason@ == e),
        },
{
}

/// The numbers of a response count its results: those that succeeded and were
/// not skipped, those that were skipped, and those that failed.
pub proof fn law_numbers_count_the_results(r: SyncResponse)
    requires
        is_count(r),
    ensures
        r.synced == r.results@.filter(|x: SyncResultItem| x.success && !x.skipped).len(),
        r.skipped == r.results@.filter(|x: SyncResultItem| x.skipped).len(),
        r.failed == r.results@.filter(|x: SyncResultItem| !x.success).len(),
{
    let a = |x: SyncResultItem| was_added(x);
    let b = |x: SyncResultItem| x.success && !x.skipped;
    assert(a =~= b);
}

/// A sync goes on by one result at a time: those before stay as they were, the
/// new one is of the task that was under way, and the task after it is next.
pub proof fn law_sync_goes_on_by_one_task(run: SyncRun, next: SyncRun, outcome: Outcome)
    requires
        run.advances_to(next, outcome),
    ensures
        run.results().len() < run.tasks().len(),
        next.tasks() == run.tasks(),
        next.target() == run.target(),
        next.results().len() == run.results().len() + 1,
        forall|i: int|
            0 <= i < run.results().len() ==> #[trigger] next.results()[i] == run.results()[i],
        tells(
            next.results()[run.results().len() as int],
            run.tasks()[run.results().len() as int],
            outcome,
        ),
        run.results().len() + 1 < run.tasks().len() ==> next.current() == Some(
            run.tasks()[run.results().len() as int + 1],
        ),
        run.results().len() + 1 == run.tasks().len() ==> next.current() is None,
{
    assert forall|i: int| 0 <= i < run.results().len() implies #[trigger] next.results()[i]
        == run.results()[i] by {
        assert(next.results().drop_last()[i] == next.results()[i]);
    }
}

}
