use synclock::config::AppConfig;
use synclock::early;
use synclock::entries::{
    current_provider, current_target, dedup_marker_for, fetch_early_entries, fetch_toggl_entries,
    keys_to_log, Provider, Target, TimeEntry,
};
use synclock::jira::Worklog;
use synclock::preview::{
    already_logged, keys_to_look_up, preview, work_items_found, worklogs_found, Logged,
};
use synclock::sync::{plan, summarize, Addition, SyncResponse, SyncResultItem, SyncRun, SyncStep};
use synclock::toggl::TogglTimeEntry;
use synclock::youtrack::{WorkItem, WorkItemDuration};

fn entry(id: &str, keys: &[&str], minutes: i64) -> TimeEntry {
    TimeEntry {
        id: id.into(),
        activity: "Meeting".into(),
        activity_id: Some("act".into()),
        activity_color: "888".into(),
        jira_keys: keys.iter().map(|k| k.to_string()).collect(),
        duration_min: minutes,
        started_at: "2026-04-01T07:00:00.000".into(),
        stopped_at: "2026-04-01T08:00:00.000".into(),
        note: String::new(),
    }
}

fn work_item(text: &str) -> WorkItem {
    WorkItem {
        id: "1".into(),
        date: 0,
        duration: WorkItemDuration::default(),
        text: text.into(),
    }
}

fn worklog(started: &str, seconds: i64) -> Worklog {
    Worklog { id: "1".into(), started: started.into(), time_spent_seconds: seconds }
}

fn to_youtrack() -> AppConfig {
    let mut cfg = AppConfig::default();
    cfg.target = "youtrack".into();
    cfg
}

#[test]
fn provider_and_target_of_the_settings() {
    let mut cfg = AppConfig::default();
    assert_eq!(current_provider(&cfg), Provider::Early);
    assert_eq!(current_target(&cfg), Target::Jira);
    cfg.provider = "toggl".into();
    cfg.target = "youtrack".into();
    assert_eq!(current_provider(&cfg), Provider::Toggl);
    assert_eq!(current_target(&cfg), Target::YouTrack);
    cfg.provider = "other".into();
    cfg.target = "other".into();
    assert_eq!(current_provider(&cfg), Provider::Early);
    assert_eq!(current_target(&cfg), Target::Jira);
}

#[test]
fn markers_name_the_provider() {
    assert_eq!(dedup_marker_for("toggl", "123"), "toggl-123");
    assert_ne!(dedup_marker_for("toggl", "123"), dedup_marker_for("early", "123"));
}

#[test]
fn early_entries_have_their_activity() {
    let activity = |id: &str, name: &str, color: &str| early::Activity {
        id: id.into(),
        name: name.into(),
        color: color.into(),
    };
    let activities = vec![activity("7", "Old", "111"), activity("7", "Coding", "fff")];
    let timed = |id: &str, act: &str, note: Option<early::Note>| early::TimeEntry {
        id: id.into(),
        activity_id: act.into(),
        duration: early::Duration {
            started_at: "2026-04-01T07:00:00.000".into(),
            stopped_at: "2026-04-01T07:45:30.000".into(),
        },
        note,
    };
    let note = early::Note {
        text: Some(" <{{|m|1|}}> AB-1 review ".into()),
        tags: vec![],
        mentions: vec![early::NoteMention { id: 1, label: Some("CD-2".into()) }],
    };
    let list = fetch_early_entries(&vec![timed("e1", "7", Some(note)), timed("e2", "8", None)], &activities);
    assert_eq!(list.len(), 2);
    assert_eq!(list[0].id, "e1");
    assert_eq!(list[0].activity, "Coding");
    assert_eq!(list[0].activity_color, "fff");
    assert_eq!(list[0].activity_id, Some("7".to_string()));
    assert_eq!(list[0].jira_keys, vec!["CD-2", "AB-1"]);
    assert_eq!(list[0].duration_min, 45);
    assert_eq!(list[0].note, "AB-1 review");
    assert_eq!(list[1].activity, "Unknown");
    assert_eq!(list[1].activity_color, "888");
    assert_eq!(list[1].note, "");
    assert_eq!(list[1].started_at, "2026-04-01T07:00:00.000");
    assert_eq!(list[1].stopped_at, "2026-04-01T07:45:30.000");
}

#[test]
fn toggl_entries_are_in_whole_minutes() {
    let timed = |id: i64, description: Option<&str>, stop: Option<&str>, duration: i64| TogglTimeEntry {
        id,
        description: description.map(|s| s.into()),
        start: "2026-04-01T07:00:00Z".into(),
        stop: stop.map(|s| s.into()),
        duration,
        project_id: Some(3),
        tags: Some(vec!["AB-1".into()]),
    };
    let list = fetch_toggl_entries(&vec![
        timed(1234567890123, Some("CD-2 Standup"), Some("2026-04-01T07:29:59Z"), 1799),
        timed(-5, None, None, -61),
    ]);
    assert_eq!(list[0].id, "1234567890123");
    assert_eq!(list[0].activity, "CD-2 Standup");
    assert_eq!(list[0].activity_id, None);
    assert_eq!(list[0].activity_color, "6366f1");
    assert_eq!(list[0].jira_keys, vec!["CD-2", "AB-1"]);
    assert_eq!(list[0].duration_min, 29);
    assert_eq!(list[0].stopped_at, "2026-04-01T07:29:59Z");
    assert_eq!(list[0].note, "");
    assert_eq!(list[1].id, "-5");
    assert_eq!(list[1].activity, "No description");
    assert_eq!(list[1].stopped_at, "2026-04-01T07:00:00Z");
    assert_eq!(list[1].duration_min, -1);
}

#[test]
fn keys_are_looked_up_once() {
    let entries = vec![entry("1", &["A-1", "B-2"], 30), entry("2", &["B-2", "C-3"], 30), entry("3", &[], 5)];
    assert_eq!(keys_to_look_up(&entries, ""), vec!["A-1", "B-2", "C-3"]);
}

#[test]
fn failed_look_ups_find_nothing() {
    assert!(matches!(worklogs_found(Err("down".into())), Logged::Worklogs(l) if l.is_empty()));
    assert!(matches!(work_items_found(Err("down".into())), Logged::WorkItems(l) if l.is_empty()));
    assert!(matches!(worklogs_found(Ok(vec![worklog("a", 1)])), Logged::Worklogs(l) if l.len() == 1));
    assert!(matches!(work_items_found(Ok(vec![work_item("a")])), Logged::WorkItems(l) if l.len() == 1));
}

#[test]
fn preview_tells_what_is_synced() {
    let entries = vec![
        entry("1", &["A-1", "B-2"], 60),
        entry("2", &["A-1"], 60),
        entry("3", &[], 60),
    ];
    let found = vec![
        ("A-1".to_string(), Logged::WorkItems(vec![work_item("x\n\n[synclock:early-1]")])),
        ("B-2".to_string(), Logged::WorkItems(vec![work_item("[synclock:early-1]")])),
    ];
    let r = preview(&entries, "early", "", &found);
    assert_eq!(r.total, 3);
    assert_eq!(r.with_jira, 2);
    let synced: Vec<bool> = r.items.iter().map(|i| i.synced).collect();
    assert_eq!(synced, vec![true, false, false]);
    let with_key: Vec<bool> = r.items.iter().map(|i| i.has_jira_key).collect();
    assert_eq!(with_key, vec![true, true, false]);
    assert_eq!(r.items[0].jira_keys, vec!["A-1", "B-2"]);
    assert_eq!(r.items[0].id, "1");
    assert_eq!(r.items[0].duration_min, 60);
    assert!(!preview(&entries, "toggl", "", &found).items[0].synced);
    assert!(!preview(&entries, "early", "", &vec![]).items[0].synced);
}

#[test]
fn preview_shares_the_time_between_keys() {
    let entries = vec![entry("1", &["A-1", "B-2"], 60)];
    let half = || Logged::Worklogs(vec![worklog("2026-04-01T07:00:00.000+0000", 1800)]);
    let whole = || Logged::Worklogs(vec![worklog("2026-04-01T07:00:00.000+0000", 3600)]);
    let found = vec![("A-1".to_string(), half()), ("B-2".to_string(), half())];
    assert!(preview(&entries, "early", "", &found).items[0].synced);
    let found = vec![("A-1".to_string(), half()), ("B-2".to_string(), whole())];
    assert!(!preview(&entries, "early", "", &found).items[0].synced);
}

#[test]
fn plan_has_a_task_for_each_key() {
    let mut noted = entry("1", &["A-1", "B-2", "C-3"], 50);
    noted.note = "review".into();
    let mut cfg = AppConfig::default();
    cfg.activity_type_map.insert("act".into(), "72-1".into());
    cfg.activity_type_map.insert("none".into(), String::new());
    let mut untyped = entry("4", &["A-1"], 1);
    untyped.activity_id = Some("none".into());
    let mut plain = entry("5", &["A-1"], 1);
    plain.activity_id = None;
    let entries = vec![noted, entry("2", &[], 30), entry("3", &["A-1"], 0), untyped, plain];
    let tasks = plan(&entries, "early", &cfg.activity_type_map, "");
    assert_eq!(tasks.len(), 5);
    assert_eq!(tasks[0].issue_key, "A-1");
    assert_eq!(tasks[2].issue_key, "C-3");
    assert!(tasks[..3].iter().all(|t| t.minutes == 17 && t.entry_id == "1"));
    assert_eq!(tasks[0].comment, "Meeting - review");
    assert_eq!(tasks[0].marker, "early-1");
    assert_eq!(tasks[0].type_id, Some("72-1".to_string()));
    assert_eq!(tasks[3].comment, "Meeting");
    assert_eq!(tasks[3].type_id, None);
    assert_eq!(tasks[4].type_id, None);
    assert_eq!(tasks[4].marker, "early-5");
}

#[test]
fn sync_to_jira() {
    let entries = vec![entry("1", &["A-1", "B-2"], 60), entry("2", &["C-3"], 90)];
    let mut run = SyncRun::sync(&entries, &AppConfig::default());
    assert!(matches!(run.next_step(), SyncStep::LookUp { issue_key } if issue_key == "A-1"));
    match run.looked_up(&Logged::Worklogs(vec![])) {
        Some(Addition::Worklog(w)) => {
            assert_eq!(w.time_spent, "30m");
            assert_eq!(w.started, "2026-04-01T07:00:00.000+0000");
            assert_eq!(w.comment, Some("Meeting".to_string()));
        }
        _ => panic!("nothing to add"),
    }
    run.added(Ok("id".into()));
    assert!(matches!(run.next_step(), SyncStep::LookUp { issue_key } if issue_key == "B-2"));
    let there = Logged::Worklogs(vec![worklog("2026-04-01T07:00:30.000+0000", 1830)]);
    assert!(run.looked_up(&there).is_none());
    assert!(matches!(run.next_step(), SyncStep::LookUp { issue_key } if issue_key == "C-3"));
    assert!(run.looked_up(&Logged::Worklogs(vec![])).is_some());
    run.added(Err("400 Bad Request: no".into()));
    assert!(matches!(run.next_step(), SyncStep::Finish));
    let r = run.finish();
    assert_eq!((r.synced, r.skipped, r.failed), (1, 1, 1));
    assert_eq!(r.results.len(), 3);
    assert_eq!(r.results[0].duration, "30m");
    assert!(r.results[0].success && !r.results[0].skipped);
    assert_eq!(r.results[1].duration, "");
    assert!(r.results[1].success && r.results[1].skipped);
    assert_eq!(r.results[2].error, Some("400 Bad Request: no".to_string()));
    assert!(!r.results[2].success && !r.results[2].skipped);
    assert_eq!(r.results[2].issue_key, "C-3");
    assert_eq!(r.results[2].entry_id, "2");
    assert_eq!(r.results[2].activity, "Meeting");
}

#[test]
fn sync_to_youtrack() {
    let mut cfg = to_youtrack();
    cfg.activity_type_map.insert("act".into(), "72-1".into());
    let entries = vec![entry("1", &["A-1"], 60)];
    let mut run = SyncRun::sync(&entries, &cfg);
    let other = Logged::WorkItems(vec![work_item("[synclock:early-12]")]);
    match run.looked_up(&other) {
        Some(Addition::WorkItem(w)) => {
            assert_eq!(w.minutes, 60);
            assert_eq!(w.text, "Meeting\n\n[synclock:early-1]");
            assert_eq!(w.type_id, Some("72-1".to_string()));
            assert_eq!(w.date % 86_400_000, 0);
        }
        _ => panic!("nothing to add"),
    }
    run.added(Ok(String::new()));
    assert_eq!(run.finish().results[0].duration, "1h");
}

fn whole_sync(entries: &Vec<TimeEntry>, cfg: &AppConfig, held: &mut Vec<(String, String)>) -> SyncResponse {
    let mut run = SyncRun::sync(entries, cfg);
    while let SyncStep::LookUp { issue_key } = run.next_step() {
        let items = held.iter().filter(|(k, _)| *k == issue_key).map(|(_, t)| work_item(t)).collect();
        if let Some(Addition::WorkItem(w)) = run.looked_up(&Logged::WorkItems(items)) {
            held.push((issue_key, w.text));
            run.added(Ok("id".into()));
        }
    }
    run.finish()
}

#[test]
fn a_second_sync_adds_nothing() {
    let entries = vec![
        entry("1", &["A-1", "B-2"], 60),
        entry("2", &["A-1"], 60),
        entry("3", &["A-1"], 60),
    ];
    let mut held = vec![("A-1".to_string(), "by hand".to_string())];
    let first = whole_sync(&entries, &to_youtrack(), &mut held);
    assert_eq!((first.synced, first.skipped, first.failed), (4, 0, 0));
    assert_eq!(held.len(), 5);
    let second = whole_sync(&entries, &to_youtrack(), &mut held);
    assert_eq!((second.synced, second.skipped, second.failed), (0, 4, 0));
    assert_eq!(held.len(), 5);
    let found = keys_to_look_up(&entries, "")
        .into_iter()
        .map(|key| {
            let items = held.iter().filter(|(k, _)| *k == key).map(|(_, t)| work_item(t)).collect();
            (key, Logged::WorkItems(items))
        })
        .collect();
    assert!(preview(&entries, "early", "", &found).items.iter().all(|i| i.synced));
}

#[test]
fn a_finished_sync_stays_as_it_is() {
    let mut run = SyncRun::sync(&vec![], &AppConfig::default());
    assert!(matches!(run.next_step(), SyncStep::Finish));
    assert!(run.looked_up(&Logged::Worklogs(vec![])).is_none());
    run.added(Err("late".into()));
    let r = run.finish();
    assert_eq!((r.synced, r.skipped, r.failed, r.results.len()), (0, 0, 0, 0));
}

#[test]
fn logged_by_time_or_by_marker() {
    let logs = Logged::Worklogs(vec![worklog("2026-04-01T07:00:00.000+0000", 60)]);
    assert!(already_logged(&logs, "2026-04-01T07:00:00.000", 1, "m"));
    assert!(!already_logged(&logs, "2026-04-01T07:00:00.000", 3, "m"));
    let items = Logged::WorkItems(vec![work_item("[synclock:m]")]);
    assert!(already_logged(&items, "unreadable", 99, "m"));
    assert!(!already_logged(&items, "2026-04-01T07:00:00.000", 1, "n"));
}

#[test]
fn results_are_counted() {
    let result = |success: bool, skipped: bool| SyncResultItem {
        entry_id: "1".into(),
        activity: "a".into(),
        issue_key: "A-1".into(),
        duration: String::new(),
        success,
        skipped,
        error: None,
    };
    let r = summarize(vec![result(true, false), result(true, true), result(false, false), result(true, true)]);
    assert_eq!((r.synced, r.skipped, r.failed), (1, 2, 1));
}

#[test]
fn an_entry_without_a_key_falls_back() {
    let mut cfg = AppConfig::default();
    cfg.default_issue_key = "OPS-1".into();
    let entries = vec![entry("9", &[], 30)];
    let mut run = SyncRun::sync(&entries, &cfg);
    assert!(matches!(run.next_step(), SyncStep::LookUp { issue_key } if issue_key == "OPS-1"));
    assert!(run.looked_up(&Logged::Worklogs(vec![])).is_some());
    run.added(Ok("id".into()));
    let r = run.finish();
    assert_eq!((r.synced, r.skipped, r.failed), (1, 0, 0));
    assert_eq!(r.results.len(), 1);
    assert_eq!(r.results[0].entry_id, "9");
    assert_eq!(r.results[0].issue_key, "OPS-1");
    assert_eq!(r.results[0].duration, "30m");
    cfg.default_issue_key = String::new();
    assert!(matches!(SyncRun::sync(&entries, &cfg).next_step(), SyncStep::Finish));
}

#[test]
fn the_fallback_is_for_entries_without_a_key() {
    let entries = vec![entry("1", &["A-1"], 60), entry("2", &[], 60), entry("3", &[], 0)];
    let none = AppConfig::default().activity_type_map;
    let tasks = plan(&entries, "early", &none, "OPS-1");
    let keys: Vec<&str> = tasks.iter().map(|t| t.issue_key.as_str()).collect();
    assert_eq!(keys, vec!["A-1", "OPS-1"]);
    assert_eq!(keys_to_log(&entries[0], "OPS-1"), vec!["A-1"]);
    assert_eq!(keys_to_log(&entries[1], "OPS-1"), vec!["OPS-1"]);
    assert!(keys_to_log(&entries[1], "").is_empty());
    assert_eq!(keys_to_look_up(&entries, "OPS-1"), vec!["A-1", "OPS-1"]);
    let found = vec![(
        "OPS-1".to_string(),
        Logged::Worklogs(vec![worklog("2026-04-01T07:00:00.000+0000", 3600)]),
    )];
    let shown = preview(&entries, "early", "OPS-1", &found);
    assert_eq!(shown.with_jira, 3);
    assert_eq!(shown.items[1].jira_keys, vec!["OPS-1"]);
    assert!(shown.items[1].has_jira_key && shown.items[1].synced);
    assert!(!shown.items[0].synced);
    let without = preview(&entries, "early", "", &found);
    assert_eq!(without.with_jira, 1);
    assert!(!without.items[1].has_jira_key && !without.items[1].synced);
}

#[test]
fn a_second_sync_of_toggl_entries_to_jira_adds_nothing() {
    let mut one = entry("1", &["A-1", "B-2"], 60);
    one.started_at = "2026-04-01T07:00:00Z".into();
    let mut two = entry("2", &["A-1"], 45);
    two.started_at = "2026-04-01T11:30:00+02:00".into();
    let entries = vec![one, two];
    let mut held: Vec<(String, Worklog)> = vec![];
    for expected in [(3, 0, 0), (0, 3, 0)] {
        let mut run = SyncRun::sync(&entries, &AppConfig::default());
        while let SyncStep::LookUp { issue_key } = run.next_step() {
            let list = held.iter().filter(|(k, _)| *k == issue_key).map(|(_, w)| w.clone()).collect();
            if let Some(Addition::Worklog(w)) = run.looked_up(&Logged::Worklogs(list)) {
                let seconds = if w.time_spent == "30m" { 1800 } else { 2700 };
                held.push((issue_key, worklog(&w.started, seconds)));
                run.added(Ok("id".into()));
            }
        }
        let r = run.finish();
        assert_eq!((r.synced, r.skipped, r.failed), expected);
    }
}
