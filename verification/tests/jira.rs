use synclock::http::{accept_created, Reply};
use synclock::jira::{
    accept_cloud_id, add_worklog, clear_cloud_id_cache, get_api_base, get_auth_header, get_cloud_id,
    get_worklogs, is_already_synced, matches_entry, myself_url, test_connection, worklogs_url, CloudIdStep, Worklog,
};

fn worklog(started: &str, seconds: i64) -> Worklog {
    Worklog { id: "1".into(), started: started.into(), time_spent_seconds: seconds }
}

fn refused<T>(code: u16, status: &str, body: &str) -> Reply<T> {
    Reply::Refused { code, status: status.into(), body: body.into() }
}

const START: &str = "2026-04-01T07:00:00.000";

#[test]
fn worklog_of_the_entry_is_recognised() {
    assert!(is_already_synced(&[worklog("2026-04-01T07:00:00.000+0000", 1800)], START, 30));
    assert!(is_already_synced(&[worklog("2026-04-01T09:00:00.000+0200", 1800)], START, 30));
    assert!(!is_already_synced(&[], START, 30));
    let others = [
        worklog("2026-04-01T08:00:00.000+0000", 1800),
        worklog("2026-04-01T07:00:00.000+0000", 1800),
    ];
    assert!(is_already_synced(&others, START, 30));
    assert!(!is_already_synced(&others[..1], START, 30));
}

#[test]
fn start_is_compared_to_two_minutes() {
    assert!(is_already_synced(&[worklog("2026-04-01T07:01:59.999+0000", 1800)], START, 30));
    assert!(is_already_synced(&[worklog("2026-04-01T06:58:00.001+0000", 1800)], START, 30));
    assert!(!is_already_synced(&[worklog("2026-04-01T07:02:00.000+0000", 1800)], START, 30));
    assert!(!is_already_synced(&[worklog("2026-04-01T06:58:00.000+0000", 1800)], START, 30));
}

#[test]
fn duration_is_compared_to_one_minute() {
    let at = "2026-04-01T07:00:00.000+0000";
    assert!(is_already_synced(&[worklog(at, 1859)], START, 30));
    assert!(is_already_synced(&[worklog(at, 1741)], START, 30));
    assert!(!is_already_synced(&[worklog(at, 1860)], START, 30));
    assert!(!is_already_synced(&[worklog(at, 1740)], START, 30));
    assert!(!is_already_synced(&[worklog(at, i64::MIN)], START, i64::MAX));
}

#[test]
fn unreadable_starts_match_nothing() {
    assert!(!is_already_synced(&[worklog("invalid", 1800)], "invalid", 30));
    assert!(!is_already_synced(&[worklog("unreadable", 1800)], START, 30));
    assert!(!is_already_synced(&[worklog("2026-04-01T07:00:00.000+0000", 1800)], "invalid", 30));
    assert!(!is_already_synced(&[worklog("1970-01-01T00:00:00.000+0000", 1800)], "invalid", 30));
}

#[test]
fn starts_with_an_offset_are_recognised() {
    let there = [worklog("2026-04-01T07:00:00.000+0000", 1800)];
    assert!(is_already_synced(&there, "2026-04-01T07:00:00Z", 30));
    assert!(is_already_synced(&there, "2026-04-01T07:00:00+00:00", 30));
    assert!(is_already_synced(&there, "2026-04-01T09:00:00+02:00", 30));
    assert!(!is_already_synced(&there, "2026-04-01T07:00:00+02:00", 30));
}

#[test]
fn what_was_added_is_recognised() {
    let starts = [
        START,
        "2024-02-29T23:59:59",
        "2026-04-01T07:00:00Z",
        "2026-04-01T09:00:00.123456+02:00",
        "2016-12-31T23:59:60.250",
        "2016-12-31T23:59:60Z",
        "2017-01-01T05:29:60+05:30",
    ];
    for start in starts {
        let w = add_worklog(45, start, "c");
        assert!(is_already_synced(&[worklog(&w.started, 45 * 60)], start, 45), "{}", start);
    }
}

#[test]
fn start_of_an_added_worklog_is_in_utc() {
    let started = |s: &str| add_worklog(1, s, "").started;
    assert_eq!(started("2026-04-01T07:00:00.000"), "2026-04-01T07:00:00.000+0000");
    assert_eq!(started("2026-04-01T07:00:00"), "2026-04-01T07:00:00.000+0000");
    assert_eq!(started("2026-04-01T07:00:00Z"), "2026-04-01T07:00:00.000+0000");
    assert_eq!(started("2026-04-01T09:00:00.1239+02:00"), "2026-04-01T07:00:00.123+0000");
    assert_eq!(started("2016-12-31T23:59:60Z"), "2016-12-31T23:59:60.000+0000");
    assert_eq!(started("unreadable"), "unreadable+0000");
}

#[test]
fn match_of_starts_that_were_read() {
    assert!(matches_entry(Some(119_999), 60, Some(0), 1));
    assert!(!matches_entry(Some(120_000), 60, Some(0), 1));
    assert!(!matches_entry(Some(0), 120, Some(0), 1));
    assert!(!matches_entry(None, 60, Some(0), 1));
    assert!(!matches_entry(Some(0), 60, None, 1));
    assert!(!matches_entry(None, 60, None, 1));
    assert!(!matches_entry(Some(i64::MIN), i64::MIN, Some(i64::MAX), i64::MAX));
}

#[test]
fn worklog_to_be_added() {
    let w = add_worklog(90, START, "Standup");
    assert_eq!(w.time_spent, "1h 30m");
    assert_eq!(w.started, "2026-04-01T07:00:00.000+0000");
    assert_eq!(w.comment, Some("Standup".to_string()));
    assert_eq!(add_worklog(60, START, "").comment, None);
}

#[test]
fn id_of_what_was_added() {
    assert_eq!(accept_created(Reply::Delivered(Some("7".into()))), Ok("7".to_string()));
    assert_eq!(accept_created(Reply::Delivered(None)), Ok(String::new()));
    assert_eq!(accept_created(refused(400, "400 Bad Request", "why")), Err("400 Bad Request: why".to_string()));
    assert_eq!(accept_created(Reply::Unreachable("down".into())), Err("down".to_string()));
    assert_eq!(accept_created(Reply::Garbled("bad".into())), Err("bad".to_string()));
}

#[test]
fn cloud_id_is_asked_for_once() {
    let base = Some("https://site.atlassian.net//".to_string());
    let mut cache = None;
    match get_cloud_id(&cache, &base) {
        CloudIdStep::Ask { url } => assert_eq!(url, "https://site.atlassian.net/_edge/tenant_info"),
        _ => panic!("not asked"),
    }
    assert!(matches!(get_cloud_id(&cache, &None), CloudIdStep::Failed(e) if e == "JIRA_BASE_URL not set"));
    assert_eq!(
        accept_cloud_id(&mut cache, "https://site/", refused(404, "404 Not Found", "")),
        Err("Failed to resolve Jira Cloud ID from https://site/".to_string())
    );
    assert_eq!(accept_cloud_id(&mut cache, "b", Reply::Unreachable("down".into())), Err("down".to_string()));
    assert_eq!(accept_cloud_id(&mut cache, "b", Reply::Garbled("bad".into())), Err("bad".to_string()));
    assert_eq!(cache, None);
    assert_eq!(accept_cloud_id(&mut cache, "b", Reply::Delivered("ID".into())), Ok("ID".to_string()));
    assert!(matches!(get_cloud_id(&cache, &base), CloudIdStep::Ready(id) if id == "ID"));
    clear_cloud_id_cache(&mut cache);
    assert_eq!(cache, None);
}

#[test]
fn jira_addresses() {
    let base = get_api_base("ID");
    assert_eq!(base, "https://api.atlassian.com/ex/jira/ID");
    assert_eq!(worklogs_url(&base, "AB-1"), "https://api.atlassian.com/ex/jira/ID/rest/api/3/issue/AB-1/worklog");
    assert_eq!(myself_url(&base), "https://api.atlassian.com/ex/jira/ID/rest/api/3/myself");
}

#[test]
fn jira_header_is_basic_authentication() {
    let email = Some("me@example.com".to_string());
    let token = Some("tok".to_string());
    assert_eq!(get_auth_header(None, token.clone()), Err("JIRA_EMAIL not set".to_string()));
    assert_eq!(get_auth_header(email.clone(), None), Err("JIRA_API_TOKEN not set".to_string()));
    assert_eq!(get_auth_header(email, token), Ok("Basic bWVAZXhhbXBsZS5jb206dG9r".to_string()));
}

#[test]
fn refused_worklogs_are_none() {
    assert_eq!(get_worklogs(refused(404, "404 Not Found", "")).unwrap().len(), 0);
    assert_eq!(get_worklogs(Reply::Delivered(vec![worklog("a", 1)])).unwrap().len(), 1);
    assert_eq!(get_worklogs(Reply::Unreachable("down".into())).unwrap_err(), "down");
    assert_eq!(get_worklogs(Reply::Garbled("bad".into())).unwrap_err(), "bad");
}

#[test]
fn jira_connection() {
    assert_eq!(test_connection(Reply::Delivered(())), Ok(()));
    assert_eq!(
        test_connection(Reply::Unreachable("down".into())),
        Err("Jira connection failed: down".to_string())
    );
    assert_eq!(
        test_connection(refused(401, "401 Unauthorized", "")),
        Err("Jira auth failed (401 Unauthorized)".to_string())
    );
}
