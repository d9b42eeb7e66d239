use synclock::http::Reply;
use synclock::toggl::{
    extract_jira_keys, get_auth_header, get_time_entries, me_url, test_connection,
    time_entries_query, time_entries_url, TogglTimeEntry,
};

fn entry(desc: Option<&str>, tags: Option<Vec<&str>>) -> TogglTimeEntry {
    TogglTimeEntry {
        id: 1,
        description: desc.map(|s| s.into()),
        start: "2026-04-01T07:00:00Z".into(),
        stop: Some("2026-04-01T07:30:00Z".into()),
        duration: 1800,
        project_id: None,
        tags: tags.map(|t| t.into_iter().map(|s| s.into()).collect()),
    }
}

#[test]
fn extract_from_description() {
    let e = entry(Some("TICK-301 Standup"), None);
    let keys = extract_jira_keys(&e);
    assert_eq!(keys, vec!["TICK-301"]);
}

#[test]
fn extract_from_tags() {
    let e = entry(Some("Standup"), Some(vec!["TICK-301"]));
    let keys = extract_jira_keys(&e);
    assert_eq!(keys, vec!["TICK-301"]);
}

#[test]
fn extract_multiple_from_description() {
    let e = entry(Some("BACK-7 and FE-19 work"), None);
    let mut keys = extract_jira_keys(&e);
    keys.sort();
    assert_eq!(keys, vec!["BACK-7", "FE-19"]);
}

#[test]
fn no_keys_found() {
    let e = entry(Some("just a meeting"), None);
    assert!(extract_jira_keys(&e).is_empty());
}

#[test]
fn no_description() {
    let e = entry(None, None);
    assert!(extract_jira_keys(&e).is_empty());
}

#[test]
fn deduplicates_across_desc_and_tags() {
    let e = entry(Some("BACK-7 work"), Some(vec!["BACK-7"]));
    let keys = extract_jira_keys(&e);
    assert_eq!(keys.len(), 1);
}

#[test]
fn ignores_lowercase() {
    let e = entry(Some("is-123 not valid"), None);
    assert!(extract_jira_keys(&e).is_empty());
}

#[test]
fn every_key_of_a_tag_counts() {
    let e = entry(Some("AA-1"), Some(vec!["BB-2 CC-3", "AA-1", "DD-4"]));
    assert_eq!(extract_jira_keys(&e), vec!["AA-1", "BB-2", "CC-3", "DD-4"]);
}

#[test]
fn toggl_header_is_basic_authentication() {
    assert_eq!(get_auth_header(None), Err("TOGGL_API_TOKEN not set".to_string()));
    assert_eq!(
        get_auth_header(Some("abc".into())),
        Ok("Basic YWJjOmFwaV90b2tlbg==".to_string())
    );
}

#[test]
fn toggl_requests() {
    assert_eq!(time_entries_url(), "https://api.track.toggl.com/api/v9/me/time_entries");
    assert_eq!(me_url(), "https://api.track.toggl.com/api/v9/me");
    let (start, end) = time_entries_query("2026-04-01", "2026-04-02");
    assert_eq!(start, ("start_date", "2026-04-01T00:00:00Z".to_string()));
    assert_eq!(end, ("end_date", "2026-04-02T23:59:59Z".to_string()));
}

#[test]
fn running_entries_are_left_out() {
    let mut running = entry(Some("running"), None);
    running.duration = -1;
    let mut empty = entry(Some("empty"), None);
    empty.duration = 0;
    let over = entry(Some("over"), None);
    let kept = get_time_entries(Reply::Delivered(vec![running, over, empty])).unwrap();
    assert_eq!(kept.len(), 1);
    assert_eq!(kept[0].description.as_deref(), Some("over"));
}

#[test]
fn failed_toggl_requests_are_told() {
    assert_eq!(
        get_time_entries(Reply::Unreachable("down".into())).unwrap_err(),
        "Toggl API error: down"
    );
    let refused = Reply::Refused { code: 402, status: "402 Payment Required".into(), body: "pay".into() };
    assert_eq!(get_time_entries(refused).unwrap_err(), "Toggl API error (402 Payment Required): pay");
    assert_eq!(get_time_entries(Reply::Garbled("bad".into())).unwrap_err(), "bad");
}

#[test]
fn toggl_connection() {
    assert_eq!(test_connection(Reply::Delivered(())), Ok(()));
    assert_eq!(
        test_connection(Reply::Unreachable("down".into())),
        Err("Toggl connection failed: down".to_string())
    );
    let refused = Reply::Refused { code: 403, status: "403 Forbidden".into(), body: "x".into() };
    assert_eq!(test_connection(refused), Err("Toggl auth failed (403 Forbidden)".to_string()));
}
