use synclock::config::AppConfig;
use synclock::http::Reply;
use synclock::percent::urlencoding_encode;
use synclock::string_map::StringMap;
use synclock::youtrack::{
    accept_issue, accept_search, add_request, add_work_item, auth_headers, clear_alias_cache,
    config_async, get_project_types, get_work_item_types, get_work_items, is_already_synced,
    me_request, projects_request, resolve_issue_id, started_to_local_day_ms,
    test_connection, types_request, work_item_on, PageStep, Paging, ResolveStep, TypesStep,
    WorkItem, WorkItemDuration, WorkItemType,
};
use synclock::clock::{day_start_ms, Moment};

fn item(text: &str) -> WorkItem {
    WorkItem {
        id: "1".into(),
        date: 0,
        duration: WorkItemDuration { minutes: 30 },
        text: text.into(),
    }
}

#[test]
fn finds_marker() {
    let items = vec![item("Standup\n\n[synclock:toggl-123]")];
    assert!(is_already_synced(&items, "toggl-123"));
}

#[test]
fn no_marker() {
    let items = vec![item("Just a regular work item")];
    assert!(!is_already_synced(&items, "toggl-123"));
}

#[test]
fn different_marker() {
    let items = vec![item("[synclock:early-abc]")];
    assert!(!is_already_synced(&items, "toggl-123"));
}

#[test]
fn marker_in_middle() {
    let items = vec![item("Pre [synclock:toggl-123] post")];
    assert!(is_already_synced(&items, "toggl-123"));
}

#[test]
fn empty_items() {
    assert!(!is_already_synced(&[], "toggl-123"));
}

#[test]
fn provider_prefix_disambiguates() {
    // Same numeric id but different provider — must not match.
    let items = vec![item("[synclock:early-123]")];
    assert!(!is_already_synced(&items, "toggl-123"));
}

#[test]
fn marker_is_found_in_any_item() {
    let items = vec![item(""), item("é [synclock:toggl-12"), item("x[synclock:toggl-12]")];
    assert!(is_already_synced(&items, "toggl-12"));
    assert!(!is_already_synced(&items, "toggl-1"));
    assert!(!is_already_synced(&items, "toggl-123"));
}

fn settings(base: &str, token: &str) -> AppConfig {
    let mut cfg = AppConfig::default();
    cfg.youtrack_base_url = base.into();
    cfg.youtrack_token = token.into();
    cfg
}

fn refused<T>(status: &str) -> Reply<T> {
    Reply::Refused { code: 404, status: status.into(), body: "body".into() }
}

#[test]
fn youtrack_settings_are_needed() {
    assert_eq!(config_async(&settings("", "t")), Err("YouTrack base URL not set".to_string()));
    assert_eq!(config_async(&settings("https://yt", "")), Err("YouTrack token not set".to_string()));
    assert_eq!(
        config_async(&settings("https://yt//", "t")),
        Ok(("https://yt".to_string(), "t".to_string()))
    );
}

#[test]
fn youtrack_headers() {
    let h = auth_headers("perm:ä").unwrap_or_else(|e| panic!("{}", e));
    assert_eq!(h.authorization, "Bearer perm:ä");
    assert_eq!(h.content_type, "application/json");
    assert!(auth_headers("a\tb").is_ok());
    for bad in ["a\nb", "\u{7f}", "\u{0}"] {
        match auth_headers(bad) {
            Ok(_) => panic!("taken"),
            Err(e) => assert_eq!(e, "Invalid YouTrack token: failed to parse header value"),
        }
    }
}

#[test]
fn youtrack_requests() {
    let q = types_request("https://yt", "t").ok().unwrap();
    assert_eq!(q.url, "https://yt/api/admin/timeTrackingSettings/workItemTypes?fields=id,name");
    assert_eq!(q.headers.authorization, "Bearer t");
    let q = projects_request("https://yt", "t").ok().unwrap();
    assert_eq!(q.url, "https://yt/api/admin/projects?fields=timeTrackingSettings(workItemTypes(id,name))");
    let q = me_request("https://yt", "t").ok().unwrap();
    assert_eq!(q.url, "https://yt/api/users/me?fields=login");
    let q = add_request("https://yt", "t", "AB-1").ok().unwrap();
    assert_eq!(q.url, "https://yt/api/issues/AB-1/timeTracking/workItems?fields=id");
    assert!(me_request("https://yt", "\n").is_err());
}

fn kind(id: &str, name: &str) -> WorkItemType {
    WorkItemType { id: id.into(), name: name.into() }
}

fn names(list: &[WorkItemType]) -> Vec<&str> {
    list.iter().map(|t| t.name.as_str()).collect()
}

#[test]
fn types_are_sorted_by_name() {
    let types = vec![kind("1", "testing"), kind("2", "Development"), kind("3", "TESTING"), kind("4", "Änderung")];
    match get_work_item_types(Reply::Delivered(types)) {
        TypesStep::Done(Ok(list)) => {
            assert_eq!(names(&list), vec!["Development", "testing", "TESTING", "Änderung"]);
        }
        _ => panic!("not over"),
    }
}

#[test]
fn types_of_projects_are_asked_for_where_the_list_is_refused() {
    assert!(matches!(get_work_item_types(refused("403 Forbidden")), TypesStep::AskProjects));
    assert!(matches!(
        get_work_item_types(Reply::Unreachable("down".into())),
        TypesStep::Done(Err(e)) if e == "down"
    ));
    assert!(matches!(
        get_work_item_types(Reply::Garbled("bad".into())),
        TypesStep::Done(Err(e)) if e == "bad"
    ));
}

#[test]
fn types_of_projects_are_there_once() {
    let projects = vec![
        Some(vec![kind("1", "b"), kind("2", "a")]),
        None,
        Some(vec![kind("2", "other name"), kind("3", "C"), kind("1", "b")]),
    ];
    let list = get_project_types(Reply::Delivered(projects)).unwrap();
    assert_eq!(names(&list), vec!["a", "b", "C"]);
    let ids: Vec<&str> = list.iter().map(|t| t.id.as_str()).collect();
    assert_eq!(ids, vec!["2", "1", "3"]);
    assert_eq!(
        get_project_types(refused("403 Forbidden")).unwrap_err(),
        "Failed to load YouTrack work item types (403 Forbidden)"
    );
    assert_eq!(get_project_types(Reply::Unreachable("down".into())).unwrap_err(), "down");
    assert_eq!(get_project_types(Reply::Garbled("bad".into())).unwrap_err(), "bad");
}

#[test]
fn youtrack_connection() {
    assert_eq!(test_connection(Reply::Delivered(())), Ok(()));
    assert_eq!(
        test_connection(Reply::Unreachable("down".into())),
        Err("YouTrack connection failed: down".to_string())
    );
    assert_eq!(
        test_connection(refused("401 Unauthorized")),
        Err("YouTrack auth failed (401 Unauthorized)".to_string())
    );
}

#[test]
fn encodes_everything_but_unreserved_characters() {
    assert_eq!(
        urlencoding_encode("Migrated from JIRA: IS-6562"),
        "Migrated%20from%20JIRA%3A%20IS-6562"
    );
    assert_eq!(urlencoding_encode("AZaz09-_.~"), "AZaz09-_.~");
    assert_eq!(urlencoding_encode("é/€"), "%C3%A9%2F%E2%82%AC");
    assert_eq!(urlencoding_encode(""), "");
}

#[test]
fn known_keys_are_not_asked_again() {
    let cfg = settings("https://yt", "t");
    let mut cache = StringMap::new();
    match resolve_issue_id(&cache, &cfg, "IS-1") {
        ResolveStep::Look(q) => assert_eq!(q.url, "https://yt/api/issues/IS-1?fields=idReadable"),
        _ => panic!("not asked"),
    }
    let ids = vec!["NEW-1".to_string()];
    assert_eq!(accept_search(&mut cache, "IS-1", Reply::Delivered(ids)), Ok("NEW-1".to_string()));
    assert!(matches!(
        resolve_issue_id(&cache, &cfg, "IS-1"),
        ResolveStep::Done(Ok(id)) if id == "NEW-1"
    ));
    assert!(matches!(resolve_issue_id(&cache, &cfg, "IS-2"), ResolveStep::Look(_)));
    clear_alias_cache(&mut cache);
    assert!(matches!(resolve_issue_id(&cache, &cfg, "IS-1"), ResolveStep::Look(_)));
}

#[test]
fn resolving_needs_settings() {
    let cache = StringMap::new();
    assert!(matches!(
        resolve_issue_id(&cache, &settings("", "t"), "A-1"),
        ResolveStep::Done(Err(e)) if e == "YouTrack base URL not set"
    ));
    assert!(matches!(
        resolve_issue_id(&cache, &settings("https://yt", "\n"), "A-1"),
        ResolveStep::Done(Err(e)) if e.starts_with("Invalid YouTrack token: ")
    ));
}

#[test]
fn a_key_that_exists_is_returned_unchanged() {
    let mut cache = StringMap::new();
    let step = accept_issue(&mut cache, "https://yt", "t", "IS-6562", Reply::Delivered("NEW-9".into()));
    assert!(matches!(step, ResolveStep::Done(Ok(id)) if id == "IS-6562"));
    assert_eq!(cache.get("IS-6562"), Some("IS-6562".to_string()));
    let step = accept_issue(&mut cache, "https://yt", "t", "AB-1", Reply::Delivered(String::new()));
    assert!(matches!(step, ResolveStep::Done(Ok(id)) if id == "AB-1"));
    assert_eq!(cache.get("AB-1"), Some("AB-1".to_string()));
    let step = accept_issue(&mut cache, "https://yt", "t", "AB-2", Reply::Unreachable("down".into()));
    assert!(matches!(step, ResolveStep::Done(Err(e)) if e == "down"));
    let step = accept_issue(&mut cache, "https://yt", "t", "AB-2", Reply::Garbled("bad".into()));
    assert!(matches!(step, ResolveStep::Done(Err(e)) if e == "bad"));
    assert_eq!(cache.get("AB-2"), None);
}

#[test]
fn migrated_issues_are_searched_for() {
    let mut cache = StringMap::new();
    match accept_issue(&mut cache, "https://yt", "t", "IS-6562", refused("404 Not Found")) {
        ResolveStep::Search(q) => assert_eq!(
            q.url,
            "https://yt/api/issues?fields=idReadable&$top=5&query=Migrated%20from%20JIRA%3A%20IS-6562"
        ),
        _ => panic!("not searched for"),
    }
    let ids = vec![String::new(), "NEW-7".to_string(), "NEW-8".to_string()];
    assert_eq!(accept_search(&mut cache, "IS-6562", Reply::Delivered(ids)), Ok("NEW-7".to_string()));
    assert_eq!(cache.get("IS-6562"), Some("NEW-7".to_string()));
    assert_eq!(
        accept_search(&mut cache, "IS-1", Reply::Delivered(vec![String::new()])),
        Err("YouTrack issue 'IS-1' not found (no migration alias either)".to_string())
    );
    assert_eq!(
        accept_search(&mut cache, "IS-1", refused("500 Oops")),
        Err("YouTrack issue 'IS-1' not found and search failed (500 Oops)".to_string())
    );
    assert_eq!(accept_search(&mut cache, "IS-1", Reply::Unreachable("down".into())), Err("down".to_string()));
    assert_eq!(accept_search(&mut cache, "IS-1", Reply::Garbled("bad".into())), Err("bad".to_string()));
    assert_eq!(cache.get("IS-1"), None);
}

fn page(from: usize, to: usize) -> Vec<WorkItem> {
    (from..to).map(|n| item(&n.to_string())).collect()
}

fn more(step: PageStep) -> Paging {
    match step {
        PageStep::More(p) => p,
        PageStep::Done(_) => panic!("over"),
    }
}

#[test]
fn all_pages_are_read() {
    let total = 450;
    let mut paging = Paging::start();
    let mut skip = 0;
    let mut asked = Vec::new();
    let all = loop {
        asked.push(paging.request("https://yt", "t", "AB-1").ok().unwrap().url);
        match get_work_items(paging, Reply::Delivered(page(skip, total.min(skip + 200)))) {
            PageStep::More(p) => {
                paging = p;
                skip += 200;
            }
            PageStep::Done(r) => break r.unwrap(),
        }
    };
    assert_eq!(all.len(), total);
    assert!(all.iter().enumerate().all(|(n, w)| w.text == n.to_string()));
    let start = "https://yt/api/issues/AB-1/timeTracking/workItems?fields=id,date,duration(minutes),text&$top=200&$skip=";
    assert_eq!(asked, vec![format!("{}0", start), format!("{}200", start), format!("{}400", start)]);
}

#[test]
fn a_full_last_page_is_followed_by_an_empty_one() {
    let paging = more(get_work_items(Paging::start(), Reply::Delivered(page(0, 200))));
    match get_work_items(paging, Reply::Delivered(vec![])) {
        PageStep::Done(Ok(all)) => assert_eq!(all.len(), 200),
        _ => panic!("not over"),
    }
}

#[test]
fn a_refused_page_ends_the_reading() {
    let paging = more(get_work_items(Paging::start(), Reply::Delivered(page(0, 200))));
    match get_work_items(paging, refused("500 Oops")) {
        PageStep::Done(Ok(all)) => assert_eq!(all.len(), 200),
        _ => panic!("not over"),
    }
    let step = get_work_items(Paging::start(), Reply::Unreachable("down".into()));
    assert!(matches!(step, PageStep::Done(Err(e)) if e == "down"));
    let step = get_work_items(Paging::start(), Reply::Garbled("bad".into()));
    assert!(matches!(step, PageStep::Done(Err(e)) if e == "bad"));
}

#[test]
fn work_item_has_the_comment_and_the_marker() {
    let with = work_item_on(5, 30, "Standup", "toggl-123", &Some("72-1".to_string()));
    assert_eq!(with.date, 5);
    assert_eq!(with.minutes, 30);
    assert_eq!(with.text, "Standup\n\n[synclock:toggl-123]");
    assert_eq!(with.type_id, Some("72-1".to_string()));
    let without = work_item_on(5, 30, "", "early-a", &Some(String::new()));
    assert_eq!(without.text, "[synclock:early-a]");
    assert_eq!(without.type_id, None);
    assert_eq!(work_item_on(5, 30, "", "early-a", &None).type_id, None);
    assert!(is_already_synced(&[item(&with.text)], "toggl-123"));
    assert!(!is_already_synced(&[item(&with.text)], "toggl-12"));
}

#[test]
fn work_item_is_on_a_whole_day() {
    let w = add_work_item(30, "2026-05-26T23:00:00.000", "c", "m", &None);
    assert_eq!(w.date % 86_400_000, 0);
    assert_eq!(w.date, started_to_local_day_ms("2026-05-26T23:00:00.000"));
    let noon = 1_779_796_800_000;
    assert!((w.date - noon).abs() <= 2 * 86_400_000);
}

#[test]
fn forms_of_a_start_are_the_same_day() {
    let day = started_to_local_day_ms("2026-05-26T12:00:00.000");
    assert_eq!(started_to_local_day_ms("2026-05-26T12:00:00"), day);
    assert_eq!(started_to_local_day_ms("2026-05-26T12:00:00Z"), day);
    assert_eq!(started_to_local_day_ms("2026-05-26T14:00:00+02:00"), day);
}

#[test]
fn an_unreadable_start_is_today() {
    let now = started_to_local_day_ms("unreadable");
    let then = started_to_local_day_ms("2026-01-01T12:00:00Z");
    assert!(now >= then);
    assert_eq!(now % 86_400_000, 0);
}

#[test]
fn local_day_of_a_moment() {
    // 2026-05-26T23:00:00 in UTC is the 27th two hours further east.
    let m = Moment { secs: 1_779_836_400, frac: 0 };
    assert_eq!(day_start_ms(m, 0), 1_779_753_600_000);
    assert_eq!(day_start_ms(m, 7200), 1_779_840_000_000);
    assert_eq!(day_start_ms(Moment { secs: -1, frac: 0 }, 0), -86_400_000);
}
