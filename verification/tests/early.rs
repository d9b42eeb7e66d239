use synclock::early::{
    accept_token, clean_note_text, clear_token_cache, day_window, early_fetch, early_url,
    extract_jira_keys, get_duration_minutes, get_time_entries, get_token,
    local_datetime_to_utc_string, naive_utc_ms, time_entries_path, utc_string_of, Attempt,
    Duration, FetchStep,
    Note, NoteMention, NoteTag, TimeEntry, TokenStep, ACTIVITIES_PATH, SIGN_IN_PATH,
};
use synclock::clock::Moment;
use synclock::http::Reply;

fn make_entry(note_text: Option<&str>, mentions: Vec<(&str, i64)>, tags: Vec<(&str, i64)>) -> TimeEntry {
    TimeEntry {
        id: "1".into(),
        activity_id: "100".into(),
        duration: Duration {
            started_at: "2026-04-01T07:00:00.000".into(),
            stopped_at: "2026-04-01T07:30:00.000".into(),
        },
        note: Some(Note {
            text: note_text.map(|s| s.into()),
            mentions: mentions.into_iter().map(|(label, id)| NoteMention { id, label: Some(label.into()) }).collect(),
            tags: tags.into_iter().map(|(label, id)| NoteTag { id, label: Some(label.into()) }).collect(),
        }),
    }
}

fn spanning(started_at: &str, stopped_at: &str) -> TimeEntry {
    TimeEntry {
        id: "1".into(),
        activity_id: "100".into(),
        duration: Duration { started_at: started_at.into(), stopped_at: stopped_at.into() },
        note: None,
    }
}

// ── extract_jira_keys ──

#[test]
fn extract_keys_from_mentions() {
    let entry = make_entry(None, vec![("SYNC-42", 1)], vec![]);
    let keys = extract_jira_keys(&entry);
    assert_eq!(keys, vec!["SYNC-42"]);
}

#[test]
fn extract_keys_from_tags() {
    let entry = make_entry(None, vec![], vec![("WEB-789", 1)]);
    let keys = extract_jira_keys(&entry);
    assert_eq!(keys, vec!["WEB-789"]);
}

#[test]
fn extract_keys_from_note_text() {
    let entry = make_entry(Some("Working on CORE-10 and API-55"), vec![], vec![]);
    let mut keys = extract_jira_keys(&entry);
    keys.sort();
    assert_eq!(keys, vec!["API-55", "CORE-10"]);
}

#[test]
fn extract_keys_deduplicates() {
    let entry = make_entry(Some("SYNC-42 stuff"), vec![("SYNC-42", 1)], vec![]);
    let keys = extract_jira_keys(&entry);
    assert_eq!(keys.len(), 1);
    assert_eq!(keys[0], "SYNC-42");
}

#[test]
fn extract_keys_no_match() {
    let entry = make_entry(Some("no jira keys here"), vec![], vec![]);
    let keys = extract_jira_keys(&entry);
    assert!(keys.is_empty());
}

#[test]
fn extract_keys_no_note() {
    let entry = TimeEntry {
        id: "1".into(),
        activity_id: "100".into(),
        duration: Duration { started_at: "2026-04-01T07:00:00.000".into(), stopped_at: "2026-04-01T07:30:00.000".into() },
        note: None,
    };
    assert!(extract_jira_keys(&entry).is_empty());
}

#[test]
fn extract_keys_ignores_lowercase() {
    let entry = make_entry(Some("is-123 not a key"), vec![], vec![]);
    assert!(extract_jira_keys(&entry).is_empty());
}

#[test]
fn a_label_gives_its_first_key_only() {
    let entry = make_entry(Some("Z-1 AB-3, AB-3"), vec![("AA-1 and BB-2", 1)], vec![("CC-3 DD-4", 2)]);
    assert_eq!(extract_jira_keys(&entry), vec!["AA-1", "CC-3", "AB-3"]);
}

#[test]
fn keys_are_whole_words() {
    let entry = make_entry(Some("xAB-1 AB-12x AB-1-2 A1B2-30_ (CD-7) é_EF-1"), vec![], vec![]);
    assert_eq!(extract_jira_keys(&entry), vec!["AB-1", "CD-7"]);
}

// ── get_duration_minutes ──

#[test]
fn duration_30_minutes() {
    let entry = make_entry(None, vec![], vec![]);
    assert_eq!(get_duration_minutes(&entry), 30);
}

#[test]
fn duration_2_hours() {
    let entry = TimeEntry {
        id: "1".into(),
        activity_id: "100".into(),
        duration: Duration {
            started_at: "2026-04-01T07:00:00.000".into(),
            stopped_at: "2026-04-01T09:00:00.000".into(),
        },
        note: None,
    };
    assert_eq!(get_duration_minutes(&entry), 120);
}

#[test]
fn duration_invalid_returns_zero() {
    let entry = TimeEntry {
        id: "1".into(),
        activity_id: "100".into(),
        duration: Duration { started_at: "invalid".into(), stopped_at: "invalid".into() },
        note: None,
    };
    assert_eq!(get_duration_minutes(&entry), 0);
}

#[test]
fn duration_is_cut_to_whole_minutes() {
    let forward = spanning("2026-04-01T07:00:00.500", "2026-04-01T07:02:00.499");
    assert_eq!(get_duration_minutes(&forward), 1);
    let backward = spanning("2026-04-01T07:02:00.499", "2026-04-01T07:00:00.500");
    assert_eq!(get_duration_minutes(&backward), -1);
}

#[test]
fn exchanged_ends_give_a_negative_duration() {
    let there = spanning("2026-04-01T07:00:00.000", "2026-04-01T08:59:59.999");
    let back = spanning("2026-04-01T08:59:59.999", "2026-04-01T07:00:00.000");
    assert_eq!(get_duration_minutes(&there), 119);
    assert_eq!(get_duration_minutes(&back), -119);
}

#[test]
fn the_last_leap_second_of_the_calendar_is_written() {
    let end = utc_string_of("d", Some(Moment { secs: 8_210_266_876_799, frac: 1_500_000_000 }));
    assert_eq!(end, Ok("+262142-12-31T23:59:60.500".to_string()));
    assert!(local_datetime_to_utc_string("+262142-12-30", 23, 59, 59, 1500).is_ok());
}

// ── clean_note_text ──

#[test]
fn clean_removes_mention_markup() {
    assert_eq!(clean_note_text("<{{|m|487500|}}>"), "");
}

#[test]
fn clean_removes_tag_markup() {
    assert_eq!(clean_note_text("<{|t|123|}>"), "");
}

#[test]
fn clean_preserves_surrounding_text() {
    assert_eq!(clean_note_text("Hello <{{|m|487500|}}> world"), "Hello  world");
}

#[test]
fn clean_no_markup() {
    assert_eq!(clean_note_text("just plain text"), "just plain text");
}

#[test]
fn clean_empty_string() {
    assert_eq!(clean_note_text(""), "");
}

#[test]
fn clean_multiple_markups() {
    assert_eq!(
        clean_note_text("<{{|m|100|}}> and <{{|m|200|}}>"),
        "and"
    );
}

#[test]
fn clean_keeps_what_is_no_markup() {
    assert_eq!(clean_note_text("<{{|x|1|}}>"), "<{{|x|1|}}>");
    assert_eq!(clean_note_text("<{|m||}>"), "<{|m||}>");
    assert_eq!(clean_note_text("a<{|m|7|}}>b"), "ab");
    assert_eq!(clean_note_text("\u{3000} a\tb \n"), "a\tb");
}

// ── local_datetime_to_utc_string ──

fn parse_utc_ms(s: &str) -> i64 {
    chrono::NaiveDateTime::parse_from_str(s, "%Y-%m-%dT%H:%M:%S%.3f")
        .unwrap()
        .and_utc()
        .timestamp_millis()
}

#[test]
fn day_bounds_span_full_day() {
    // 2026-05-26 has no DST transition in any common zone, so a local
    // [00:00:00.000 .. 23:59:59.999] window is exactly 86_399_999 ms wide
    // regardless of the machine's timezone offset.
    let start = local_datetime_to_utc_string("2026-05-26", 0, 0, 0, 0).unwrap();
    let end = local_datetime_to_utc_string("2026-05-26", 23, 59, 59, 999).unwrap();
    assert_eq!(parse_utc_ms(&end) - parse_utc_ms(&start), 86_399_999);
}

#[test]
fn produces_parseable_utc_format() {
    let s = local_datetime_to_utc_string("2026-01-15", 0, 0, 0, 0).unwrap();
    // Must round-trip through the same naive-UTC format the rest of the code uses.
    assert!(chrono::NaiveDateTime::parse_from_str(&s, "%Y-%m-%dT%H:%M:%S%.3f").is_ok());
}

#[test]
fn rejects_bad_date() {
    assert!(local_datetime_to_utc_string("not-a-date", 0, 0, 0, 0).is_err());
}

#[test]
fn bad_dates_and_times_are_named() {
    let e = local_datetime_to_utc_string("not-a-date", 0, 0, 0, 0).unwrap_err();
    assert!(e.starts_with("Invalid date 'not-a-date': "));
    assert!(e.len() > "Invalid date 'not-a-date': ".len());
    assert_eq!(
        local_datetime_to_utc_string("2026-01-15", 24, 0, 0, 0),
        Err("Invalid time for date '2026-01-15'".to_string())
    );
}

#[test]
fn window_is_the_whole_local_days() {
    let (start, end) = day_window("2026-05-26", "2026-05-27").unwrap();
    assert_eq!(parse_utc_ms(&end) - parse_utc_ms(&start), 2 * 86_400_000 - 1);
    assert!(day_window("x", "2026-05-27").unwrap_err().starts_with("Invalid date 'x'"));
    assert!(day_window("2026-05-26", "y").unwrap_err().starts_with("Invalid date 'y'"));
}

// ── naive_utc_ms ──

#[test]
fn parses_millis_form() {
    assert_eq!(naive_utc_ms("2026-05-26T23:00:00.000"), Some(1779836400000));
}

#[test]
fn parses_without_millis() {
    assert_eq!(
        naive_utc_ms("2026-05-26T23:00:00"),
        naive_utc_ms("2026-05-26T23:00:00.000")
    );
}

#[test]
fn naive_utc_ms_rejects_garbage() {
    assert_eq!(naive_utc_ms("nope"), None);
}

// ── get_time_entries ──

#[test]
fn entries_of_the_day_before_are_left_out() {
    let fetched = vec![
        spanning("2026-05-26T21:59:59.999", "2026-05-26T23:00:00.000"),
        spanning("2026-05-26T22:00:00.000", "2026-05-26T23:00:00.000"),
        spanning("unreadable", "2026-05-26T23:00:00.000"),
        spanning("2026-05-26T23:30:00", "2026-05-27T01:00:00.000"),
    ];
    let kept = get_time_entries(fetched.clone(), "2026-05-26T22:00:00.000");
    let starts: Vec<&str> = kept.iter().map(|e| e.duration.started_at.as_str()).collect();
    assert_eq!(starts, vec!["2026-05-26T22:00:00.000", "unreadable", "2026-05-26T23:30:00"]);
    assert_eq!(get_time_entries(fetched, "unreadable").len(), 4);
}

#[test]
fn an_entry_past_midnight_is_on_one_day() {
    let late = spanning("2026-05-26T23:30:00.000", "2026-05-27T00:30:00.000");
    assert_eq!(get_time_entries(vec![late.clone()], "2026-05-26T00:00:00.000").len(), 1);
    assert_eq!(get_time_entries(vec![late], "2026-05-27T00:00:00.000").len(), 0);
}

#[test]
fn paths_and_addresses() {
    assert_eq!(time_entries_path("a", "b"), "/time-entries/a/b");
    assert_eq!(early_url(SIGN_IN_PATH), "https://api.timeular.com/api/v3/developer/sign-in");
    assert_eq!(early_url(ACTIVITIES_PATH), "https://api.timeular.com/api/v3/activities");
}

// ── tokens ──

#[test]
fn token_is_taken_from_the_cache() {
    let cache = Some("T".to_string());
    assert!(matches!(get_token(&cache, None, None), TokenStep::Ready(t) if t == "T"));
}

#[test]
fn token_needs_credentials() {
    let key = Some("K".to_string());
    let secret = Some("S".to_string());
    assert!(matches!(
        get_token(&None, None, secret.clone()),
        TokenStep::Failed(e) if e == "EARLY_API_KEY not set"
    ));
    assert!(matches!(
        get_token(&None, key.clone(), None),
        TokenStep::Failed(e) if e == "EARLY_API_SECRET not set"
    ));
    assert!(matches!(
        get_token(&None, key, secret),
        TokenStep::SignIn { api_key, api_secret } if api_key == "K" && api_secret == "S"
    ));
}

fn refused<T>(code: u16, status: &str, body: &str) -> Reply<T> {
    Reply::Refused { code, status: status.into(), body: body.into() }
}

#[test]
fn sign_in_keeps_the_token() {
    let mut cache = None;
    assert_eq!(
        accept_token(&mut cache, Reply::Unreachable("down".into())),
        Err("Early auth request failed: down".to_string())
    );
    assert_eq!(
        accept_token(&mut cache, refused(403, "403 Forbidden", "no")),
        Err("Early auth failed (403 Forbidden): no".to_string())
    );
    assert_eq!(accept_token(&mut cache, Reply::Garbled("bad".into())), Err("bad".to_string()));
    assert_eq!(cache, None);
    assert_eq!(accept_token(&mut cache, Reply::Delivered("T".into())), Ok("T".to_string()));
    assert_eq!(cache, Some("T".to_string()));
    clear_token_cache(&mut cache);
    assert_eq!(cache, None);
}

fn done<T>(step: FetchStep<T>) -> Result<T, String> {
    match step {
        FetchStep::Done(r) => r,
        FetchStep::SignInAgain => panic!("not over"),
    }
}

#[test]
fn unauthorized_requests_are_tried_twice() {
    let mut cache = Some("old".to_string());
    let first = early_fetch::<u8>(&mut cache, Attempt::First, refused(401, "401 Unauthorized", ""));
    assert!(matches!(first, FetchStep::SignInAgain));
    assert_eq!(cache, None);
    cache = Some("new".to_string());
    let second = early_fetch::<u8>(&mut cache, Attempt::Second, refused(401, "401 Unauthorized", "x"));
    assert_eq!(done(second), Err("Early API error (401 Unauthorized)".to_string()));
    assert_eq!(cache, Some("new".to_string()));
}

#[test]
fn failed_requests_are_told() {
    let mut cache = Some("T".to_string());
    assert_eq!(
        done(early_fetch::<u8>(&mut cache, Attempt::First, refused(500, "500 Oops", "why"))),
        Err("Early API error (500 Oops): why".to_string())
    );
    assert_eq!(
        done(early_fetch::<u8>(&mut cache, Attempt::Second, refused(500, "500 Oops", "why"))),
        Err("Early API error (500 Oops)".to_string())
    );
    assert_eq!(
        done(early_fetch::<u8>(&mut cache, Attempt::First, Reply::Unreachable("down".into()))),
        Err("Early API error: down".to_string())
    );
    assert_eq!(
        done(early_fetch::<u8>(&mut cache, Attempt::First, Reply::Garbled("bad".into()))),
        Err("bad".to_string())
    );
    assert_eq!(done(early_fetch(&mut cache, Attempt::First, Reply::Delivered(7u8))), Ok(7));
}
