use synclock::auto_sync::{start_auto_sync, AutoSync};
use synclock::clock::local_today;
use synclock::config::AppConfig;
use synclock::early::Activity;
use synclock::panel::{
    check_status, get_early_activities, menu_action, update_tray_icon, MenuAction, TrayIcon,
};
use synclock::sync::SyncResponse;

fn daily(time: &str) -> AppConfig {
    let mut cfg = AppConfig::default();
    cfg.auto_sync_enabled = true;
    cfg.auto_sync_time = time.into();
    cfg
}

fn response(synced: usize) -> SyncResponse {
    SyncResponse { synced, skipped: 0, failed: 0, results: vec![] }
}

#[test]
fn daily_sync_waits_for_its_time() {
    let auto = AutoSync::start();
    let cfg = daily("19:00");
    assert!(!auto.due(&cfg, "2026-04-01", "18:59"));
    assert!(auto.due(&cfg, "2026-04-01", "19:00"));
    assert!(auto.due(&cfg, "2026-04-01", "23:59"));
    assert!(!auto.due(&cfg, "2026-04-01", "09:30"));
    assert!(!auto.due(&AppConfig::default(), "2026-04-01", "23:59"));
}

#[test]
fn daily_sync_runs_once_a_day() {
    let mut auto = AutoSync::start();
    let cfg = daily("08:00");
    assert_eq!(auto.synced("2026-04-01".into(), &Err("down".into())), None);
    assert!(auto.due(&cfg, "2026-04-01", "08:01"));
    assert_eq!(
        auto.synced("2026-04-01".into(), &Ok(response(12))),
        Some("Auto-synced 12 entries to Jira".to_string())
    );
    assert!(!auto.due(&cfg, "2026-04-01", "08:02"));
    assert!(!auto.due(&daily("00:00"), "2026-04-01", "23:59"));
    assert!(auto.due(&cfg, "2026-04-02", "08:00"));
    assert_eq!(auto.synced("2026-04-02".into(), &Ok(response(0))), None);
    assert!(!auto.due(&cfg, "2026-04-02", "09:00"));
}

#[test]
fn daily_sync_asks_the_clock() {
    let auto = AutoSync::start();
    assert_eq!(auto.check(&AppConfig::default()), None);
    assert_eq!(auto.check(&daily("24:00")), None);
    let today = auto.check(&daily("00:00")).unwrap();
    assert!(chrono::NaiveDate::parse_from_str(&today, "%Y-%m-%d").is_ok());
    let mut done = AutoSync::start();
    done.synced(today, &Ok(response(1)));
    let again = done.check(&daily("00:00"));
    assert!(again.is_none() || again.unwrap() != done.last_sync_date);
}

#[test]
fn date_on_the_clock() {
    let before = chrono::Local::now().format("%Y-%m-%d").to_string();
    let today = local_today();
    let after = chrono::Local::now().format("%Y-%m-%d").to_string();
    assert!(today == before || today == after);
}

#[test]
fn daily_sync_is_due_from_its_time_on() {
    let auto = AutoSync::start();
    for (time, now, due) in [
        ("07:05", "07:04", false),
        ("07:05", "07:05", true),
        ("07:05", "10:00", true),
        ("19:00", "09:59", false),
        ("00:00", "00:00", true),
        ("23:59", "23:58", false),
    ] {
        assert_eq!(auto.due(&daily(time), "2026-04-01", now), due);
    }
}

#[test]
fn daily_sync_is_started_once() {
    let mut running = false;
    let first = start_auto_sync(&mut running);
    assert_eq!(first.map(|a| a.last_sync_date), Some(String::new()));
    assert!(running);
    assert!(start_auto_sync(&mut running).is_none());
    assert!(running);
}

#[test]
fn status_of_the_settings() {
    let cfg = AppConfig::default();
    let s = check_status(&cfg, true, Err("no".into()));
    assert_eq!(s.provider, "early");
    assert!(s.provider_ok);
    assert_eq!(s.target, "jira");
    assert_eq!(s.target_check, Err("no".to_string()));
    assert!(!s.configured);
}

#[test]
fn activities_are_sorted_by_name() {
    let act = |id: &str, name: &str| Activity { id: id.into(), name: name.into(), color: "fff".into() };
    let list = get_early_activities(vec![act("1", "beta"), act("2", "Alpha"), act("3", "ALPHA"), act("4", "alp")]);
    let found: Vec<(&str, &str)> = list.iter().map(|a| (a.id.as_str(), a.name.as_str())).collect();
    assert_eq!(found, vec![("4", "alp"), ("2", "Alpha"), ("3", "ALPHA"), ("1", "beta")]);
    assert_eq!(list[0].color, "fff");
}

#[test]
fn tray_icon_of_a_style() {
    assert_eq!(update_tray_icon("mono"), TrayIcon::Mono);
    assert_eq!(update_tray_icon("color"), TrayIcon::Color);
    assert_eq!(update_tray_icon(""), TrayIcon::Color);
}

#[test]
fn actions_of_the_menu() {
    assert_eq!(menu_action("quit"), MenuAction::Quit);
    assert_eq!(menu_action("settings"), MenuAction::ShowSettings);
    assert_eq!(menu_action("sync_today"), MenuAction::SyncToday);
    assert_eq!(menu_action("other"), MenuAction::Nothing);
}
