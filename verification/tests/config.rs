use synclock::config::{
    apply_to_env, default_auto_sync_time, default_provider, default_target, default_tray_icon,
    get_config, load_config, save_config, AppConfig, Caches,
};
use synclock::string_map::StringMap;

fn early_to_jira() -> AppConfig {
    let mut cfg = AppConfig::default();
    cfg.early_api_key = "k".into();
    cfg.early_api_secret = "s".into();
    cfg.jira_base_url = "https://site".into();
    cfg.jira_email = "me".into();
    cfg.jira_api_token = "t".into();
    cfg
}

#[test]
fn defaults() {
    let cfg = load_config(None);
    assert_eq!(cfg.provider, default_provider());
    assert_eq!(cfg.provider, "early");
    assert_eq!(cfg.target, default_target());
    assert_eq!(cfg.target, "jira");
    assert_eq!(cfg.auto_sync_time, default_auto_sync_time());
    assert_eq!(cfg.auto_sync_time, "19:00");
    assert_eq!(cfg.tray_icon, default_tray_icon());
    assert_eq!(cfg.tray_icon, "color");
    assert!(!cfg.auto_sync_enabled);
    assert_eq!(cfg.early_api_key, "");
    assert_eq!(cfg.default_issue_key, "");
    assert_eq!(cfg.activity_type_map.pairs().len(), 0);
    assert!(!cfg.is_configured());
}

#[test]
fn settings_that_were_read_are_taken() {
    let mut read = early_to_jira();
    read.activity_type_map.insert("a".into(), "t".into());
    let cfg = get_config(&load_config(Some(read)));
    assert_eq!(cfg.early_api_key, "k");
    assert_eq!(cfg.activity_type_map.get("a"), Some("t".to_string()));
    assert_eq!(cfg.activity_type_map.get("b"), None);
}

#[test]
fn every_credential_is_needed() {
    assert!(early_to_jira().is_configured());
    let mut cfg = early_to_jira();
    cfg.early_api_secret = String::new();
    assert!(!cfg.is_configured());
    let mut cfg = early_to_jira();
    cfg.jira_email = String::new();
    assert!(!cfg.is_configured());
    let mut cfg = early_to_jira();
    cfg.jira_base_url = String::new();
    assert!(!cfg.is_configured());
    let mut cfg = early_to_jira();
    cfg.jira_api_token = String::new();
    assert!(!cfg.is_configured());
    let mut cfg = early_to_jira();
    cfg.early_api_key = String::new();
    assert!(!cfg.is_configured());
}

#[test]
fn credentials_of_the_choice_count() {
    let mut cfg = early_to_jira();
    cfg.provider = "toggl".into();
    assert!(!cfg.is_configured());
    cfg.toggl_api_token = "t".into();
    assert!(cfg.is_configured());
    cfg.early_api_key = String::new();
    assert!(cfg.is_configured());
    cfg.target = "youtrack".into();
    assert!(!cfg.is_configured());
    cfg.youtrack_base_url = "https://yt".into();
    assert!(!cfg.is_configured());
    cfg.youtrack_token = "t".into();
    assert!(cfg.is_configured());
    cfg.target = "anything".into();
    assert!(cfg.is_configured());
    cfg.provider = "anything".into();
    assert!(!cfg.is_configured());
}

#[test]
fn environment_of_the_settings() {
    let mut cfg = early_to_jira();
    cfg.toggl_api_token = "tt".into();
    let env = apply_to_env(&cfg);
    let expected = vec![
        ("EARLY_API_KEY", "k"),
        ("EARLY_API_SECRET", "s"),
        ("TOGGL_API_TOKEN", "tt"),
        ("JIRA_BASE_URL", "https://site"),
        ("JIRA_EMAIL", "me"),
        ("JIRA_API_TOKEN", "t"),
    ];
    let found: Vec<(&str, &str)> = env.iter().map(|(k, v)| (k.as_str(), v.as_str())).collect();
    assert_eq!(found, expected);
}

fn filled() -> Caches {
    let mut aliases = StringMap::new();
    aliases.insert("A-1".into(), "B-1".into());
    Caches {
        early_token: Some("t".into()),
        jira_cloud_id: Some("c".into()),
        youtrack_aliases: aliases,
    }
}

#[test]
fn saving_drops_what_was_kept() {
    let mut current = AppConfig::default();
    let mut caches = filled();
    assert_eq!(save_config(&mut current, &mut caches, early_to_jira(), Ok(())), Ok(()));
    assert_eq!(current.early_api_key, "k");
    assert_eq!(caches.early_token, None);
    assert_eq!(caches.jira_cloud_id, None);
    assert_eq!(caches.youtrack_aliases.get("A-1"), None);
}

#[test]
fn settings_that_were_not_written_are_not_taken() {
    let mut current = AppConfig::default();
    let mut caches = filled();
    let r = save_config(&mut current, &mut caches, early_to_jira(), Err("full".into()));
    assert_eq!(r, Err("full".to_string()));
    assert_eq!(current.early_api_key, "");
    assert_eq!(caches.early_token, Some("t".to_string()));
    assert_eq!(caches.youtrack_aliases.get("A-1"), Some("B-1".to_string()));
}

#[test]
fn a_map_holds_the_last_value_of_a_key() {
    let mut map = StringMap::new();
    map.insert("a".into(), "1".into());
    map.insert("b".into(), "2".into());
    map.insert("a".into(), "3".into());
    assert_eq!(map.get("a"), Some("3".to_string()));
    assert_eq!(map.get("b"), Some("2".to_string()));
    assert_eq!(map.pairs().len(), 2);
    let copy = map.clone();
    map.clear();
    assert_eq!(map.get("a"), None);
    assert_eq!(copy.get("a"), Some("3".to_string()));
}
