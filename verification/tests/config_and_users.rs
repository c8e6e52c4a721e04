use stock_analysis::numtext::Threshold;
use stock_analysis::config::{Config, ScheduleConfig};
use stock_analysis::user_store::{user_path, AlertCondition, UserData};

fn config() -> Config {
    Config {
        telegram_token: "t".to_string(),
        gemini_api_key: "k".to_string(),
        gemini_model: "gemini-2.0-flash".to_string(),
        admin_ids: vec!["1".to_string()],
        allowed_users: vec!["1".to_string(), "2".to_string()],
        schedule: ScheduleConfig { interval_minutes: 30, key_times: vec!["09:30".to_string(), "13:25".to_string()] },
    }
}

#[test]
fn admins_and_allowed_users() {
    let c = config();
    assert!(c.is_admin("1"));
    assert!(!c.is_admin("2"));
    assert!(c.is_allowed("2"));
    assert!(!c.is_allowed("3"));
}

#[test]
fn add_user_is_idempotent_and_remove_undoes_it() {
    let mut c = config();
    c.add_user("3");
    assert!(c.is_allowed("3"));
    c.add_user("3");
    assert_eq!(c.allowed_users, vec!["1", "2", "3"]);
    c.remove_user("3");
    assert_eq!(c.allowed_users, vec!["1", "2"]);
    assert!(!c.is_allowed("3"));
    assert!(c.is_allowed("2"));
}

#[test]
fn remove_user_drops_every_copy() {
    let mut c = config();
    c.allowed_users.push("2".to_string());
    c.remove_user("2");
    assert_eq!(c.allowed_users, vec!["1"]);
}

#[test]
fn new_user_data() {
    let u = UserData::default();
    assert!(u.stocks.is_empty());
    assert!(u.schedule.interval_enabled);
    assert!(u.alerts.is_empty());
}

#[test]
fn watch_list_updates() {
    let mut u = UserData::default();
    assert!(u.add_stock("2330.TW"));
    assert!(!u.add_stock("2330.TW"));
    assert!(u.add_stock("6488.TWO"));
    u.add_alert("2330.TW", AlertCondition { kind: "price_below".to_string(), value: Threshold::Amount(90000) });
    u.add_alert("2330.TW", AlertCondition { kind: "price_above".to_string(), value: Threshold::Amount(100000) });
    u.add_alert("6488.TWO", AlertCondition { kind: "volume_above".to_string(), value: Threshold::Amount(100000) });
    let a = u.alerts_for("2330.TW");
    assert_eq!(a.len(), 2);
    assert_eq!(a[1].kind, "price_above");
    assert!(u.remove_stock("2330.TW"));
    assert!(!u.has_stock("2330.TW"));
    assert!(u.alerts_for("2330.TW").is_empty());
    assert_eq!(u.alerts_for("6488.TWO").len(), 1);
    assert!(!u.remove_stock("2330.TW"));
    u.set_interval_enabled(false);
    assert!(!u.schedule.interval_enabled);
}

#[test]
fn user_file_paths() {
    assert_eq!(user_path("12345"), "users/12345.json");
    assert_eq!(user_path("-100"), "users/-100.json");
    assert_eq!(user_path("/abs"), "/abs.json");
}
