use quota_dial::domain::{DashboardSnapshot, QuotaView};
use quota_dial::notifications::NotificationTracker;
use quota_dial::settings::{autolaunch_change, AppSettings, PaceMode, ThemePreference};
use std::time::Duration;

#[test]
fn settings_defaults_match_the_product_contract() {
    let settings = AppSettings::default();
    assert_eq!(settings.theme, ThemePreference::System);
    assert_eq!(settings.pace_mode, PaceMode::Suggested);
    assert_eq!(settings.account_refresh_mins, 1);
    assert_eq!(settings.session_scan_mins, 10);
    assert_eq!(settings.monthly_subscription_usd, 20_000_000);
    assert!(!settings.launch_at_login);
    assert_eq!(settings.warning_remaining_percent, 25);
    assert_eq!(settings.critical_remaining_percent, 10);
    assert!(settings.validate().is_ok());
}

#[test]
fn settings_reject_inverted_notification_thresholds() {
    let settings = AppSettings {
        warning_remaining_percent: 10,
        critical_remaining_percent: 25,
        ..AppSettings::default()
    };
    assert_eq!(settings.validate().unwrap_err(), "紧急阈值必须低于提醒阈值");
}

#[test]
fn disabled_thresholds_do_not_block_other_preferences() {
    let settings = AppSettings {
        quota_warning_enabled: false,
        warning_remaining_percent: 5,
        critical_remaining_percent: 10,
        ..AppSettings::default()
    };
    assert!(settings.validate().is_ok());
}

#[test]
fn settings_expose_runtime_refresh_durations() {
    let settings = AppSettings {
        account_refresh_mins: 5,
        session_scan_mins: 30,
        ..AppSettings::default()
    };
    assert_eq!(settings.account_refresh_duration(), Duration::from_secs(300));
    assert_eq!(settings.session_scan_duration(), Duration::from_secs(1_800));
}

#[test]
fn settings_name_the_first_rule_broken() {
    let refresh = AppSettings { account_refresh_mins: 2, ..AppSettings::default() };
    assert_eq!(refresh.validate().unwrap_err(), "账号刷新间隔无效");
    let scan = AppSettings { session_scan_mins: 7, ..AppSettings::default() };
    assert_eq!(scan.validate().unwrap_err(), "会话扫描间隔无效");
    let price = AppSettings { monthly_subscription_usd: 0, ..AppSettings::default() };
    assert_eq!(price.validate().unwrap_err(), "月订阅价格无效");
    let stale = AppSettings { stale_after_mins: 0, ..AppSettings::default() };
    assert_eq!(stale.validate().unwrap_err(), "通知设置无效");
}

fn snapshot(remaining: f64, resets_at: i64, observed_at: i64) -> DashboardSnapshot {
    let remaining_micro = (remaining * 1_000_000.0).round() as i32;
    let mut snapshot = DashboardSnapshot::default();
    snapshot.observed_at = observed_at;
    snapshot.primary_quota = Some(QuotaView {
        limit_id: "codex".into(),
        label: "7 日额度".into(),
        window_kind: "primary".into(),
        used_percent: 100_000_000 - remaining_micro,
        remaining_percent: remaining_micro,
        window_duration_mins: 10_080,
        resets_at,
        plan_type: None,
    });
    snapshot
}

#[test]
fn critical_threshold_wins_over_warning_and_is_keyed_to_cycle() {
    let mut tracker = NotificationTracker::new();
    let events = tracker.evaluate(&snapshot(8.0, 2_000, 1_000), &AppSettings::default(), 1_000);
    assert_eq!(events.len(), 1);
    assert_eq!(events[0].key, "quota:2000:critical");
    assert_eq!(events[0].body, "7 日额度仅剩 8%");
}

#[test]
fn reset_and_stale_are_emitted_once_per_transition() {
    let mut tracker = NotificationTracker::new();
    let settings = AppSettings::default();
    tracker.evaluate(&snapshot(80.0, 2_000, 1_000), &settings, 1_000);
    let reset = tracker.evaluate(&snapshot(100.0, 3_000, 1_100), &settings, 1_100);
    assert!(reset.iter().any(|event| event.key == "quota:3000:reset"));

    let stale = tracker.evaluate(&snapshot(100.0, 3_000, 1_100), &settings, 2_001);
    assert!(stale.iter().any(|event| event.key == "stale:1100"));
    let repeated = tracker.evaluate(&snapshot(100.0, 3_000, 1_100), &settings, 2_100);
    assert!(repeated.iter().all(|event| event.key != "stale:1100"));
}

#[test]
fn warning_names_the_remaining_share() {
    let mut tracker = NotificationTracker::new();
    let events = tracker.evaluate(&snapshot(20.0, 2_000, 1_000), &AppSettings::default(), 1_000);
    assert_eq!(events.len(), 1);
    assert_eq!(events[0].key, "quota:2000:warning");
    assert_eq!(events[0].title, "Codex 额度提醒");
}

#[test]
fn saving_settings_only_toggles_login_launch_when_it_differs() {
    assert_eq!(autolaunch_change(true, false), Some(true));
    assert_eq!(autolaunch_change(false, true), Some(false));
    assert_eq!(autolaunch_change(true, true), None);
}

#[test]
fn stale_notifies_once_per_episode_over_a_history() {
    let mut tracker = NotificationTracker::new();
    let settings = AppSettings::default();
    let stale_keys = |events: Vec<quota_dial::notifications::NotificationEvent>| {
        events.into_iter().filter(|e| e.key.starts_with("stale:")).count()
    };
    assert_eq!(stale_keys(tracker.evaluate(&snapshot(80.0, 2_000, 1_000), &settings, 5_000)), 1);
    assert_eq!(stale_keys(tracker.evaluate(&snapshot(80.0, 2_000, 1_000), &settings, 6_000)), 0);
    assert_eq!(stale_keys(tracker.evaluate(&snapshot(80.0, 2_000, 7_000), &settings, 7_000)), 0);
    assert_eq!(stale_keys(tracker.evaluate(&snapshot(80.0, 2_000, 7_000), &settings, 9_000)), 1);
}

#[test]
fn reset_notifies_once_per_new_reset_time_over_a_history() {
    let mut tracker = NotificationTracker::new();
    let settings = AppSettings::default();
    let resets = |events: Vec<quota_dial::notifications::NotificationEvent>| {
        events.into_iter().filter(|e| e.key.ends_with(":reset")).count()
    };
    assert_eq!(resets(tracker.evaluate(&snapshot(80.0, 2_000, 1_000), &settings, 1_000)), 0);
    assert_eq!(resets(tracker.evaluate(&DashboardSnapshot { observed_at: 1_050, ..DashboardSnapshot::default() }, &settings, 1_050)), 0);
    assert_eq!(resets(tracker.evaluate(&snapshot(90.0, 3_000, 1_100), &settings, 1_100)), 1);
    assert_eq!(resets(tracker.evaluate(&snapshot(85.0, 3_000, 1_200), &settings, 1_200)), 0);
}
