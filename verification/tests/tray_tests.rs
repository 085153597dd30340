use quota_dial::tray::{fallback_panel_position, live_icon, monitor_containing, tray_tooltip, LiveIcon};
use quota_dial::badge::{badge_face, digit_segments, BadgeTone};
use quota_dial::domain::{
    AccountUsageView, DailyUsageBucket, DashboardSnapshot, QuotaView, SessionSummary,
    TokenBreakdown, TrayPanelSnapshot,
};
use quota_dial::forecast::{ExhaustionForecast, ForecastConfidence, ForecastStatus};
use quota_dial::ratio::Ratio;
use quota_dial::tray::{
    format_token_count, menu_action, menu_state, opens_panel_from_tray, should_hide_on_close,
    tray_dial_state, tray_panel_position, tray_title, usage_progress, uses_native_menu_bar,
    MenuAction, TrayButton, TrayButtonState, TrayDialState,
};

fn session(index: usize, path: Option<&str>) -> SessionSummary {
    SessionSummary {
        session_id: format!("session-{index}"),
        title: format!("会话 {index}"),
        project_path: path.map(|p| p.to_string()),
        last_active_at: 1_785_330_000,
        primary_model: None,
        tokens: TokenBreakdown::default(),
        monthly_tokens: TokenBreakdown::default(),
        equivalent_cost_usd: None,
        monthly_equivalent_cost_usd: None,
        priced_tokens: 0,
        unpriced_tokens: 0,
        monthly_priced_tokens: 0,
        monthly_unpriced_tokens: 0,
        child_session_count: 0,
    }
}

fn snapshot_with_quota_and_sessions() -> DashboardSnapshot {
    let mut snapshot = DashboardSnapshot::default();
    snapshot.observed_at = 1_785_330_000;
    snapshot.is_stale = false;
    snapshot.primary_quota = Some(QuotaView {
        limit_id: "codex".into(),
        label: "7 日额度".into(),
        window_kind: "primary".into(),
        used_percent: 25_000_000,
        remaining_percent: 75_000_000,
        window_duration_mins: 10_080,
        resets_at: 1_785_903_626,
        plan_type: Some("plus".into()),
    });
    snapshot.account_usage = Some(AccountUsageView {
        lifetime_tokens: None,
        peak_daily_tokens: None,
        daily_usage_buckets: vec![DailyUsageBucket {
            start_date: "2026-07-29".into(),
            tokens: 31_736_527,
        }],
    });
    snapshot.forecast = Some(ExhaustionForecast {
        status: ForecastStatus::SurvivesWindow,
        rate_percent_per_hour: Ratio { num: 200_000, den: 1 },
        exhausts_at: None,
        confidence: ForecastConfidence::Medium,
        sample_count: 4,
        span_seconds: 7_200,
    });
    snapshot.local_sessions.sessions = (0..3).map(|index| session(index, None)).collect();
    snapshot
}

#[test]
fn formats_remaining_quota_for_macos_title() {
    assert_eq!(tray_title(Some(82_400_000), false), "82%");
}

#[test]
fn marks_stale_quota_without_inventing_a_value() {
    assert_eq!(tray_title(Some(82_400_000), true), "82%?");
    assert_eq!(tray_title(None, true), "Codex?");
}

#[test]
fn shows_product_name_before_first_observation() {
    assert_eq!(tray_title(None, false), "Codex");
}

#[test]
fn maps_snapshot_to_live_dial_state() {
    let snapshot = snapshot_with_quota_and_sessions();
    assert_eq!(
        tray_dial_state(&snapshot),
        TrayDialState { used_percent: Some(25_000_000), stale: false }
    );
}

#[test]
fn maps_missing_quota_to_neutral_dial_state() {
    let mut snapshot = DashboardSnapshot::default();
    snapshot.is_stale = true;
    assert_eq!(tray_dial_state(&snapshot), TrayDialState { used_percent: None, stale: true });
}

#[test]
fn formats_complete_menu_status_from_one_snapshot() {
    let state = menu_state(&snapshot_with_quota_and_sessions());
    assert_eq!(state.quota, "额度剩余 75% · 已用 25%");
    assert_eq!(state.progress, "消耗  ███░░░░░░░  25%");
    assert!(state.reset.starts_with("重置  8 月 5 日"));
    assert_eq!(state.forecast, "预测  重置前不会耗尽");
    assert_eq!(state.today_tokens, "今日 Token  3173.7 万");
    assert_eq!(state.sessions, "本机会话  3 个");
}

#[test]
fn formats_missing_account_data_without_hiding_local_sessions() {
    let mut snapshot = DashboardSnapshot::default();
    snapshot.local_sessions = snapshot_with_quota_and_sessions().local_sessions;
    let state = menu_state(&snapshot);
    assert_eq!(state.quota, "额度暂不可用");
    assert_eq!(state.sessions, "本机会话  3 个");
}

#[test]
fn labels_a_delayed_daily_bucket_with_its_actual_date() {
    let mut snapshot = snapshot_with_quota_and_sessions();
    snapshot.observed_at = 1_785_383_781;
    let state = menu_state(&snapshot);
    assert_eq!(state.today_tokens, "7 月 29 日 Token  3173.7 万");
}

#[test]
fn only_the_main_window_is_hidden_instead_of_closed() {
    assert!(should_hide_on_close("main"));
    assert!(should_hide_on_close("tray-panel"));
    assert!(!should_hide_on_close("settings"));
}

#[test]
fn status_rows_do_not_trigger_actions() {
    for id in ["quota", "progress", "reset", "forecast", "today", "session-count", "updated"] {
        assert_eq!(menu_action(id), MenuAction::NoAction);
    }
    assert_eq!(menu_action("show"), MenuAction::ShowOverview);
    assert_eq!(menu_action("sessions"), MenuAction::NoAction);
    assert_eq!(menu_action("settings"), MenuAction::Settings);
}

#[test]
fn uses_native_menu_only_on_macos() {
    assert!(uses_native_menu_bar("macos"));
    assert!(!uses_native_menu_bar("windows"));
    assert!(!uses_native_menu_bar("linux"));
}

#[test]
fn windows_left_and_right_click_open_the_same_panel() {
    for (os, expected) in [("windows", true), ("linux", true), ("macos", false)] {
        assert_eq!(opens_panel_from_tray(os, TrayButton::Left, TrayButtonState::Up), expected);
        assert_eq!(opens_panel_from_tray(os, TrayButton::Right, TrayButtonState::Up), expected);
        assert!(!opens_panel_from_tray(os, TrayButton::Middle, TrayButtonState::Up));
        assert!(!opens_panel_from_tray(os, TrayButton::Left, TrayButtonState::Down));
    }
}

#[test]
fn positions_windows_flyout_above_and_inside_the_work_area() {
    let position = tray_panel_position((1_880, 1_060), (360, 496), (0, 0), (1_920, 1_080));
    assert_eq!(position.0, 1_550);
    assert_eq!(position.1, 552);
}

#[test]
fn maps_usage_to_a_ten_segment_progress_bar() {
    assert_eq!(usage_progress(0), "░░░░░░░░░░");
    assert_eq!(usage_progress(25_000_000), "███░░░░░░░");
    assert_eq!(usage_progress(50_000_000), "█████░░░░░");
    assert_eq!(usage_progress(75_000_000), "████████░░");
    assert_eq!(usage_progress(100_000_000), "██████████");
}

#[test]
fn progress_bar_keeps_ten_segments_for_out_of_range_usage() {
    assert_eq!(usage_progress(-5_000_000), "░░░░░░░░░░");
    assert_eq!(usage_progress(250_000_000), "██████████");
    assert_eq!(usage_progress(4_999_999).chars().count(), 10);
}

#[test]
fn formats_token_counts_in_chinese_units() {
    assert_eq!(format_token_count(31_736_527), "3173.7 万");
}

#[test]
fn normalizes_windows_paths_and_uses_latest_daily_bucket() {
    let mut snapshot = DashboardSnapshot::default();
    let mut first = session(1, Some("E:\\Research\\vispfn\\"));
    first.last_active_at = 1;
    let mut second = session(2, Some("e:/research/VISPFN"));
    second.last_active_at = 2;
    let mut third = session(3, None);
    third.last_active_at = 3;
    snapshot.local_sessions.sessions = vec![first, second, third];
    snapshot.account_usage = Some(AccountUsageView {
        lifetime_tokens: None,
        peak_daily_tokens: None,
        daily_usage_buckets: vec![
            DailyUsageBucket { start_date: "2026-08-01".into(), tokens: 80 },
            DailyUsageBucket { start_date: "2026-07-31".into(), tokens: 70 },
        ],
    });
    let compact = TrayPanelSnapshot::from(&snapshot);
    assert_eq!(compact.project_count, 2);
    assert_eq!(compact.latest_daily_tokens, Some(80));
}

#[test]
fn compact_snapshot_counts_projects_and_sessions() {
    let mut snapshot = DashboardSnapshot::default();
    snapshot.local_sessions.sessions =
        (0..1_000).map(|index| session(index, Some("E:\\Research\\vispfn"))).collect();
    let compact = TrayPanelSnapshot::from(&snapshot);
    assert_eq!(compact.project_count, 1);
    assert_eq!(compact.session_count, 1_000);
}

#[test]
fn windows_badge_shows_rounded_remaining_percentage_with_tone() {
    let face = badge_face(Some(82_400_000)).unwrap();
    assert_eq!(face.label, "82");
    assert_eq!(face.tone, BadgeTone::Calm);
    assert!(!face.narrow);
    let full = badge_face(Some(100_000_000)).unwrap();
    assert_eq!(full.label, "100");
    assert!(full.narrow);
    assert_eq!(badge_face(Some(15_000_000)).unwrap().tone, BadgeTone::Alert);
    assert_eq!(badge_face(Some(40_000_000)).unwrap().tone, BadgeTone::Caution);
    assert_eq!(badge_face(Some(-3_000_000)).unwrap().label, "0");
    assert_eq!(badge_face(Some(2_500_000)).unwrap().label, "2");
    assert!(badge_face(None).is_none());
}

#[test]
fn seven_segment_digits_light_the_expected_segments() {
    assert_eq!(digit_segments(8), [true; 7]);
    assert_eq!(digit_segments(1), [false, true, true, false, false, false, false]);
    assert_eq!(digit_segments(0), [true, true, true, true, true, true, false]);
}

#[test]
fn the_live_icon_is_a_dial_on_macos_and_a_badge_elsewhere() {
    assert_eq!(live_icon("macos"), LiveIcon::Dial { size: 44 });
    assert_eq!(live_icon("windows"), LiveIcon::Badge { size: 32 });
}

#[test]
fn the_panel_opens_on_the_monitor_under_the_click() {
    let monitors = vec![((0, 0), (1_920, 1_080)), ((1_920, 0), (2_560, 1_440))];
    assert_eq!(monitor_containing((1_880, 1_060), &monitors), Some(0));
    assert_eq!(monitor_containing((2_000, 100), &monitors), Some(1));
    assert_eq!(monitor_containing((-5, 100), &monitors), None);
    assert_eq!(fallback_panel_position((1_000, 900), (360, 496)), (820, 392));
}

#[test]
fn token_counts_round_half_tenths_to_even() {
    assert_eq!(format_token_count(12_500), "1.2 万");
    assert_eq!(format_token_count(13_500), "1.4 万");
    assert_eq!(format_token_count(10_449), "1.0 万");
    assert_eq!(format_token_count(125_000_000), "1.2 亿");
    assert_eq!(format_token_count(150_000_000), "1.5 亿");
}

#[test]
fn tooltip_shows_the_remaining_share_or_that_there_is_none() {
    assert_eq!(tray_tooltip(Some(42_400_000)), "QuotaDial · 剩余 42%");
    assert_eq!(tray_tooltip(Some(42_500_000)), "QuotaDial · 剩余 42%");
    assert_eq!(tray_tooltip(None), "QuotaDial · 额度暂不可用");
}
