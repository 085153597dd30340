use quota_dial::domain::{
    AccountUsageResult, DailyUsageBucket, DashboardSnapshot, RateLimitBucket, RateLimitsResult,
    RateObservation, RateWindow, UsageSummary,
};
use quota_dial::forecast::{forecast, ForecastConfidence, ForecastStatus};
use quota_dial::monitor::{
    after_rate_read, mark_disconnected, monitor_step, quota_views, refreshed_snapshot, retry_delay,
    LoopAction, RefreshNext,
    MonitorEvent,
};
use quota_dial::quota_trend::{
    build_trend, classify_pace, history_from_days, local_days, QuotaPaceStatus,
};
use quota_dial::ratio::Ratio;
use quota_dial::series::Sample;

fn samples(resets_at: i64, points: &[(i64, f64)]) -> Vec<RateObservation> {
    points
        .iter()
        .map(|(observed_at, used_percent)| RateObservation {
            observed_at: *observed_at,
            limit_id: "codex".into(),
            window_kind: "primary".into(),
            used_percent: (used_percent * 1_000_000.0).round() as i32,
            window_duration_mins: 10_080,
            resets_at,
        })
        .collect()
}

fn per_hour(rate: Ratio) -> f64 {
    rate.num as f64 / rate.den as f64 / 1_000_000.0
}

#[test]
fn predicts_exhaustion_before_reset_from_stable_samples() {
    let points = samples(200_000, &[(0, 10.0), (3_600, 14.0), (7_200, 18.0), (10_800, 22.0)]);
    let result = forecast(&points, 10_800, 200_000).unwrap();
    assert_eq!(result.status, ForecastStatus::DepletesBeforeReset);
    assert!((per_hour(result.rate_percent_per_hour) - 4.0).abs() < 0.01);
    assert_eq!(result.exhausts_at, Some(81_000));
}

#[test]
fn reports_not_expected_to_deplete_before_reset() {
    let points = samples(20_000, &[(0, 10.0), (7_200, 11.0), (14_400, 12.0)]);
    let result = forecast(&points, 14_400, 20_000).unwrap();
    assert_eq!(result.status, ForecastStatus::SurvivesWindow);
    assert_eq!(result.exhausts_at, None);
}

#[test]
fn rejects_samples_across_reset_boundaries() {
    let mut points = samples(20_000, &[(0, 10.0), (3_600, 12.0), (7_200, 14.0)]);
    points[0].resets_at = 19_000;
    assert_eq!(forecast(&points, 7_200, 20_000), None);
}

#[test]
fn requires_three_samples_spanning_thirty_minutes() {
    let too_few = samples(20_000, &[(0, 10.0), (3_600, 12.0)]);
    let too_short = samples(20_000, &[(0, 10.0), (600, 11.0), (1_200, 12.0)]);
    assert_eq!(forecast(&too_few, 3_600, 20_000), None);
    assert_eq!(forecast(&too_short, 1_200, 20_000), None);
}

#[test]
fn a_falling_used_percent_starts_a_new_segment() {
    let points = samples(
        30_000,
        &[(0, 40.0), (3_600, 50.0), (7_200, 2.0), (10_800, 4.0), (14_400, 6.0)],
    );
    let result = forecast(&points, 14_400, 30_000).unwrap();
    assert_eq!(result.sample_count, 3);
    assert!((per_hour(result.rate_percent_per_hour) - 2.0).abs() < 0.01);
}

#[test]
fn reports_no_measurable_burn_for_flat_usage() {
    let points = samples(30_000, &[(0, 10.0), (3_600, 10.01), (7_200, 10.02)]);
    let result = forecast(&points, 7_200, 30_000).unwrap();
    assert_eq!(result.status, ForecastStatus::NoMeasurableBurn);
    assert_eq!(result.exhausts_at, None);
}

#[test]
fn converts_used_percent_to_downward_remaining_history() {
    let trend = build_trend(&samples(2_000_000_000, &[(0, 10.0), (86_400, 25.0), (172_800, 40.0)]), 10_080);
    assert_eq!(
        trend.history.iter().map(|point| point.remaining_percent).collect::<Vec<_>>(),
        vec![90_000_000, 75_000_000, 60_000_000]
    );
}

#[test]
fn classifies_seven_day_pace_with_a_twenty_percent_band() {
    assert_eq!(classify_pace(Ratio { num: 10_000_000, den: 1 }, 10_080), QuotaPaceStatus::Slow);
    assert_eq!(classify_pace(Ratio { num: 14_285_700, den: 1 }, 10_080), QuotaPaceStatus::Normal);
    assert_eq!(classify_pace(Ratio { num: 18_000_000, den: 1 }, 10_080), QuotaPaceStatus::Fast);
}

#[test]
fn keeps_first_last_and_daily_latest_points_under_the_limit() {
    let dense = samples(
        2_000_000_000,
        &(0..80).map(|day| (1_700_000_000 + day * 86_400, day as f64)).collect::<Vec<_>>(),
    );
    let trend = build_trend(&dense, 10_080);
    assert!(trend.history.len() <= 64);
    assert_eq!(trend.history.first().unwrap().observed_at, dense.first().unwrap().observed_at);
    assert_eq!(trend.history.last().unwrap().observed_at, dense.last().unwrap().observed_at);
}

#[test]
fn waits_for_three_samples_and_thirty_minutes_before_classifying() {
    let trend = build_trend(&samples(2_000_000_000, &[(0, 10.0), (3_600, 12.0)]), 10_080);
    assert_eq!(trend.pace, None);
}

#[test]
fn pace_is_the_median_daily_slope_against_the_even_pace() {
    let trend = build_trend(
        &samples(2_000_000_000, &[(0, 10.0), (86_400, 30.0), (172_800, 50.0)]),
        10_080,
    );
    let pace = trend.pace.unwrap();
    assert_eq!(pace.sample_count, 3);
    assert!((pace.percent_per_day.num as f64 / pace.percent_per_day.den as f64 - 20_000_000.0).abs() < 1.0);
    assert_eq!(pace.ideal_percent_per_day, Ratio { num: 144_000_000_000, den: 10_080 });
    assert_eq!(pace.status, QuotaPaceStatus::Fast);
}

#[test]
fn history_keeps_the_latest_sample_of_each_day_once_per_time() {
    let seg = vec![
        Sample { observed_at: 10, used_percent: 1_000_000 },
        Sample { observed_at: 20, used_percent: 2_000_000 },
        Sample { observed_at: 30, used_percent: 3_000_000 },
        Sample { observed_at: 40, used_percent: 4_000_000 },
    ];
    let days = vec![Some((2026, 7, 1)), Some((2026, 7, 1)), Some((2026, 7, 2)), Some((2026, 7, 2))];
    let history = history_from_days(&seg, &days);
    assert_eq!(history.iter().map(|p| p.observed_at).collect::<Vec<_>>(), vec![10, 20, 40]);
    assert_eq!(history[1].remaining_percent, 98_000_000);
}

#[test]
fn history_thins_many_days_to_sixty_four_points() {
    let seg: Vec<Sample> = (0..200).map(|i| Sample { observed_at: i * 100, used_percent: 0 }).collect();
    let days: Vec<Option<(i32, u32, u32)>> = (0..200).map(|i| Some((2026, 1 + (i / 28) as u32, 1 + (i % 28) as u32))).collect();
    let history = history_from_days(&seg, &days);
    assert_eq!(history.len(), 64);
    assert_eq!(history[0].observed_at, 0);
    assert_eq!(history[63].observed_at, 19_900);
    assert_eq!(history[1].observed_at, 300);
}

fn window(used: i32, mins: i64, resets_at: i64) -> RateWindow {
    RateWindow { used_percent: used, window_duration_mins: mins, resets_at }
}

fn bucket(id: &str, primary: Option<RateWindow>, secondary: Option<RateWindow>) -> RateLimitBucket {
    RateLimitBucket {
        limit_id: id.into(),
        limit_name: None,
        primary,
        secondary,
        rate_limit_reached_type: None,
        plan_type: Some("plus".into()),
    }
}

#[test]
fn codex_primary_window_is_the_primary_quota() {
    let result = RateLimitsResult {
        rate_limits: None,
        by_limit_id: vec![
            ("a-other".into(), bucket("a-other", Some(window(5_000_000, 300, 10)), None)),
            (
                "codex".into(),
                bucket("codex", Some(window(18_000_000, 10_080, 200_000)), Some(window(3_000_000, 300, 9))),
            ),
        ],
        reset_credits: None,
    };
    let (primary, others) = quota_views(&result);
    let primary = primary.unwrap();
    assert_eq!(primary.limit_id, "codex");
    assert_eq!(primary.label, "7 日额度");
    assert_eq!(primary.remaining_percent, 82_000_000);
    assert_eq!(others.len(), 2);
    assert_eq!(others[0].label, "5 小时额度");
    assert_eq!(others[1].window_kind, "secondary");
}

#[test]
fn without_a_codex_limit_the_first_primary_window_is_primary() {
    let result = RateLimitsResult {
        rate_limits: Some(bucket("legacy", None, Some(window(150_000_000, 60, 1)))),
        by_limit_id: vec![],
        reset_credits: None,
    };
    let (primary, others) = quota_views(&result);
    assert!(primary.is_none());
    assert_eq!(others.len(), 1);
    assert_eq!(others[0].label, "legacy");
    assert_eq!(others[0].remaining_percent, 0);
}

#[test]
fn refresh_keeps_quota_when_usage_read_fails() {
    let result = RateLimitsResult {
        rate_limits: None,
        by_limit_id: vec![("codex".into(), bucket("codex", Some(window(18_000_000, 10_080, 200_000)), None))],
        reset_credits: None,
    };
    let views = quota_views(&result);
    let snapshot = refreshed_snapshot(
        1_000,
        views,
        Some(samples(200_000, &[(0, 10.0), (3_600, 14.0), (7_200, 18.0)])),
        Err("usage unavailable".into()),
        DashboardSnapshot::default().local_sessions,
    );
    assert!(snapshot.primary_quota.is_some());
    assert!(snapshot.account_usage.is_none());
    assert_eq!(snapshot.account_usage_error.as_deref(), Some("usage unavailable"));
    assert!(!snapshot.is_stale);
    assert!(snapshot.forecast.is_some());
}

#[test]
fn refresh_keeps_account_usage_buckets() {
    let usage = AccountUsageResult {
        summary: Some(UsageSummary {
            lifetime_tokens: Some(9_000),
            peak_daily_tokens: Some(4_000),
            longest_running_turn_sec: None,
            current_streak_days: None,
            longest_streak_days: None,
        }),
        daily_usage_buckets: Some(vec![DailyUsageBucket { start_date: "2026-07-29".into(), tokens: 3_000 }]),
    };
    let snapshot = refreshed_snapshot(1_000, (None, vec![]), None, Ok(usage), DashboardSnapshot::default().local_sessions);
    let account = snapshot.account_usage.unwrap();
    assert_eq!(account.daily_usage_buckets[0].tokens, 3_000);
    assert_eq!(account.lifetime_tokens, Some(9_000));
    assert!(snapshot.forecast.is_none());
}

#[test]
fn disconnected_snapshot_retains_values_and_becomes_stale_after_two_minutes() {
    let mut snapshot = DashboardSnapshot::default();
    snapshot.observed_at = 1_000;
    snapshot.is_stale = false;
    mark_disconnected(&mut snapshot, "disconnected".into(), 1_100);
    assert!(!snapshot.is_stale);
    mark_disconnected(&mut snapshot, "disconnected".into(), 1_121);
    assert!(snapshot.is_stale);
    assert_eq!(snapshot.observed_at, 1_000);
    assert!(snapshot.connection_error.is_some());
}

#[test]
fn monitor_refreshes_on_ticks_and_rate_limit_updates_only() {
    assert_eq!(monitor_step(&MonitorEvent::Tick), LoopAction::Refresh);
    assert_eq!(
        monitor_step(&MonitorEvent::Notification("account/rateLimits/updated".into())),
        LoopAction::Refresh
    );
    assert_eq!(monitor_step(&MonitorEvent::Notification("other".into())), LoopAction::Wait);
    assert_eq!(monitor_step(&MonitorEvent::NotificationsClosed), LoopAction::Stop);
    assert_eq!(monitor_step(&MonitorEvent::Shutdown { closed: false, requested: true }), LoopAction::Stop);
    assert_eq!(monitor_step(&MonitorEvent::Shutdown { closed: false, requested: false }), LoopAction::Wait);
}

#[test]
fn account_requests_retry_five_times_with_growing_delays() {
    let delays: Vec<Option<u64>> = (0..7).map(retry_delay).collect();
    assert_eq!(delays, vec![Some(0), Some(1), Some(2), Some(5), Some(10), Some(30), None]);
}

#[test]
fn forecasts_the_same_far_from_the_epoch() {
    let shape = [(0, 10.0), (3_600, 12.0), (7_200, 18.0), (10_800, 20.0), (14_400, 27.0)];
    let near = samples(300_000, &shape);
    let near_result = forecast(&near, 14_400, 300_000).unwrap();
    let t0: i64 = 4_000_000_000_000_000_000;
    let shifted: Vec<(i64, f64)> = shape.iter().map(|(t, u)| (t0 + t, *u)).collect();
    let far = samples(t0 + 300_000, &shifted);
    let far_result = forecast(&far, t0 + 14_400, t0 + 300_000).unwrap();
    assert_eq!(far_result.status, near_result.status);
    assert_eq!(far_result.rate_percent_per_hour, near_result.rate_percent_per_hour);
    assert_eq!(far_result.confidence, near_result.confidence);
    assert_eq!(far_result.sample_count, 5);
    assert_eq!(far_result.span_seconds, 14_400);
    assert_eq!(far_result.exhausts_at, near_result.exhausts_at.map(|t| t + t0));
}

#[test]
fn predicts_exhaustion_far_from_the_epoch() {
    let t0: i64 = -4_000_000_000_000_000_000;
    let points = samples(
        t0 + 200_000,
        &[(t0, 10.0), (t0 + 3_600, 14.0), (t0 + 7_200, 18.0), (t0 + 10_800, 22.0)],
    );
    let result = forecast(&points, t0 + 10_800, t0 + 200_000).unwrap();
    assert_eq!(result.status, ForecastStatus::DepletesBeforeReset);
    assert!((per_hour(result.rate_percent_per_hour) - 4.0).abs() < 0.01);
    assert_eq!(result.exhausts_at, Some(t0 + 81_000));
    assert_eq!(result.confidence, ForecastConfidence::Medium);
}

#[test]
fn forecasts_over_most_of_the_time_range() {
    let points = samples(
        i64::MAX,
        &[(-4_000_000_000_000_000_000, 10.0), (0, 20.0), (4_000_000_000_000_000_000, 30.0)],
    );
    let result = forecast(&points, 4_000_000_000_000_000_000, i64::MAX).unwrap();
    assert_eq!(result.status, ForecastStatus::NoMeasurableBurn);
    assert_eq!(result.sample_count, 3);
    assert_eq!(result.span_seconds, 8_000_000_000_000_000_000);
    assert_eq!(result.confidence, ForecastConfidence::Low);
    assert!(result.rate_percent_per_hour.num > 0);
}

#[test]
fn no_forecast_when_the_span_does_not_fit() {
    let points = samples(
        i64::MAX,
        &[(-5_000_000_000_000_000_000, 10.0), (0, 20.0), (5_000_000_000_000_000_000, 30.0)],
    );
    assert!(forecast(&points, 5_000_000_000_000_000_000, i64::MAX).is_none());
    let trend = build_trend(&points, 10_080);
    assert_eq!(trend.pace, None);
    assert_eq!(trend.history.len(), 3);
}

#[test]
fn pace_far_from_the_epoch() {
    let t0: i64 = 6_000_000_000_000_000_000;
    let trend = build_trend(
        &samples(i64::MAX, &[(t0, 10.0), (t0 + 86_400, 30.0), (t0 + 172_800, 50.0)]),
        10_080,
    );
    let pace = trend.pace.unwrap();
    assert_eq!(pace.sample_count, 3);
    assert!((pace.percent_per_day.num as f64 / pace.percent_per_day.den as f64 - 20_000_000.0).abs() < 1.0);
    assert_eq!(pace.status, QuotaPaceStatus::Fast);
}

#[test]
fn local_days_are_within_a_day_of_the_utc_date() {
    let seg = vec![
        Sample { observed_at: 1_700_000_000, used_percent: 0 },
        Sample { observed_at: 0, used_percent: 0 },
        Sample { observed_at: i64::MAX, used_percent: 0 },
    ];
    let days = local_days(&seg);
    assert_eq!(days.len(), 3);
    let (y, m, d) = days[0].unwrap();
    assert_eq!((y, m), (2023, 11));
    assert!((13..=15).contains(&d));
    let (y, m, d) = days[1].unwrap();
    assert!((y, m, d) == (1970, 1, 1) || (y, m, d) == (1969, 12, 31) || (y, m, d) == (1970, 1, 2));
    assert_eq!(days[2], None);
}

#[test]
fn the_loop_acts_on_events_until_the_first_stop() {
    let events = vec![
        MonitorEvent::Tick,
        MonitorEvent::NotificationsLagged,
        MonitorEvent::Notification("account/rateLimits/updated".into()),
        MonitorEvent::Shutdown { closed: false, requested: true },
        MonitorEvent::Tick,
    ];
    let mut actions = Vec::new();
    for event in &events {
        let action = monitor_step(event);
        actions.push(action);
        if action == LoopAction::Stop {
            break;
        }
    }
    assert_eq!(
        actions,
        vec![LoopAction::Refresh, LoopAction::Wait, LoopAction::Refresh, LoopAction::Stop]
    );
}

#[test]
fn a_failed_rate_read_keeps_the_held_snapshot_and_skips_usage() {
    let mut held = DashboardSnapshot::default();
    held.observed_at = 1_000;
    match after_rate_read(held.clone(), Some("offline".into()), 1_200) {
        RefreshNext::Disconnected(s) => {
            assert_eq!(s.connection_error.as_deref(), Some("offline"));
            assert!(s.is_stale);
            assert_eq!(s.observed_at, 1_000);
        }
        RefreshNext::ReadUsage => panic!("the usage must not be read"),
    }
    assert!(matches!(after_rate_read(held, None, 1_200), RefreshNext::ReadUsage));
}
