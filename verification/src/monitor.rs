//! The account monitor's decisions: which quota windows the dashboard
//! shows and which of them is primary, when a snapshot turns stale, and
//! what a refresh puts into the snapshot.
use vstd::prelude::*;
use crate::domain::{
    AccountUsageView, DashboardSnapshot, LocalSessionView, QuotaView, RateLimitBucket,
    RateLimitsResult, RateObservation, RateWindow, copy_opt_string, copy_string, spec_buckets,
};
use crate::forecast::{ExhaustionForecast, forecast, forecast_spec};
use crate::parser::opt_text;
use crate::quota_trend::{build_trend, remaining_of, history_spec, trend_pace, opt_pace_model,
    days_fit};
use crate::series::current_segment;
use crate::domain::AccountUsageResult;

use crate::text::owned;

verus! {

/// Seconds between scheduled refreshes.
pub const REFRESH_INTERVAL_SECONDS: u64 = 60;

/// Seconds after the last good observation at which a snapshot is stale.
pub const STALE_AFTER_SECONDS: i64 = 120;

/// A quota view as values.
#[verifier::ext_equal]
pub struct QuotaModel {
    pub limit_id: Seq<char>,
    pub label: Seq<char>,
    pub window_kind: Seq<char>,
    pub used_percent: int,
    pub remaining_percent: int,
    pub window_duration_mins: int,
    pub resets_at: int,
    pub plan_type: Option<Seq<char>>,
}

pub open spec fn quota_model(q: QuotaView) -> QuotaModel {
    QuotaModel {
        limit_id: q.limit_id@,
        label: q.label@,
        window_kind: q.window_kind@,
        used_percent: q.used_percent as int,
        remaining_percent: q.remaining_percent as int,
        window_duration_mins: q.window_duration_mins as int,
        resets_at: q.resets_at as int,
        plan_type: opt_text(q.plan_type),
    }
}

pub open spec fn quota_models(v: Seq<QuotaView>) -> Seq<QuotaModel> {
    v.map_values(|q: QuotaView| quota_model(q))
}

/// The label of a window: the limit's own name, else a name for the
/// seven-day and five-hour windows, else the limit id.
pub open spec fn label_spec(limit_id: Seq<char>, bucket: RateLimitBucket, window: RateWindow) -> Seq<
    char,
> {
    match bucket.limit_name {
        Some(n) => n@,
        None => if window.window_duration_mins == 10_080 {
            "7 日额度"@
        } else if window.window_duration_mins == 300 {
            "5 小时额度"@
        } else {
            limit_id
        },
    }
}

pub open spec fn quota_view_spec(
    limit_id: Seq<char>,
    bucket: RateLimitBucket,
    window_kind: Seq<char>,
    window: RateWindow,
) -> QuotaModel {
    QuotaModel {
        limit_id,
        label: label_spec(limit_id, bucket, window),
        window_kind,
        used_percent: window.used_percent as int,
        remaining_percent: remaining_of(window.used_percent as int),
        window_duration_mins: window.window_duration_mins as int,
        resets_at: window.resets_at as int,
        plan_type: opt_text(bucket.plan_type),
    }
}

/// The views of one bucket: its primary window, then its secondary one.
pub open spec fn bucket_views(limit_id: Seq<char>, bucket: RateLimitBucket) -> Seq<QuotaModel> {
    (match bucket.primary {
        Some(w) => seq![quota_view_spec(limit_id, bucket, "primary"@, w)],
        None => seq![],
    }) + (match bucket.secondary {
        Some(w) => seq![quota_view_spec(limit_id, bucket, "secondary"@, w)],
        None => seq![],
    })
}

/// The views of the first `n` buckets, in order.
pub open spec fn views_upto(buckets: Seq<(String, RateLimitBucket)>, n: int) -> Seq<QuotaModel>
    decreases n,
{
    if n <= 0 {
        seq![]
    } else {
        views_upto(buckets, n - 1) + bucket_views(buckets[n - 1].0@, buckets[n - 1].1)
    }
}

pub open spec fn all_views(r: RateLimitsResult) -> Seq<QuotaModel> {
    views_upto(spec_buckets(r), spec_buckets(r).len() as int)
}

/// The first index from `i` on of a primary window (of the `codex` limit
/// when `codex_only`).
pub open spec fn first_primary(v: Seq<QuotaModel>, i: int, codex_only: bool) -> Option<int>
    decreases v.len() - i,
{
    if i < 0 || i >= v.len() {
        None
    } else if v[i].window_kind == "primary"@ && (!codex_only || v[i].limit_id == "codex"@) {
        Some(i)
    } else {
        first_primary(v, i + 1, codex_only)
    }
}

/// Which view is primary: the first primary window of the `codex` limit,
/// else the first primary window.
pub open spec fn primary_index(v: Seq<QuotaModel>) -> Option<int> {
    match first_primary(v, 0, true) {
        Some(i) => Some(i),
        None => first_primary(v, 0, false),
    }
}

/// The view of one window of a bucket.
pub fn quota_view(limit_id: &str, bucket: &RateLimitBucket, window_kind: &str, window: &RateWindow) -> (r:
    QuotaView)
    ensures
        quota_model(r) == quota_view_spec(limit_id@, *bucket, window_kind@, *window),
{
    let label = match &bucket.limit_name {
        Some(n) => copy_string(n),
        None => if window.window_duration_mins == 10_080 {
            owned("7 日额度")
        } else if window.window_duration_mins == 300 {
            owned("5 小时额度")
        } else {
            owned(limit_id)
        },
    };
    let remaining = 100_000_000i64 - window.used_percent as i64;
    let clamped: i64 = if remaining < 0 {
        0
    } else if remaining > 100_000_000 {
        100_000_000
    } else {
        remaining
    };
    let r = QuotaView {
        limit_id: owned(limit_id),
        label,
        window_kind: owned(window_kind),
        used_percent: window.used_percent,
        remaining_percent: clamped as i32,
        window_duration_mins: window.window_duration_mins,
        resets_at: window.resets_at,
        plan_type: copy_opt_string(&bucket.plan_type),
    };
    assert(quota_model(r) =~= quota_view_spec(limit_id@, *bucket, window_kind@, *window));
    r
}

fn is_primary_of(q: &QuotaView, codex_only: bool) -> (r: bool)
    ensures
        r == (quota_model(*q).window_kind == "primary"@ && (!codex_only || quota_model(*q).limit_id
            == "codex"@)),
{
    let primary = q.window_kind == owned("primary");
    if codex_only {
        primary && q.limit_id == owned("codex")
    } else {
        primary
    }
}

fn find_primary(v: &Vec<QuotaView>, codex_only: bool) -> (r: Option<usize>)
    ensures
        match r {
            Some(i) => first_primary(quota_models(v@), 0, codex_only) == Some(i as int) && i
                < v@.len(),
            None => first_primary(quota_models(v@), 0, codex_only) is None,
        },
{
    let ghost m = quota_models(v@);
    let mut i: usize = 0;
    while i < v.len()
        invariant
            i <= v@.len(),
            m == quota_models(v@),
            first_primary(m, 0, codex_only) == first_primary(m, i as int, codex_only),
        decreases v@.len() - i,
    {
        if is_primary_of(&v[i], codex_only) {
            return Some(i);
        }
        i += 1;
    }
    None
}

/// The windows of a rate-limit answer as views, with the primary one taken
/// out: the first primary window of the `codex` limit, else the first
/// primary window. The others keep their order.
pub fn quota_views(rate_limits: &RateLimitsResult) -> (r: (Option<QuotaView>, Vec<QuotaView>))
    requires
        crate::domain::limit_ids_ascending(rate_limits.by_limit_id@),
    ensures
        match primary_index(all_views(*rate_limits)) {
            Some(i) => r.0 matches Some(p) && quota_model(p) == all_views(*rate_limits)[i]
                && quota_models(r.1@) == all_views(*rate_limits).remove(i),
            None => r.0 is None && quota_models(r.1@) == all_views(*rate_limits),
        },
{
    let buckets = rate_limits.buckets();
    let mut views: Vec<QuotaView> = Vec::new();
    let mut i: usize = 0;
    while i < buckets.len()
        invariant
            i <= buckets@.len(),
            buckets@ == spec_buckets(*rate_limits),
            quota_models(views@) == views_upto(buckets@, i as int),
        decreases buckets@.len() - i,
    {
        let (limit_id, bucket) = (&buckets[i].0, &buckets[i].1);
        let ghost before = quota_models(views@);
        match &bucket.primary {
            Some(w) => {
                let v = quota_view(limit_id.as_str(), bucket, "primary", w);
                views.push(v);
            },
            None => {},
        }
        match &bucket.secondary {
            Some(w) => {
                let v = quota_view(limit_id.as_str(), bucket, "secondary", w);
                views.push(v);
            },
            None => {},
        }
        proof {
            assert(quota_models(views@) =~= before + bucket_views(limit_id@, *bucket));
        }
        i += 1;
    }
    let index = match find_primary(&views, true) {
        Some(k) => Some(k),
        None => find_primary(&views, false),
    };
    match index {
        Some(k) => {
            let ghost m = quota_models(views@);
            let p = views.remove(k);
            proof {
                assert(quota_models(views@) =~= m.remove(k as int));
            }
            (Some(p), views)
        },
        None => (None, views),
    }
}

/// Whether a snapshot last observed at `observed_at` is stale at `now`:
/// never observed, or observed at least 120 seconds ago.
pub open spec fn stale_at(observed_at: int, now: int) -> bool {
    observed_at == 0 || now - observed_at >= STALE_AFTER_SECONDS
}

/// `after` is `before` after a failed rate-limit read at `now`: it keeps
/// its values, records the error, and is stale once 120 seconds have passed
/// since the last good observation.
pub open spec fn disconnected(before: DashboardSnapshot, after: DashboardSnapshot, error: String, now: int) -> bool {
    &&& after.connection_error == Some(error)
    &&& after.is_stale == stale_at(before.observed_at as int, now)
    &&& after.observed_at == before.observed_at
    &&& after.account_usage_error == before.account_usage_error
    &&& after.primary_quota == before.primary_quota
    &&& after.other_quotas == before.other_quotas
    &&& after.account_usage == before.account_usage
    &&& after.forecast == before.forecast
    &&& after.quota_history == before.quota_history
    &&& after.quota_pace == before.quota_pace
    &&& after.local_sessions == before.local_sessions
}

/// A failed rate-limit read: the snapshot keeps its values, records the
/// error, and turns stale once 120 seconds have passed since the last good
/// observation.
pub fn mark_disconnected(snapshot: &mut DashboardSnapshot, error: String, now: i64)
    ensures
        disconnected(*old(snapshot), *final(snapshot), error, now as int),
{
    snapshot.connection_error = Some(error);
    snapshot.is_stale = snapshot.observed_at == 0 || (now as i128) - (snapshot.observed_at as i128)
        >= STALE_AFTER_SECONDS as i128;
}

/// What a refresh does once the rate-limit read is done.
pub enum RefreshNext {
    /// The read failed: this snapshot (the one held before, marked
    /// disconnected) is published and the error reported; the account
    /// usage is not read.
    Disconnected(DashboardSnapshot),
    /// The read succeeded: it is stored, and the account usage is read next.
    ReadUsage,
}

/// The step of a refresh after its first read, the rate limits: the account
/// usage is read only after a good rate-limit read; after a failed one the
/// snapshot held before is kept, marked disconnected.
pub fn after_rate_read(held: DashboardSnapshot, rate_error: Option<String>, now: i64) -> (r:
    RefreshNext)
    ensures
        r is ReadUsage <==> rate_error is None,
        r matches RefreshNext::Disconnected(s) ==> disconnected(held, s, rate_error->0, now as int),
{
    match rate_error {
        Some(error) => {
            let mut snapshot = held;
            mark_disconnected(&mut snapshot, error, now);
            RefreshNext::Disconnected(snapshot)
        },
        None => RefreshNext::ReadUsage,
    }
}

/// The observations a forecast and trend are computed from: the primary
/// window's stored segment, when there is a primary window and the segment
/// was read.
pub open spec fn usable_points(primary: Option<QuotaView>, segment: Option<Vec<RateObservation>>) -> Option<
    Seq<RateObservation>,
> {
    match (primary, segment) {
        (Some(_), Some(pts)) => Some(pts@),
        _ => None,
    }
}

/// The snapshot after a successful rate-limit read at `now`: fresh and
/// without a connection error, holding the quota views, the account usage
/// (or the error of its read), the forecast and the trend of the primary
/// window's `segment` (the stored observations of its current segment),
/// and the local sessions.
pub fn refreshed_snapshot(
    now: i64,
    views: (Option<QuotaView>, Vec<QuotaView>),
    segment: Option<Vec<RateObservation>>,
    usage: Result<AccountUsageResult, String>,
    local_sessions: LocalSessionView,
) -> (r: DashboardSnapshot)
    ensures
        r.observed_at == now,
        !r.is_stale,
        r.connection_error is None,
        r.primary_quota == views.0,
        r.other_quotas == views.1,
        r.local_sessions == local_sessions,
        match usage {
            Ok(u) => r.account_usage matches Some(a) && r.account_usage_error is None
                && a.lifetime_tokens == (match u.summary {
                Some(s) => s.lifetime_tokens,
                None => None,
            }) && a.peak_daily_tokens == (match u.summary {
                Some(s) => s.peak_daily_tokens,
                None => None,
            }) && a.daily_usage_buckets@ == (match u.daily_usage_buckets {
                Some(b) => b@,
                None => Seq::empty(),
            }),
            Err(e) => r.account_usage is None && r.account_usage_error == Some(e),
        },
        match usable_points(views.0, segment) {
            Some(pts) => {
                let q = views.0->0;
                &&& match r.forecast {
                    Some(f) => forecast_spec(pts, now as int, q.resets_at as int) == Some(f@),
                    None => forecast_spec(pts, now as int, q.resets_at as int) is None,
                }
                &&& opt_pace_model(r.quota_pace) == trend_pace(
                    current_segment(pts),
                    q.window_duration_mins as int,
                )
                &&& exists|days: Seq<Option<(i32, u32, u32)>>|
                    days_fit(days, current_segment(pts)) && r.quota_history@
                        == #[trigger] history_spec(current_segment(pts), days)
                &&& r.quota_history@.len() <= 64
            },
            None => r.forecast is None && r.quota_pace is None && r.quota_history@.len() == 0,
        },
{
    let (primary_quota, other_quotas) = views;
    let (account_usage, account_usage_error) = match usage {
        Ok(u) => (Some(AccountUsageView::from(u)), None),
        Err(e) => (None, Some(e)),
    };
    let mut forecast_value: Option<ExhaustionForecast> = None;
    let mut quota_history = Vec::new();
    let mut quota_pace = None;
    match (&primary_quota, &segment) {
        (Some(q), Some(points)) => {
            forecast_value = forecast(points, now, q.resets_at);
            let trend = build_trend(points, q.window_duration_mins);
            quota_history = trend.history;
            quota_pace = trend.pace;
        },
        _ => {},
    }
    DashboardSnapshot {
        observed_at: now,
        is_stale: false,
        connection_error: None,
        account_usage_error,
        primary_quota,
        other_quotas,
        account_usage,
        forecast: forecast_value,
        quota_history,
        quota_pace,
        local_sessions,
    }
}

/// What the monitor's loop is woken by.
#[derive(Debug, Clone, PartialEq)]
pub enum MonitorEvent {
    /// The refresh interval elapsed.
    Tick,
    /// The account server sent a notification with this method.
    Notification(String),
    /// Notifications were dropped because the loop fell behind.
    NotificationsLagged,
    /// The notification channel closed.
    NotificationsClosed,
    /// The shutdown signal changed (`closed`: its sender is gone).
    Shutdown { closed: bool, requested: bool },
}

#[derive(Debug, Clone, Copy, PartialEq, Eq, Structural)]
pub enum LoopAction {
    Refresh,
    Wait,
    Stop,
}

pub open spec fn monitor_step_spec(event: MonitorEvent) -> LoopAction {
    match event {
        MonitorEvent::Tick => LoopAction::Refresh,
        MonitorEvent::Notification(m) => if m@ == "account/rateLimits/updated"@ {
            LoopAction::Refresh
        } else {
            LoopAction::Wait
        },
        MonitorEvent::NotificationsLagged => LoopAction::Wait,
        MonitorEvent::NotificationsClosed => LoopAction::Stop,
        MonitorEvent::Shutdown { closed, requested } => if closed || requested {
            LoopAction::Stop
        } else {
            LoopAction::Wait
        },
    }
}

/// What the monitor does on an event: refresh on each tick and on each
/// rate-limit update notification, stop when notifications end or shutdown
/// is asked for, and otherwise wait.
pub fn monitor_step(event: &MonitorEvent) -> (r: LoopAction)
    ensures
        r == monitor_step_spec(*event),
{
    match event {
        MonitorEvent::Tick => LoopAction::Refresh,
        MonitorEvent::Notification(m) => if *m == owned("account/rateLimits/updated") {
            LoopAction::Refresh
        } else {
            LoopAction::Wait
        },
        MonitorEvent::NotificationsLagged => LoopAction::Wait,
        MonitorEvent::NotificationsClosed => LoopAction::Stop,
        MonitorEvent::Shutdown { closed, requested } => if *closed || *requested {
            LoopAction::Stop
        } else {
            LoopAction::Wait
        },
    }
}

/// What the loop does for `events` in turn, up to and including the first
/// stop; the events after a stop are never acted on.
pub open spec fn loop_actions(events: Seq<MonitorEvent>) -> Seq<LoopAction>
    decreases events.len(),
{
    if events.len() == 0 {
        seq![]
    } else if monitor_step_spec(events[0]) == LoopAction::Stop {
        seq![LoopAction::Stop]
    } else {
        seq![monitor_step_spec(events[0])] + loop_actions(events.drop_first())
    }
}

/// Over a run of events, the loop acts on each event in order until the
/// first one that stops it: it refreshes once for every tick and every
/// rate-limit update notification before that, waits on the rest, and
/// takes nothing after the stop.
pub proof fn lemma_loop_over_events(events: Seq<MonitorEvent>)
    ensures
        loop_actions(events).len() <= events.len(),
        forall|k: int|
            0 <= k < loop_actions(events).len() ==> #[trigger] loop_actions(events)[k]
                == monitor_step_spec(events[k]),
        forall|k: int|
            0 <= k < loop_actions(events).len() - 1 ==> #[trigger] loop_actions(events)[k]
                != LoopAction::Stop,
        loop_actions(events).len() < events.len() ==> loop_actions(events).last()
            == LoopAction::Stop,
        (forall|j: int| 0 <= j < events.len() ==> monitor_step_spec(#[trigger] events[j])
            != LoopAction::Stop) ==> loop_actions(events).len() == events.len(),
    decreases events.len(),
{
    if events.len() > 0 && monitor_step_spec(events[0]) != LoopAction::Stop {
        let rest = events.drop_first();
        lemma_loop_over_events(rest);
        let a = loop_actions(events);
        assert(a == seq![monitor_step_spec(events[0])] + loop_actions(rest));
        assert forall|k: int| 0 <= k < a.len() implies #[trigger] a[k] == monitor_step_spec(
            events[k],
        ) by {
            if k > 0 {
                assert(a[k] == loop_actions(rest)[k - 1]);
                assert(rest[k - 1] == events[k]);
            }
        }
        assert forall|k: int| 0 <= k < a.len() - 1 implies #[trigger] a[k] != LoopAction::Stop by {
            if k > 0 {
                assert(a[k] == loop_actions(rest)[k - 1]);
            }
        }
        if forall|j: int| 0 <= j < events.len() ==> monitor_step_spec(#[trigger] events[j])
            != LoopAction::Stop {
            assert forall|j: int| 0 <= j < rest.len() implies monitor_step_spec(#[trigger] rest[j])
                != LoopAction::Stop by {
                assert(rest[j] == events[j + 1]);
            }
        }
    }
}

/// The seconds to wait before each retry of an account request.
pub open spec fn retry_delays() -> Seq<u64> {
    seq![1, 2, 5, 10, 30]
}

/// The wait before attempt `attempt` (0 for the first), or `None` once the
/// five retries are spent.
pub open spec fn retry_delay_spec(attempt: int) -> Option<u64> {
    if attempt == 0 {
        Some(0)
    } else if 1 <= attempt <= 5 {
        Some(retry_delays()[attempt - 1])
    } else {
        None
    }
}

/// The wait before an attempt at an account request: none before the
/// first, then 1, 2, 5, 10 and 30 seconds; `None` once those are spent.
pub fn retry_delay(attempt: usize) -> (r: Option<u64>)
    ensures
        r == retry_delay_spec(attempt as int),
{
    let delays: [u64; 5] = [1, 2, 5, 10, 30];
    if attempt == 0 {
        Some(0)
    } else if attempt <= 5 {
        proof {
            assert(delays@ =~= retry_delays());
        }
        Some(delays[attempt - 1])
    } else {
        None
    }
}

} // verus!
