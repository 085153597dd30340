//! Which desktop notifications a new dashboard snapshot calls for.
use vstd::prelude::*;
use crate::domain::DashboardSnapshot;
use crate::settings::AppSettings;
use crate::text::{decimal, percent_text, push_str, push_decimal, push_percent, owned};

verus! {

#[derive(Debug, Clone, PartialEq, Eq)]
pub struct NotificationEvent {
    /// Identifies the occasion, so that it is delivered once.
    pub key: String,
    pub title: String,
    pub body: String,
}

/// What the tracker remembers between snapshots.
#[derive(Debug, Clone, Copy, PartialEq, Eq, Structural, Default)]
pub struct NotificationTracker {
    pub previous_reset_at: Option<i64>,
    pub stale_active: bool,
}

pub struct EventModel {
    pub key: Seq<char>,
    pub title: Seq<char>,
    pub body: Seq<char>,
}

impl View for NotificationEvent {
    type V = EventModel;

    open spec fn view(&self) -> EventModel {
        EventModel { key: self.key@, title: self.title@, body: self.body@ }
    }
}

pub open spec fn quota_event(resets_at: int, kind: Seq<char>, title: Seq<char>, body: Seq<char>) -> EventModel {
    EventModel { key: "quota:"@ + decimal(resets_at) + kind, title, body }
}

/// The quota event for a snapshot, if any: critical wins over warning.
pub open spec fn threshold_event(snapshot: DashboardSnapshot, settings: AppSettings) -> Option<EventModel> {
    match snapshot.primary_quota {
        Some(q) => if settings.quota_critical_enabled && q.remaining_percent
            <= settings.critical_remaining_percent * 1_000_000 {
            Some(quota_event(q.resets_at as int, ":critical"@, "Codex 额度紧急"@, "7 日额度仅剩 "@ + percent_text(q.remaining_percent as int) + "%"@))
        } else if settings.quota_warning_enabled && q.remaining_percent
            <= settings.warning_remaining_percent * 1_000_000 {
            Some(quota_event(q.resets_at as int, ":warning"@, "Codex 额度提醒"@, "7 日额度剩余 "@ + percent_text(q.remaining_percent as int) + "%"@))
        } else {
            None
        },
        None => None,
    }
}

/// The reset event: the reset time changed since the previous snapshot
/// that had a quota.
pub open spec fn reset_event(tracker: NotificationTracker, snapshot: DashboardSnapshot, settings: AppSettings) -> Option<EventModel> {
    match snapshot.primary_quota {
        Some(q) => if settings.reset_notification_enabled && (tracker.previous_reset_at matches Some(p) && p != q.resets_at) {
            Some(quota_event(q.resets_at as int, ":reset"@, "Codex 额度已重置"@, "新的额度周期已经开始。"@))
        } else {
            None
        },
        None => None,
    }
}

/// The snapshot has never been observed, or not for `stale_after_mins`.
pub open spec fn is_stale(snapshot: DashboardSnapshot, settings: AppSettings, now: int) -> bool {
    snapshot.observed_at == 0 || now - snapshot.observed_at >= (settings.stale_after_mins as i64) * 60
}

/// The stale event: the data just became stale.
pub open spec fn stale_event(tracker: NotificationTracker, snapshot: DashboardSnapshot, settings: AppSettings, now: int) -> Option<EventModel> {
    if settings.stale_notification_enabled && is_stale(snapshot, settings, now) && !tracker.stale_active {
        Some(EventModel {
            key: "stale:"@ + decimal(snapshot.observed_at as int),
            title: "Codex 数据未更新"@,
            body: "账号额度已超过 "@ + decimal(settings.stale_after_mins as int) + " 分钟未成功刷新。"@,
        })
    } else {
        None
    }
}

pub open spec fn opt_seq<T>(o: Option<T>) -> Seq<T> {
    match o {
        Some(x) => seq![x],
        None => seq![],
    }
}

/// The events in the order they are raised: quota threshold, reset, stale.
pub open spec fn expected_events(tracker: NotificationTracker, snapshot: DashboardSnapshot, settings: AppSettings, now: int) -> Seq<EventModel> {
    opt_seq(threshold_event(snapshot, settings)) + opt_seq(reset_event(tracker, snapshot, settings))
        + opt_seq(stale_event(tracker, snapshot, settings, now))
}

/// The tracker after a snapshot: it keeps the latest reset time seen and
/// whether the data is stale now.
pub open spec fn next_tracker(tracker: NotificationTracker, snapshot: DashboardSnapshot, settings: AppSettings, now: int) -> NotificationTracker {
    NotificationTracker {
        previous_reset_at: match snapshot.primary_quota {
            Some(q) => Some(q.resets_at),
            None => tracker.previous_reset_at,
        },
        stale_active: is_stale(snapshot, settings, now),
    }
}

pub open spec fn event_views(v: Seq<NotificationEvent>) -> Seq<EventModel> {
    v.map_values(|e: NotificationEvent| e@)
}

fn quota_event_exec(resets_at: i64, kind: &str, title: &str, body: String) -> (r: NotificationEvent)
    ensures
        r@ == quota_event(resets_at as int, kind@, title@, body@),
{
    let mut key = owned("quota:");
    push_decimal(&mut key, resets_at as i128);
    push_str(&mut key, kind);
    NotificationEvent { key, title: owned(title), body }
}

fn percent_body(prefix: &str, remaining: i32) -> (r: String)
    ensures
        r@ == prefix@ + percent_text(remaining as int) + "%"@,
{
    let mut body = owned(prefix);
    push_percent(&mut body, remaining as i64);
    push_str(&mut body, "%");
    body
}

impl NotificationTracker {
    pub fn new() -> (r: Self)
        ensures
            r.previous_reset_at is None,
            !r.stale_active,
    {
        NotificationTracker { previous_reset_at: None, stale_active: false }
    }

    /// The notifications the snapshot calls for; the tracker moves on to it.
    pub fn evaluate(&mut self, snapshot: &DashboardSnapshot, settings: &AppSettings, now: i64) -> (r: Vec<NotificationEvent>)
        requires
            i64::MIN <= now - snapshot.observed_at <= i64::MAX,
            i64::MIN <= (settings.stale_after_mins as i64) * 60 <= i64::MAX,
        ensures
            event_views(r@) == expected_events(*old(self), *snapshot, *settings, now as int),
            *final(self) == next_tracker(*old(self), *snapshot, *settings, now as int),
    {
        let ghost start = *self;
        let mut events: Vec<NotificationEvent> = Vec::new();
        let ghost mut expected: Seq<EventModel> = Seq::empty();
        match &snapshot.primary_quota {
            Some(quota) => {
                let critical = (settings.critical_remaining_percent as i32) * 1_000_000;
                let warning = (settings.warning_remaining_percent as i32) * 1_000_000;
                if settings.quota_critical_enabled && quota.remaining_percent <= critical {
                    let body = percent_body("7 日额度仅剩 ", quota.remaining_percent);
                    events.push(quota_event_exec(quota.resets_at, ":critical", "Codex 额度紧急", body));
                } else if settings.quota_warning_enabled && quota.remaining_percent <= warning {
                    let body = percent_body("7 日额度剩余 ", quota.remaining_percent);
                    events.push(quota_event_exec(quota.resets_at, ":warning", "Codex 额度提醒", body));
                }
                proof {
                    expected = opt_seq(threshold_event(*snapshot, *settings));
                    assert(event_views(events@) =~= expected);
                }
                let reset_changed = match self.previous_reset_at {
                    Some(previous) => previous != quota.resets_at,
                    None => false,
                };
                if settings.reset_notification_enabled && reset_changed {
                    events.push(quota_event_exec(quota.resets_at, ":reset", "Codex 额度已重置", owned("新的额度周期已经开始。")));
                }
                proof {
                    expected = expected + opt_seq(reset_event(start, *snapshot, *settings));
                    assert(event_views(events@) =~= expected);
                }
                self.previous_reset_at = Some(quota.resets_at);
            },
            None => {
                proof {
                    expected = opt_seq(threshold_event(*snapshot, *settings)) + opt_seq(reset_event(start, *snapshot, *settings));
                    assert(event_views(events@) =~= expected);
                }
            },
        }
        let stale = snapshot.observed_at == 0 || now - snapshot.observed_at >= (settings.stale_after_mins as i64) * 60;
        if settings.stale_notification_enabled && stale && !self.stale_active {
            let mut key = owned("stale:");
            push_decimal(&mut key, snapshot.observed_at as i128);
            let mut body = owned("账号额度已超过 ");
            push_decimal(&mut body, settings.stale_after_mins as i128);
            push_str(&mut body, " 分钟未成功刷新。");
            events.push(NotificationEvent { key, title: owned("Codex 数据未更新"), body });
        }
        proof {
            expected = expected + opt_seq(stale_event(start, *snapshot, *settings, now as int));
            assert(event_views(events@) =~= expected);
        }
        self.stale_active = stale;
        events
    }
}


/// The same snapshot seen twice raises its reset and stale notifications
/// at most once: after the first, the tracker holds its reset time and its
/// staleness.
pub proof fn lemma_transitions_notify_once(
    tracker: NotificationTracker,
    snapshot: DashboardSnapshot,
    settings: AppSettings,
    now: int,
)
    ensures
        reset_event(next_tracker(tracker, snapshot, settings, now), snapshot, settings) is None,
        stale_event(next_tracker(tracker, snapshot, settings, now), snapshot, settings, now) is None,
{
}

/// When the critical threshold is on and reached, the critical
/// notification is raised, not the warning, keyed to the quota cycle.
pub proof fn lemma_critical_wins_over_warning(snapshot: DashboardSnapshot, settings: AppSettings)
    requires
        snapshot.primary_quota is Some,
        settings.quota_critical_enabled,
        snapshot.primary_quota->0.remaining_percent <= settings.critical_remaining_percent
            * 1_000_000,
    ensures
        threshold_event(snapshot, settings) matches Some(e) && e.key == "quota:"@ + decimal(
            snapshot.primary_quota->0.resets_at as int,
        ) + ":critical"@,
{
}


/// Once a snapshot of a quota cycle has been seen, no later snapshot of the
/// same cycle (same reset time) raises the reset notification again.
pub proof fn lemma_reset_notifies_once_per_cycle(
    tracker: NotificationTracker,
    first: DashboardSnapshot,
    later: DashboardSnapshot,
    settings: AppSettings,
    now: int,
)
    requires
        first.primary_quota is Some,
        later.primary_quota is Some,
        later.primary_quota->0.resets_at == first.primary_quota->0.resets_at,
    ensures
        reset_event(next_tracker(tracker, first, settings, now), later, settings) is None,
{
}


/// The tracker after the calls `calls` (snapshot, settings, time), in order.
pub open spec fn tracker_after(
    tracker: NotificationTracker,
    calls: Seq<(DashboardSnapshot, AppSettings, int)>,
) -> NotificationTracker
    decreases calls.len(),
{
    if calls.len() == 0 {
        tracker
    } else {
        let c = calls.last();
        next_tracker(tracker_after(tracker, calls.drop_last()), c.0, c.1, c.2)
    }
}

/// The reset time of the primary quota in the latest call that had one.
pub open spec fn last_reset_seen(calls: Seq<(DashboardSnapshot, AppSettings, int)>) -> Option<i64>
    decreases calls.len(),
{
    if calls.len() == 0 {
        None
    } else {
        match calls.last().0.primary_quota {
            Some(q) => Some(q.resets_at),
            None => last_reset_seen(calls.drop_last()),
        }
    }
}

/// Whether the data was stale at the latest call (not, before any call).
pub open spec fn last_stale(calls: Seq<(DashboardSnapshot, AppSettings, int)>) -> bool {
    if calls.len() == 0 {
        false
    } else {
        let c = calls.last();
        is_stale(c.0, c.1, c.2)
    }
}

proof fn lemma_tracker_after(calls: Seq<(DashboardSnapshot, AppSettings, int)>)
    ensures
        tracker_after(NotificationTracker { previous_reset_at: None, stale_active: false }, calls)
            == (NotificationTracker {
            previous_reset_at: last_reset_seen(calls),
            stale_active: last_stale(calls),
        }),
    decreases calls.len(),
{
    if calls.len() > 0 {
        lemma_tracker_after(calls.drop_last());
    }
}

/// Over a history of calls from a new tracker: a call raises the reset
/// notification exactly when it is on, the call has a primary quota, and an
/// earlier call had one with another reset time (once per reset); and it
/// raises the stale notification exactly when that is on, the data is stale
/// at this call and was not at the call before (once per stale episode).
pub proof fn lemma_notifications_over_history(
    history: Seq<(DashboardSnapshot, AppSettings, int)>,
    snapshot: DashboardSnapshot,
    settings: AppSettings,
    now: int,
)
    ensures
        ({
            let t = tracker_after(
                NotificationTracker { previous_reset_at: None, stale_active: false },
                history,
            );
            &&& reset_event(t, snapshot, settings) is Some <==> (settings.reset_notification_enabled
                && snapshot.primary_quota is Some && last_reset_seen(history) is Some
                && last_reset_seen(history)->0 != snapshot.primary_quota->0.resets_at)
            &&& stale_event(t, snapshot, settings, now) is Some <==> (
            settings.stale_notification_enabled && is_stale(snapshot, settings, now) && !last_stale(
                history,
            ))
        }),
{
    lemma_tracker_after(history);
}

/// The data counts as stale when it was never observed or `stale_after_mins`
/// minutes (60 seconds each) have passed since it was: the stale
/// notification is raised exactly when it is on, the data is stale in that
/// sense and it was not stale at the previous snapshot, and the tracker
/// remembers whether it is stale now.
pub proof fn lemma_stale_after_minutes(
    tracker: NotificationTracker,
    snapshot: DashboardSnapshot,
    settings: AppSettings,
    now: int,
)
    requires
        60 * settings.stale_after_mins <= i64::MAX,
    ensures
        stale_event(tracker, snapshot, settings, now) is Some <==> (
        settings.stale_notification_enabled && !tracker.stale_active && (snapshot.observed_at == 0
            || now - snapshot.observed_at >= 60 * settings.stale_after_mins)),
        next_tracker(tracker, snapshot, settings, now).stale_active <==> (snapshot.observed_at == 0
            || now - snapshot.observed_at >= 60 * settings.stale_after_mins),
{
    assert((settings.stale_after_mins as i64) as int == settings.stale_after_mins as int);
}

} // verus!
