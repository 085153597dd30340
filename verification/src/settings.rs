//! User settings, their defaults and their validation.
use vstd::prelude::*;
use crate::text::owned;

verus! {

#[derive(Debug, Clone, Copy, PartialEq, Eq, Structural)]
pub enum ThemePreference {
    System,
    Light,
    Dark,
}

#[derive(Debug, Clone, Copy, PartialEq, Eq, Structural)]
pub enum PaceMode {
    Suggested,
    RecentRate,
}

/// The settings the user can change. The subscription price is in
/// millionths of a US dollar.
#[derive(Debug, Clone, Copy, PartialEq, Eq, Structural)]
pub struct AppSettings {
    pub theme: ThemePreference,
    pub pace_mode: PaceMode,
    pub account_refresh_mins: u64,
    pub session_scan_mins: u64,
    pub monthly_subscription_usd: i64,
    pub launch_at_login: bool,
    pub quota_warning_enabled: bool,
    pub warning_remaining_percent: u8,
    pub quota_critical_enabled: bool,
    pub critical_remaining_percent: u8,
    pub reset_notification_enabled: bool,
    pub stale_notification_enabled: bool,
    pub stale_after_mins: u64,
}

/// The price assumed when saved settings do not have one: 20 US dollars.
pub fn default_monthly_subscription_usd() -> (r: i64)
    ensures
        r == 20_000_000,
{
    20_000_000
}

/// The settings of a new installation.
pub open spec fn default_settings() -> AppSettings {
    AppSettings {
        theme: ThemePreference::System,
        pace_mode: PaceMode::Suggested,
        account_refresh_mins: 1,
        session_scan_mins: 10,
        monthly_subscription_usd: 20_000_000,
        launch_at_login: false,
        quota_warning_enabled: true,
        warning_remaining_percent: 25,
        quota_critical_enabled: true,
        critical_remaining_percent: 10,
        reset_notification_enabled: true,
        stale_notification_enabled: true,
        stale_after_mins: 15,
    }
}

impl Default for AppSettings {
    fn default() -> (r: Self)
        ensures
            r == default_settings(),
    {
        AppSettings {
            theme: ThemePreference::System,
            pace_mode: PaceMode::Suggested,
            account_refresh_mins: 1,
            session_scan_mins: 10,
            monthly_subscription_usd: default_monthly_subscription_usd(),
            launch_at_login: false,
            quota_warning_enabled: true,
            warning_remaining_percent: 25,
            quota_critical_enabled: true,
            critical_remaining_percent: 10,
            reset_notification_enabled: true,
            stale_notification_enabled: true,
            stale_after_mins: 15,
        }
    }
}

/// The first rule a settings value breaks, as the message shown for it.
pub open spec fn validation_error(s: AppSettings) -> Option<Seq<char>> {
    if !(s.account_refresh_mins == 1 || s.account_refresh_mins == 5 || s.account_refresh_mins
        == 15) {
        Some("账号刷新间隔无效"@)
    } else if !(s.session_scan_mins == 5 || s.session_scan_mins == 10 || s.session_scan_mins
        == 30) {
        Some("会话扫描间隔无效"@)
    } else if s.monthly_subscription_usd <= 0 || s.monthly_subscription_usd > 10_000_000_000 {
        Some("月订阅价格无效"@)
    } else if s.quota_warning_enabled && s.quota_critical_enabled && s.critical_remaining_percent
        >= s.warning_remaining_percent {
        Some("紧急阈值必须低于提醒阈值"@)
    } else if s.warning_remaining_percent > 100 || s.critical_remaining_percent > 100
        || s.stale_after_mins == 0 {
        Some("通知设置无效"@)
    } else {
        None
    }
}

/// The `Duration` of `secs` whole seconds, as `Duration::from_secs` makes it.
pub uninterp spec fn duration_of_secs(secs: int) -> std::time::Duration;

/// `Duration::from_secs`.
///
/// Trusted: the result is named `duration_of_secs` of the seconds; the
/// standard library builds it from them alone.
#[verifier::external_body]
fn duration_from_secs(secs: u64) -> (r: std::time::Duration)
    ensures
        r == duration_of_secs(secs as int),
{
    std::time::Duration::from_secs(secs)
}

impl AppSettings {
    /// Seconds between account refreshes.
    pub fn account_refresh_seconds(&self) -> (r: u64)
        requires
            self.account_refresh_mins * 60 <= u64::MAX,
        ensures
            r == self.account_refresh_mins * 60,
    {
        self.account_refresh_mins * 60
    }

    /// Seconds between session scans.
    pub fn session_scan_seconds(&self) -> (r: u64)
        requires
            self.session_scan_mins * 60 <= u64::MAX,
        ensures
            r == self.session_scan_mins * 60,
    {
        self.session_scan_mins * 60
    }

    /// The time between account refreshes: its minutes in whole seconds.
    pub fn account_refresh_duration(&self) -> (r: std::time::Duration)
        requires
            self.account_refresh_mins * 60 <= u64::MAX,
        ensures
            r == duration_of_secs(self.account_refresh_mins * 60),
    {
        duration_from_secs(self.account_refresh_seconds())
    }

    /// The time between session scans: its minutes in whole seconds.
    pub fn session_scan_duration(&self) -> (r: std::time::Duration)
        requires
            self.session_scan_mins * 60 <= u64::MAX,
        ensures
            r == duration_of_secs(self.session_scan_mins * 60),
    {
        duration_from_secs(self.session_scan_seconds())
    }

    /// Accepts settings that break no rule; otherwise gives the message of the
    /// first rule broken.
    pub fn validate(&self) -> (r: Result<(), String>)
        ensures
            match r {
                Ok(()) => validation_error(*self) is None,
                Err(e) => validation_error(*self) == Some(e@),
            },
    {
        let a = self.account_refresh_mins;
        if !(a == 1 || a == 5 || a == 15) {
            return Err(owned("账号刷新间隔无效"));
        }
        let s = self.session_scan_mins;
        if !(s == 5 || s == 10 || s == 30) {
            return Err(owned("会话扫描间隔无效"));
        }
        if self.monthly_subscription_usd <= 0 || self.monthly_subscription_usd > 10_000_000_000 {
            return Err(owned("月订阅价格无效"));
        }
        if self.quota_warning_enabled && self.quota_critical_enabled
            && self.critical_remaining_percent >= self.warning_remaining_percent {
            return Err(owned("紧急阈值必须低于提醒阈值"));
        }
        if self.warning_remaining_percent > 100 || self.critical_remaining_percent > 100
            || self.stale_after_mins == 0 {
            return Err(owned("通知设置无效"));
        }
        Ok(())
    }
}


/// The settings of a new installation break no rule.
pub proof fn lemma_default_settings_are_valid()
    ensures
        validation_error(default_settings()) is None,
{
}


/// The change saving settings makes to launching at login: `Some(true)` to
/// enable it, `Some(false)` to disable it, `None` when it already matches.
pub fn autolaunch_change(wanted: bool, enabled: bool) -> (r: Option<bool>)
    ensures
        r == (if wanted != enabled {
            Some(wanted)
        } else {
            None
        }),
{
    if wanted != enabled {
        Some(wanted)
    } else {
        None
    }
}

} // verus!
