//! What the tray shows: its title, the dial state, the status menu, and
//! which window and menu actions a click leads to.
use vstd::prelude::*;
use crate::domain::{DashboardSnapshot, DailyUsageBucket, latest_bucket, latest_bucket_index};
use crate::forecast::ForecastStatus;
use crate::parser::opt_text;
use crate::clock::{local_time_text, parse_date, local_text_fits, parsed_date};
use crate::text::{digits, decimal, percent_text, push_char, push_str, push_digits, push_decimal,
    push_percent, owned, round_half_even, round_half_even_exec, chars_of};

verus! {

/// The text of the tray title for a remaining percentage (millionths of a
/// percentage point).
pub open spec fn title_text(remaining_percent: Option<i32>, stale: bool) -> Seq<char> {
    match remaining_percent {
        Some(r) => if stale {
            percent_text(r as int) + "%?"@
        } else {
            percent_text(r as int) + "%"@
        },
        None => if stale {
            "Codex?"@
        } else {
            "Codex"@
        },
    }
}

/// The tray icon's tooltip: the remaining percentage with no decimals, or
/// that the quota is unavailable.
pub open spec fn tooltip_text(remaining_percent: Option<i32>) -> Seq<char> {
    match remaining_percent {
        Some(r) => "QuotaDial · 剩余 "@ + percent_text(r as int) + "%"@,
        None => "QuotaDial · 额度暂不可用"@,
    }
}

pub fn tray_tooltip(remaining_percent: Option<i32>) -> (r: String)
    ensures
        r@ == tooltip_text(remaining_percent),
{
    match remaining_percent {
        Some(remaining) => {
            let mut s = owned("QuotaDial · 剩余 ");
            push_percent(&mut s, remaining as i64);
            push_str(&mut s, "%");
            s
        },
        None => owned("QuotaDial · 额度暂不可用"),
    }
}

pub fn tray_title(remaining_percent: Option<i32>, stale: bool) -> (r: String)
    ensures
        r@ == title_text(remaining_percent, stale),
{
    match remaining_percent {
        Some(remaining) => {
            let mut s = String::new();
            push_percent(&mut s, remaining as i64);
            if stale {
                push_str(&mut s, "%?");
            } else {
                push_str(&mut s, "%");
            }
            proof {
                assert(Seq::<char>::empty() + percent_text(remaining as int) =~= percent_text(
                    remaining as int,
                ));
            }
            s
        },
        None => if stale {
            owned("Codex?")
        } else {
            owned("Codex")
        },
    }
}

/// What the tray dial shows: the used share of the primary quota
/// (millionths of a percentage point), and whether the data is stale.
#[derive(Debug, Clone, Copy, PartialEq, Eq, Structural)]
pub struct TrayDialState {
    pub used_percent: Option<i32>,
    pub stale: bool,
}

#[derive(Debug, Clone, Copy, PartialEq, Eq, Structural)]
pub enum TrayIconStyle {
    Template,
    Color,
}

pub fn tray_dial_state(snapshot: &DashboardSnapshot) -> (r: TrayDialState)
    ensures
        r.used_percent == (match snapshot.primary_quota {
            Some(q) => Some(q.used_percent),
            None => None,
        }),
        r.stale == snapshot.is_stale,
{
    TrayDialState {
        used_percent: match &snapshot.primary_quota {
            Some(q) => Some(q.used_percent),
            None => None,
        },
        stale: snapshot.is_stale,
    }
}

/// The native menu bar is used on macOS only; `target_os` is the name of
/// the operating system the app runs on.
pub fn uses_native_menu_bar(target_os: &str) -> (r: bool)
    ensures
        r == (target_os@ == "macos"@),
{
    owned(target_os) == owned("macos")
}

#[derive(Debug, Clone, Copy, PartialEq, Eq, Structural)]
pub enum TrayButton {
    Left,
    Right,
    Middle,
}

#[derive(Debug, Clone, Copy, PartialEq, Eq, Structural)]
pub enum TrayButtonState {
    Up,
    Down,
}

/// Off macOS, releasing the left or right button on the tray icon opens the
/// panel.
pub fn opens_panel_from_tray(target_os: &str, button: TrayButton, state: TrayButtonState) -> (r:
    bool)
    ensures
        r == (target_os@ != "macos"@ && state == TrayButtonState::Up && (button
            == TrayButton::Left || button == TrayButton::Right)),
{
    !uses_native_menu_bar(target_os) && state == TrayButtonState::Up && (button == TrayButton::Left
        || button == TrayButton::Right)
}

/// One hundred percent in millionths of a percentage point.
pub open spec fn hundred() -> int {
    100_000_000
}

pub open spec fn clamp_percent(x: int) -> int {
    if x < 0 {
        0
    } else if x > hundred() {
        hundred()
    } else {
        x
    }
}

/// Filled segments of the ten-segment bar: the used share in tenths,
/// rounded half away from zero.
pub open spec fn filled_segments(used: int) -> int {
    (2 * clamp_percent(used) + 10_000_000) / 20_000_000
}

pub open spec fn repeat_char(c: char, n: int) -> Seq<char>
    decreases n,
{
    if n <= 0 {
        seq![]
    } else {
        repeat_char(c, n - 1).push(c)
    }
}

/// The ten-segment usage bar.
pub open spec fn progress_bar(used: int) -> Seq<char> {
    repeat_char('█', filled_segments(used)) + repeat_char('░', 10 - filled_segments(used))
}

fn push_repeat(s: &mut String, c: char, n: usize)
    ensures
        final(s)@ == old(s)@ + repeat_char(c, n as int),
{
    let mut i: usize = 0;
    while i < n
        invariant
            i <= n,
            s@ == old(s)@ + repeat_char(c, i as int),
        decreases n - i,
    {
        push_char(s, c);
        proof {
            assert(old(s)@ + repeat_char(c, i + 1) =~= (old(s)@ + repeat_char(c, i as int)).push(c));
        }
        i += 1;
    }
}

fn clamp_percent_exec(x: i32) -> (r: i32)
    ensures
        r == clamp_percent(x as int),
{
    if x < 0 {
        0
    } else if x > 100_000_000 {
        100_000_000
    } else {
        x
    }
}

/// The ten-segment bar for a used percentage.
pub fn usage_progress(used_percent: i32) -> (r: String)
    ensures
        r@ == progress_bar(used_percent as int),
{
    let used = clamp_percent_exec(used_percent);
    let filled = ((2 * used + 10_000_000) / 20_000_000) as usize;
    let mut s = String::new();
    push_repeat(&mut s, '█', filled);
    push_repeat(&mut s, '░', 10 - filled);
    proof {
        assert(Seq::<char>::empty() + repeat_char('█', filled as int) + repeat_char(
            '░',
            (10 - filled) as int,
        ) =~= progress_bar(used_percent as int));
    }
    s
}

/// A token count with one decimal in units of 亿 (10^8) or 万 (10^4), or
/// plainly below 10^4 (to the nearest tenth, halves to even).
pub open spec fn token_count_text(tokens: int) -> Seq<char> {
    if tokens >= 100_000_000 {
        let tenths = round_half_even(tokens as nat, 10_000_000);
        digits(tenths / 10) + "."@ + digits(tenths % 10) + " 亿"@
    } else if tokens >= 10_000 {
        let tenths = round_half_even(tokens as nat, 1_000);
        digits(tenths / 10) + "."@ + digits(tenths % 10) + " 万"@
    } else {
        decimal(tokens)
    }
}

fn push_tenths(s: &mut String, tenths: u128, unit: &str)
    ensures
        final(s)@ == old(s)@ + digits((tenths / 10) as nat) + "."@ + digits((tenths % 10) as nat)
            + unit@,
{
    push_digits(s, tenths / 10);
    push_str(s, ".");
    push_digits(s, tenths % 10);
    push_str(s, unit);
}

pub fn format_token_count(tokens: i64) -> (r: String)
    ensures
        r@ == token_count_text(tokens as int),
{
    let mut s = String::new();
    if tokens >= 100_000_000 {
        let tenths = round_half_even_exec(tokens as u128, 10_000_000);
        push_tenths(&mut s, tenths, " 亿");
    } else if tokens >= 10_000 {
        let tenths = round_half_even_exec(tokens as u128, 1_000);
        push_tenths(&mut s, tenths, " 万");
    } else {
        push_decimal(&mut s, tokens as i128);
    }
    proof {
        assert(Seq::<char>::empty() + token_count_text(tokens as int) =~= token_count_text(
            tokens as int,
        ));
    }
    s
}

/// Closing these windows hides them instead.
pub fn should_hide_on_close(window_label: &str) -> (r: bool)
    ensures
        r == (window_label@ == "main"@ || window_label@ == "tray-panel"@),
{
    let label = owned(window_label);
    label == owned("main") || label == owned("tray-panel")
}

#[derive(Debug, Clone, Copy, PartialEq, Eq, Structural)]
pub enum MenuAction {
    ShowOverview,
    Refresh,
    Settings,
    Quit,
    /// A status row: no action.
    NoAction,
}

/// The action of a menu item; status rows have none.
pub fn menu_action(id: &str) -> (r: MenuAction)
    ensures
        r == (if id@ == "show"@ {
            MenuAction::ShowOverview
        } else if id@ == "refresh"@ {
            MenuAction::Refresh
        } else if id@ == "settings"@ {
            MenuAction::Settings
        } else if id@ == "quit"@ {
            MenuAction::Quit
        } else {
            MenuAction::NoAction
        }),
{
    let id = owned(id);
    if id == owned("show") {
        MenuAction::ShowOverview
    } else if id == owned("refresh") {
        MenuAction::Refresh
    } else if id == owned("settings") {
        MenuAction::Settings
    } else if id == owned("quit") {
        MenuAction::Quit
    } else {
        MenuAction::NoAction
    }
}

/// Where the tray panel opens: centred on the click, above it when it fits,
/// kept 10 pixels inside the monitor's work area. The click is in whole
/// pixels.
pub open spec fn panel_position(
    click: (int, int),
    window_size: (int, int),
    monitor_origin: (int, int),
    monitor_size: (int, int),
) -> (int, int) {
    let left = monitor_origin.0 + 10;
    let top = monitor_origin.1 + 10;
    let right = monitor_origin.0 + monitor_size.0 - 10;
    let bottom = monitor_origin.1 + monitor_size.1 - 10;
    let max_x = if right - window_size.0 > left {
        right - window_size.0
    } else {
        left
    };
    let max_y = if bottom - window_size.1 > top {
        bottom - window_size.1
    } else {
        top
    };
    let x0 = click.0 - window_size.0 / 2;
    let x = if x0 < left {
        left
    } else if x0 > max_x {
        max_x
    } else {
        x0
    };
    let above = click.1 - window_size.1 - 12;
    let y0 = if above >= top {
        above
    } else {
        click.1 + 12
    };
    let y = if y0 < top {
        top
    } else if y0 > max_y {
        max_y
    } else {
        y0
    };
    (x, y)
}

/// The sizes are within `i32` and no step leaves `i32`.
pub open spec fn panel_inputs_fit(
    click: (int, int),
    window_size: (int, int),
    monitor_origin: (int, int),
    monitor_size: (int, int),
) -> bool {
    &&& window_size.0 <= i32::MAX && window_size.1 <= i32::MAX
    &&& monitor_size.0 <= i32::MAX && monitor_size.1 <= i32::MAX
    &&& i32::MIN <= monitor_origin.0 + 10 <= i32::MAX
    &&& i32::MIN <= monitor_origin.1 + 10 <= i32::MAX
    &&& i32::MIN <= monitor_origin.0 + monitor_size.0 <= i32::MAX
    &&& i32::MIN <= monitor_origin.1 + monitor_size.1 <= i32::MAX
    &&& i32::MIN <= monitor_origin.0 + monitor_size.0 - 10 - window_size.0 <= i32::MAX
    &&& i32::MIN <= monitor_origin.1 + monitor_size.1 - 10 - window_size.1 <= i32::MAX
    &&& i32::MIN <= click.0 - window_size.0 / 2 <= i32::MAX
    &&& i32::MIN <= click.1 - window_size.1 - 12 <= i32::MAX
    &&& i32::MIN <= click.1 + 12 <= i32::MAX
}

pub fn tray_panel_position(
    click: (i32, i32),
    window_size: (u32, u32),
    monitor_origin: (i32, i32),
    monitor_size: (u32, u32),
) -> (r: (i32, i32))
    requires
        panel_inputs_fit(
            (click.0 as int, click.1 as int),
            (window_size.0 as int, window_size.1 as int),
            (monitor_origin.0 as int, monitor_origin.1 as int),
            (monitor_size.0 as int, monitor_size.1 as int),
        ),
    ensures
        (r.0 as int, r.1 as int) == panel_position(
            (click.0 as int, click.1 as int),
            (window_size.0 as int, window_size.1 as int),
            (monitor_origin.0 as int, monitor_origin.1 as int),
            (monitor_size.0 as int, monitor_size.1 as int),
        ),
{
    let margin: i32 = 10;
    let gap: i32 = 12;
    let width = window_size.0 as i32;
    let height = window_size.1 as i32;
    let left = monitor_origin.0 + margin;
    let top = monitor_origin.1 + margin;
    let right = monitor_origin.0 + monitor_size.0 as i32 - margin;
    let bottom = monitor_origin.1 + monitor_size.1 as i32 - margin;
    let max_x = if right - width > left {
        right - width
    } else {
        left
    };
    let max_y = if bottom - height > top {
        bottom - height
    } else {
        top
    };
    let x0 = click.0 - width / 2;
    let x = if x0 < left {
        left
    } else if x0 > max_x {
        max_x
    } else {
        x0
    };
    let above = click.1 - height - gap;
    let y0 = if above >= top {
        above
    } else {
        click.1 + gap
    };
    let y = if y0 < top {
        top
    } else if y0 > max_y {
        max_y
    } else {
        y0
    };
    (x, y)
}


/// The rows of the tray menu.
#[derive(Debug, Clone, PartialEq)]
pub struct MenuState {
    pub quota: String,
    pub progress: String,
    pub reset: String,
    pub forecast: String,
    pub today_tokens: String,
    pub sessions: String,
    pub updated: String,
}

pub struct MenuModel {
    pub quota: Seq<char>,
    pub progress: Seq<char>,
    pub reset: Seq<char>,
    pub forecast: Seq<char>,
    pub today_tokens: Seq<char>,
    pub sessions: Seq<char>,
    pub updated: Seq<char>,
}

impl View for MenuState {
    type V = MenuModel;

    open spec fn view(&self) -> MenuModel {
        MenuModel {
            quota: self.quota@,
            progress: self.progress@,
            reset: self.reset@,
            forecast: self.forecast@,
            today_tokens: self.today_tokens@,
            sessions: self.sessions@,
            updated: self.updated@,
        }
    }
}

/// The local-time texts the menu shows, and the date of the latest daily
/// bucket: they depend on the machine's time zone.
pub struct MenuTimes {
    /// The reset time, as `重置  M 月 D 日 HH:MM`.
    pub reset: Option<String>,
    /// The forecast exhaustion time, as `M 月 D 日 HH:MM`.
    pub exhausts: Option<String>,
    /// The observation date, as `YYYY-MM-DD`.
    pub observed_date: Option<String>,
    /// The observation time, as `HH:MM`.
    pub updated: Option<String>,
    /// The latest daily bucket's date, read from its text.
    pub bucket_date: Option<(i32, u32, u32)>,
}

pub open spec fn quota_row(snapshot: DashboardSnapshot) -> Seq<char> {
    match snapshot.primary_quota {
        Some(q) => "额度剩余 "@ + percent_text(q.remaining_percent as int) + "% · 已用 "@
            + percent_text(clamp_percent(q.used_percent as int)) + "%"@,
        None => "额度暂不可用"@,
    }
}

pub open spec fn progress_row(snapshot: DashboardSnapshot) -> Seq<char> {
    match snapshot.primary_quota {
        Some(q) => "消耗  "@ + progress_bar(clamp_percent(q.used_percent as int)) + "  "@
            + percent_text(clamp_percent(q.used_percent as int)) + "%"@,
        None => "消耗  —"@,
    }
}

pub open spec fn reset_row(snapshot: DashboardSnapshot, times: MenuTimes) -> Seq<char> {
    match (snapshot.primary_quota, times.reset) {
        (Some(_), Some(t)) => t@,
        _ => "重置  —"@,
    }
}

pub open spec fn forecast_row(snapshot: DashboardSnapshot, times: MenuTimes) -> Seq<char> {
    match snapshot.forecast {
        Some(f) => match f.status {
            ForecastStatus::DepletesBeforeReset => match (f.exhausts_at, times.exhausts) {
                (Some(_), Some(t)) => "预测  "@ + t@ + "耗尽"@,
                _ => "预测  本周期可能耗尽"@,
            },
            ForecastStatus::SurvivesWindow => "预测  重置前不会耗尽"@,
            ForecastStatus::NoMeasurableBurn => "预测  当前消耗很低"@,
        },
        None => "预测  正在积累样本"@,
    }
}

/// A forecast that the quota runs out before the reset is shown as such:
/// its row reads "预测  ", the local exhaustion time when there is one, and
/// "耗尽"; without a time it still says the quota may run out this cycle,
/// never that it lasts until the reset.
pub proof fn lemma_depleting_forecast_row(snapshot: DashboardSnapshot, times: MenuTimes)
    requires
        snapshot.forecast matches Some(f) && f.status == ForecastStatus::DepletesBeforeReset,
    ensures
        ({
            let row = spec_menu(snapshot, times).forecast;
            &&& row.len() >= 6
            &&& row.subrange(0, 4) == "预测  "@
            &&& row.subrange(row.len() - 2, row.len() as int) == "耗尽"@
            &&& (snapshot.forecast->0.exhausts_at is Some && times.exhausts is Some) ==> row.subrange(
                4,
                row.len() - 2,
            ) == times.exhausts->0@
            &&& (snapshot.forecast->0.exhausts_at is None || times.exhausts is None) ==> row
                != "预测  重置前不会耗尽"@
        }),
{
    reveal_strlit("预测  ");
    reveal_strlit("耗尽");
    reveal_strlit("预测  本周期可能耗尽");
    reveal_strlit("预测  重置前不会耗尽");
    let row = spec_menu(snapshot, times).forecast;
    let f = snapshot.forecast->0;
    if f.exhausts_at is Some && times.exhausts is Some {
        let t = times.exhausts->0@;
        assert(row == "预测  "@ + t + "耗尽"@);
        assert(row.subrange(0, 4) =~= "预测  "@);
        assert(row.subrange(row.len() - 2, row.len() as int) =~= "耗尽"@);
        assert(row.subrange(4, row.len() - 2) =~= t);
    } else {
        assert(row == "预测  本周期可能耗尽"@);
        assert(row.subrange(0, 4) =~= "预测  "@);
        assert(row.subrange(row.len() - 2, row.len() as int) =~= "耗尽"@);
        assert(row[4] != "预测  重置前不会耗尽"@[4]);
    }
}

/// The label of a daily bucket: today's when its date is the observation
/// date, else its month and day, else its text.
pub open spec fn bucket_label(b: DailyUsageBucket, times: MenuTimes) -> Seq<char> {
    if opt_text(times.observed_date) == Some(b.start_date@) {
        "今日 Token"@
    } else {
        match times.bucket_date {
            Some((_, m, d)) => decimal(m as int) + " 月 "@ + decimal(d as int) + " 日 Token"@,
            None => b.start_date@ + " Token"@,
        }
    }
}

pub open spec fn today_row(snapshot: DashboardSnapshot, times: MenuTimes) -> Seq<char> {
    match snapshot.account_usage {
        Some(u) => match latest_bucket(u.daily_usage_buckets@) {
            Some(k) => bucket_label(u.daily_usage_buckets@[k], times) + "  "@ + token_count_text(
                u.daily_usage_buckets@[k].tokens as int,
            ),
            None => "今日 Token  —"@,
        },
        None => "今日 Token  —"@,
    }
}

pub open spec fn updated_row(times: MenuTimes) -> Seq<char> {
    match times.updated {
        Some(t) => "最近更新  "@ + t@,
        None => "最近更新  —"@,
    }
}

/// The menu for a snapshot, given the local-time texts.
pub open spec fn spec_menu(snapshot: DashboardSnapshot, times: MenuTimes) -> MenuModel {
    MenuModel {
        quota: quota_row(snapshot),
        progress: progress_row(snapshot),
        reset: reset_row(snapshot, times),
        forecast: forecast_row(snapshot, times),
        today_tokens: today_row(snapshot, times),
        sessions: "本机会话  "@ + decimal(snapshot.local_sessions.sessions@.len() as int) + " 个"@,
        updated: updated_row(times),
    }
}

fn concat3(a: &str, b: String, c: &str) -> (r: String)
    ensures
        r@ == a@ + b@ + c@,
{
    let mut s = owned(a);
    push_str(&mut s, b.as_str());
    push_str(&mut s, c);
    s
}

/// The menu rows for a snapshot, given the local-time texts.
pub fn menu_state_from(snapshot: &DashboardSnapshot, times: &MenuTimes) -> (r: MenuState)
    ensures
        r@ == spec_menu(*snapshot, *times),
{
    let (quota, progress) = match &snapshot.primary_quota {
        Some(q) => {
            let used = clamp_percent_exec(q.used_percent);
            let mut quota = owned("额度剩余 ");
            push_percent(&mut quota, q.remaining_percent as i64);
            push_str(&mut quota, "% · 已用 ");
            push_percent(&mut quota, used as i64);
            push_str(&mut quota, "%");
            let mut progress = owned("消耗  ");
            let bar = usage_progress(used);
            proof {
                assert(progress_bar(used as int) == progress_bar(clamp_percent(q.used_percent as int)));
            }
            push_str(&mut progress, bar.as_str());
            push_str(&mut progress, "  ");
            push_percent(&mut progress, used as i64);
            push_str(&mut progress, "%");
            (quota, progress)
        },
        None => (owned("额度暂不可用"), owned("消耗  —")),
    };
    let reset = match (&snapshot.primary_quota, &times.reset) {
        (Some(_), Some(t)) => owned(t.as_str()),
        _ => owned("重置  —"),
    };
    let forecast = match &snapshot.forecast {
        Some(f) => match f.status {
            ForecastStatus::DepletesBeforeReset => match (f.exhausts_at, &times.exhausts) {
                (Some(_), Some(t)) => concat3("预测  ", owned(t.as_str()), "耗尽"),
                _ => owned("预测  本周期可能耗尽"),
            },
            ForecastStatus::SurvivesWindow => owned("预测  重置前不会耗尽"),
            ForecastStatus::NoMeasurableBurn => owned("预测  当前消耗很低"),
        },
        None => owned("预测  正在积累样本"),
    };
    let today_tokens = match &snapshot.account_usage {
        Some(u) => match latest_bucket_index(&u.daily_usage_buckets) {
            Some(k) => {
                let b = &u.daily_usage_buckets[k];
                let is_today = match &times.observed_date {
                    Some(d) => *d == b.start_date,
                    None => false,
                };
                let mut line = if is_today {
                    owned("今日 Token")
                } else {
                    match times.bucket_date {
                        Some((_, m, d)) => {
                            let mut l = String::new();
                            push_decimal(&mut l, m as i128);
                            push_str(&mut l, " 月 ");
                            push_decimal(&mut l, d as i128);
                            push_str(&mut l, " 日 Token");
                            proof {
                                assert(Seq::<char>::empty() + decimal(m as int) + " 月 "@ + decimal(
                                    d as int,
                                ) + " 日 Token"@ =~= decimal(m as int) + " 月 "@ + decimal(d as int)
                                    + " 日 Token"@);
                            }
                            l
                        },
                        None => {
                            let mut l = owned(b.start_date.as_str());
                            push_str(&mut l, " Token");
                            l
                        },
                    }
                };
                push_str(&mut line, "  ");
                let count = format_token_count(b.tokens);
                push_str(&mut line, count.as_str());
                line
            },
            None => owned("今日 Token  —"),
        },
        None => owned("今日 Token  —"),
    };
    let mut sessions = owned("本机会话  ");
    push_decimal(&mut sessions, snapshot.local_sessions.sessions.len() as i128);
    push_str(&mut sessions, " 个");
    let updated = match &times.updated {
        Some(t) => {
            let mut l = owned("最近更新  ");
            push_str(&mut l, t.as_str());
            l
        },
        None => owned("最近更新  —"),
    };
    MenuState { quota, progress, reset, forecast, today_tokens, sessions, updated }
}

/// The local-time texts are the ones that belong to the snapshot: each is
/// there exactly when its timestamp can be shown, and shows it with the
/// row's pattern in the local time zone.
pub open spec fn times_fit(snapshot: DashboardSnapshot, times: MenuTimes) -> bool {
    &&& match snapshot.primary_quota {
        Some(q) => local_text_fits(times.reset, q.resets_at as int, "重置  %-m 月 %-d 日 %H:%M"@),
        None => times.reset is None,
    }
    &&& if snapshot.observed_at > 0 {
        &&& local_text_fits(times.observed_date, snapshot.observed_at as int, "%Y-%m-%d"@)
        &&& local_text_fits(times.updated, snapshot.observed_at as int, "%H:%M"@)
    } else {
        times.observed_date is None && times.updated is None
    }
    &&& match snapshot.forecast {
        Some(f) => match f.exhausts_at {
            Some(t) => local_text_fits(times.exhausts, t as int, "%-m 月 %-d 日 %H:%M"@),
            None => times.exhausts is None,
        },
        None => times.exhausts is None,
    }
    &&& bucket_date_fits(snapshot, times.bucket_date)
}

/// The date of the latest daily bucket is its start date as
/// `NaiveDate::parse_from_str(.., "%Y-%m-%d")` reads it.
pub open spec fn bucket_date_fits(snapshot: DashboardSnapshot, date: Option<(i32, u32, u32)>) -> bool {
    match snapshot.account_usage {
        Some(u) => match latest_bucket(u.daily_usage_buckets@) {
            Some(k) => match parsed_date(u.daily_usage_buckets@[k].start_date@, "%Y-%m-%d"@) {
                Some(p) => date matches Some(d) && d.0 as int == p.0 && d.1 as int == p.1 && d.2 as int
                    == p.2,
                None => date is None,
            },
            None => date is None,
        },
        None => date is None,
    }
}

/// The menu rows for a snapshot in the machine's time zone.
pub fn menu_state(snapshot: &DashboardSnapshot) -> (r: MenuState)
    ensures
        exists|times: MenuTimes| times_fit(*snapshot, times) && r@ == spec_menu(*snapshot, times),
{
    let reset = match &snapshot.primary_quota {
        Some(q) => local_time_text(q.resets_at, "重置  %-m 月 %-d 日 %H:%M"),
        None => None,
    };
    let exhausts = match &snapshot.forecast {
        Some(f) => match f.exhausts_at {
            Some(t) => local_time_text(t, "%-m 月 %-d 日 %H:%M"),
            None => None,
        },
        None => None,
    };
    let (observed_date, updated) = if snapshot.observed_at > 0 {
        (
            local_time_text(snapshot.observed_at, "%Y-%m-%d"),
            local_time_text(snapshot.observed_at, "%H:%M"),
        )
    } else {
        (None, None)
    };
    let bucket_date = match &snapshot.account_usage {
        Some(u) => match latest_bucket_index(&u.daily_usage_buckets) {
            Some(k) => parse_date(u.daily_usage_buckets[k].start_date.as_str(), "%Y-%m-%d"),
            None => None,
        },
        None => None,
    };
    let times = MenuTimes { reset, exhausts, observed_date, updated, bucket_date };
    let r = menu_state_from(snapshot, &times);
    proof {
        assert(times_fit(*snapshot, times));
    }
    r
}


proof fn lemma_repeat_len(c: char, n: int)
    requires
        n >= 0,
    ensures
        repeat_char(c, n).len() == n,
        forall|i: int| 0 <= i < n ==> #[trigger] repeat_char(c, n)[i] == c,
    decreases n,
{
    if n > 0 {
        lemma_repeat_len(c, n - 1);
    }
}

/// The usage bar always has ten segments, and more use never fills fewer.
pub proof fn lemma_progress_bar_shape(used: int, more: int)
    requires
        used <= more,
    ensures
        progress_bar(used).len() == 10,
        0 <= filled_segments(used) <= filled_segments(more) <= 10,
{
    assert(0 <= clamp_percent(used) <= clamp_percent(more) <= hundred());
    assert((2 * clamp_percent(used) + 10_000_000) / 20_000_000 <= (2 * clamp_percent(more)
        + 10_000_000) / 20_000_000) by (nonlinear_arith)
        requires
            0 <= clamp_percent(used) <= clamp_percent(more),
    ;
    assert(filled_segments(more) <= 10);
    lemma_repeat_len('█', filled_segments(used));
    lemma_repeat_len('░', 10 - filled_segments(used));
}


/// The live tray icon: the template dial on macOS, the percentage badge
/// elsewhere.
#[derive(Debug, Clone, Copy, PartialEq, Eq, Structural)]
pub enum LiveIcon {
    /// The dial drawn as a template image of this many pixels a side.
    Dial { size: u32 },
    /// The remaining-percentage badge of this many pixels a side.
    Badge { size: u32 },
}

pub fn live_icon(target_os: &str) -> (r: LiveIcon)
    ensures
        r == (if target_os@ == "macos"@ {
            LiveIcon::Dial { size: 44 }
        } else {
            LiveIcon::Badge { size: 32 }
        }),
{
    if uses_native_menu_bar(target_os) {
        LiveIcon::Dial { size: 44 }
    } else {
        LiveIcon::Badge { size: 32 }
    }
}

/// Whether a point lies on the monitor at `origin` of `size`.
pub open spec fn on_monitor(click: (int, int), origin: (int, int), size: (int, int)) -> bool {
    origin.0 <= click.0 < origin.0 + size.0 && origin.1 <= click.1 < origin.1 + size.1
}

pub open spec fn monitor_at(m: ((i32, i32), (u32, u32))) -> ((int, int), (int, int)) {
    ((m.0.0 as int, m.0.1 as int), (m.1.0 as int, m.1.1 as int))
}

/// The first monitor the click lies on.
pub fn monitor_containing(click: (i32, i32), monitors: &Vec<((i32, i32), (u32, u32))>) -> (r: Option<usize>)
    ensures
        match r {
            Some(i) => i < monitors@.len() && on_monitor(
                (click.0 as int, click.1 as int),
                monitor_at(monitors@[i as int]).0,
                monitor_at(monitors@[i as int]).1,
            ) && forall|j: int|
                0 <= j < i ==> !on_monitor(
                    (click.0 as int, click.1 as int),
                    monitor_at(#[trigger] monitors@[j]).0,
                    monitor_at(monitors@[j]).1,
                ),
            None => forall|j: int|
                0 <= j < monitors@.len() ==> !on_monitor(
                    (click.0 as int, click.1 as int),
                    monitor_at(#[trigger] monitors@[j]).0,
                    monitor_at(monitors@[j]).1,
                ),
        },
{
    let mut i: usize = 0;
    while i < monitors.len()
        invariant
            i <= monitors@.len(),
            forall|j: int|
                0 <= j < i ==> !on_monitor(
                    (click.0 as int, click.1 as int),
                    monitor_at(#[trigger] monitors@[j]).0,
                    monitor_at(monitors@[j]).1,
                ),
        decreases monitors@.len() - i,
    {
        let (origin, size) = monitors[i];
        let x = click.0 as i64;
        let y = click.1 as i64;
        if origin.0 as i64 <= x && x < origin.0 as i64 + size.0 as i64 && origin.1 as i64 <= y && y
            < origin.1 as i64 + size.1 as i64 {
            return Some(i);
        }
        i += 1;
    }
    None
}

/// Where the panel goes when the click is on no known monitor: centred
/// above the click.
pub fn fallback_panel_position(click: (i32, i32), window_size: (u32, u32)) -> (r: (i64, i64))
    ensures
        r.0 == click.0 - window_size.0 as int / 2,
        r.1 == click.1 - window_size.1 - 12,
{
    (click.0 as i64 - (window_size.0 / 2) as i64, click.1 as i64 - window_size.1 as i64 - 12)
}

} // verus!
