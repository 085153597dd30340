//! The account and session data the app shows: quota windows, account
//! usage, local session summaries and the dashboard snapshot.
use vstd::prelude::*;
use crate::forecast::{ExhaustionForecast, ForecastStatus};
use crate::quota_trend::{QuotaHistoryPoint, QuotaPace};
use crate::text::{chars_of, push_char, owned, to_lowercase, unicode_lowercase, text_le, text_le_exec,
    lemma_text_le_total, lemma_text_le_trans};

verus! {

/// Token counts of one usage event or of an aggregate.
#[derive(Debug, Clone, Copy, PartialEq, Eq, Structural, Default)]
pub struct TokenBreakdown {
    pub input_tokens: i64,
    pub cached_input_tokens: i64,
    pub output_tokens: i64,
    pub reasoning_output_tokens: i64,
}

impl TokenBreakdown {
    /// The billable total: input plus output tokens (cached input is part of
    /// input, reasoning output is part of output).
    pub fn total(&self) -> (r: i64)
        requires
            i64::MIN <= self.input_tokens + self.output_tokens <= i64::MAX,
        ensures
            r == self.input_tokens + self.output_tokens,
    {
        self.input_tokens + self.output_tokens
    }
}

/// One stored reading of a quota window.
#[derive(Debug, Clone, PartialEq)]
pub struct RateObservation {
    pub observed_at: i64,
    pub limit_id: String,
    pub window_kind: String,
    /// Millionths of a percentage point (18% is 18_000_000).
    pub used_percent: i32,
    pub window_duration_mins: i64,
    pub resets_at: i64,
}

/// One quota window as the account server reports it.
#[derive(Debug, Clone, Copy, PartialEq, Eq, Structural)]
pub struct RateWindow {
    /// Millionths of a percentage point.
    pub used_percent: i32,
    pub window_duration_mins: i64,
    pub resets_at: i64,
}

/// The windows of one rate limit.
#[derive(Debug, Clone, PartialEq)]
pub struct RateLimitBucket {
    pub limit_id: String,
    pub limit_name: Option<String>,
    pub primary: Option<RateWindow>,
    pub secondary: Option<RateWindow>,
    pub rate_limit_reached_type: Option<String>,
    pub plan_type: Option<String>,
}

/// Credits that reset a limit early; each credit is kept as its JSON text.
#[derive(Debug, Clone, PartialEq)]
pub struct ResetCredits {
    pub available_count: i64,
    pub credits: Option<Vec<String>>,
}

/// The answer to a rate-limit read. `by_limit_id` holds the buckets keyed by
/// limit id, in ascending key order, each key once.
#[derive(Debug, Clone, PartialEq)]
pub struct RateLimitsResult {
    pub rate_limits: Option<RateLimitBucket>,
    pub by_limit_id: Vec<(String, RateLimitBucket)>,
    pub reset_credits: Option<ResetCredits>,
}

pub fn copy_string(s: &String) -> (r: String)
    ensures
        r == *s,
{
    s.clone()
}

pub fn copy_opt_string(s: &Option<String>) -> (r: Option<String>)
    ensures
        r == *s,
{
    match s {
        Some(v) => Some(v.clone()),
        None => None,
    }
}

impl RateLimitBucket {
    pub fn duplicate(&self) -> (r: Self)
        ensures
            r == *self,
    {
        RateLimitBucket {
            limit_id: copy_string(&self.limit_id),
            limit_name: copy_opt_string(&self.limit_name),
            primary: self.primary,
            secondary: self.secondary,
            rate_limit_reached_type: copy_opt_string(&self.rate_limit_reached_type),
            plan_type: copy_opt_string(&self.plan_type),
        }
    }
}

/// The buckets a rate-limit answer stands for: the keyed buckets when there
/// are any, else the single legacy bucket under its own id.
pub open spec fn spec_buckets(r: RateLimitsResult) -> Seq<(String, RateLimitBucket)> {
    if r.by_limit_id@.len() > 0 {
        r.by_limit_id@
    } else {
        match r.rate_limits {
            Some(b) => seq![(b.limit_id, b)],
            None => seq![],
        }
    }
}

/// The keyed buckets come in strictly ascending order of limit id, so each
/// id once, as in a map keyed by id.
pub open spec fn limit_ids_ascending(v: Seq<(String, RateLimitBucket)>) -> bool {
    forall|i: int|
        0 <= i < v.len() - 1 ==> text_le(#[trigger] v[i].0@, v[i + 1].0@) && v[i].0@ != v[i + 1].0@
}

/// Whether the keyed buckets are in strictly ascending order of limit id.
pub fn limit_ids_in_order(result: &RateLimitsResult) -> (r: bool)
    ensures
        r == limit_ids_ascending(result.by_limit_id@),
{
    let v = &result.by_limit_id;
    if v.len() == 0 {
        return true;
    }
    let mut i: usize = 0;
    while i < v.len() - 1
        invariant
            v@ == result.by_limit_id@,
            v@.len() > 0,
            i <= v@.len() - 1,
            forall|k: int|
                0 <= k < i ==> text_le(#[trigger] v@[k].0@, v@[k + 1].0@) && v@[k].0@ != v@[k
                    + 1].0@,
        decreases v@.len() - i,
    {
        let le = text_le_exec(&v[i].0, &v[i + 1].0);
        let same = v[i].0 == v[i + 1].0;
        if !le || same {
            proof {
                let w = result.by_limit_id@;
                assert(!(text_le(w[i as int].0@, w[i + 1].0@) && w[i as int].0@ != w[i + 1].0@));
                assert(!limit_ids_ascending(w));
            }
            return false;
        }
        i += 1;
    }
    true
}

impl RateLimitsResult {
    pub fn buckets(&self) -> (r: Vec<(String, RateLimitBucket)>)
        ensures
            r@ == spec_buckets(*self),
    {
        if self.by_limit_id.len() > 0 {
            let mut out: Vec<(String, RateLimitBucket)> = Vec::new();
            let mut i: usize = 0;
            while i < self.by_limit_id.len()
                invariant
                    i <= self.by_limit_id.len(),
                    out@ == self.by_limit_id@.take(i as int),
                decreases self.by_limit_id.len() - i,
            {
                let entry = &self.by_limit_id[i];
                out.push((copy_string(&entry.0), entry.1.duplicate()));
                proof {
                    assert(self.by_limit_id@.take(i + 1) =~= self.by_limit_id@.take(i as int).push(
                        self.by_limit_id@[i as int],
                    ));
                }
                i += 1;
            }
            proof {
                assert(self.by_limit_id@.take(self.by_limit_id.len() as int) =~= self.by_limit_id@);
            }
            out
        } else {
            match &self.rate_limits {
                Some(b) => {
                    let mut out: Vec<(String, RateLimitBucket)> = Vec::new();
                    out.push((copy_string(&b.limit_id), b.duplicate()));
                    proof {
                        assert(out@ =~= seq![(b.limit_id, *b)]);
                    }
                    out
                },
                None => {
                    let out: Vec<(String, RateLimitBucket)> = Vec::new();
                    proof {
                        assert(out@ =~= Seq::<(String, RateLimitBucket)>::empty());
                    }
                    out
                },
            }
        }
    }
}

#[derive(Debug, Clone, Copy, PartialEq, Eq, Structural)]
pub struct UsageSummary {
    pub lifetime_tokens: Option<i64>,
    pub peak_daily_tokens: Option<i64>,
    pub longest_running_turn_sec: Option<i64>,
    pub current_streak_days: Option<i64>,
    pub longest_streak_days: Option<i64>,
}

#[derive(Debug, Clone, PartialEq)]
pub struct DailyUsageBucket {
    /// `YYYY-MM-DD`.
    pub start_date: String,
    pub tokens: i64,
}

#[derive(Debug, Clone, PartialEq)]
pub struct AccountUsageResult {
    pub summary: Option<UsageSummary>,
    pub daily_usage_buckets: Option<Vec<DailyUsageBucket>>,
}

/// The part of the account usage that the dashboard shows.
#[derive(Debug, Clone, PartialEq)]
pub struct AccountUsageView {
    pub lifetime_tokens: Option<i64>,
    pub peak_daily_tokens: Option<i64>,
    pub daily_usage_buckets: Vec<DailyUsageBucket>,
}

impl AccountUsageView {
    /// Keeps the lifetime and peak totals (absent without a summary) and the
    /// daily buckets (none when absent).
    pub fn from(value: AccountUsageResult) -> (r: Self)
        ensures
            r.lifetime_tokens == (match value.summary {
                Some(s) => s.lifetime_tokens,
                None => None,
            }),
            r.peak_daily_tokens == (match value.summary {
                Some(s) => s.peak_daily_tokens,
                None => None,
            }),
            r.daily_usage_buckets@ == (match value.daily_usage_buckets {
                Some(b) => b@,
                None => Seq::empty(),
            }),
    {
        let lifetime_tokens = match value.summary {
            Some(s) => s.lifetime_tokens,
            None => None,
        };
        let peak_daily_tokens = match value.summary {
            Some(s) => s.peak_daily_tokens,
            None => None,
        };
        let daily_usage_buckets = match value.daily_usage_buckets {
            Some(b) => b,
            None => Vec::new(),
        };
        AccountUsageView { lifetime_tokens, peak_daily_tokens, daily_usage_buckets }
    }
}

/// One quota window as the dashboard shows it.
#[derive(Debug, Clone, PartialEq)]
pub struct QuotaView {
    pub limit_id: String,
    pub label: String,
    pub window_kind: String,
    /// Millionths of a percentage point.
    pub used_percent: i32,
    /// Millionths of a percentage point, within 0..=100%.
    pub remaining_percent: i32,
    pub window_duration_mins: i64,
    pub resets_at: i64,
    pub plan_type: Option<String>,
}

/// One top-level local session. Costs are in millionths of a millionth of a
/// US dollar (picodollars).
#[derive(Debug, Clone, PartialEq)]
pub struct SessionSummary {
    pub session_id: String,
    pub title: String,
    pub project_path: Option<String>,
    pub last_active_at: i64,
    pub primary_model: Option<String>,
    pub tokens: TokenBreakdown,
    pub monthly_tokens: TokenBreakdown,
    pub equivalent_cost_usd: Option<i128>,
    pub monthly_equivalent_cost_usd: Option<i128>,
    pub priced_tokens: i64,
    pub unpriced_tokens: i64,
    pub monthly_priced_tokens: i64,
    pub monthly_unpriced_tokens: i64,
    pub child_session_count: i64,
}

#[derive(Debug, Clone, PartialEq, Default)]
pub struct SessionDiagnostics {
    pub scanned_files: i64,
    pub skipped_lines: i64,
    pub last_imported_at: Option<i64>,
    pub last_error: Option<String>,
}

#[derive(Debug, Clone, Copy, PartialEq, Eq, Structural, Default)]
pub struct MonthlyUsageSummary {
    pub period_start: i64,
    pub period_end: i64,
    pub tokens: TokenBreakdown,
    /// Picodollars.
    pub equivalent_cost_usd: Option<i128>,
    pub priced_tokens: i64,
    pub unpriced_tokens: i64,
}

#[derive(Debug, Clone, PartialEq, Default)]
pub struct LocalSessionView {
    pub sessions: Vec<SessionSummary>,
    pub monthly_summary: MonthlyUsageSummary,
    pub diagnostics: SessionDiagnostics,
}

/// Everything the dashboard shows at one moment.
#[derive(Debug, Clone, PartialEq)]
pub struct DashboardSnapshot {
    pub observed_at: i64,
    pub is_stale: bool,
    pub connection_error: Option<String>,
    pub account_usage_error: Option<String>,
    pub primary_quota: Option<QuotaView>,
    pub other_quotas: Vec<QuotaView>,
    pub account_usage: Option<AccountUsageView>,
    pub forecast: Option<ExhaustionForecast>,
    pub quota_history: Vec<QuotaHistoryPoint>,
    pub quota_pace: Option<QuotaPace>,
    pub local_sessions: LocalSessionView,
}

pub open spec fn empty_local_sessions(v: LocalSessionView) -> bool {
    &&& v.sessions@.len() == 0
    &&& v.monthly_summary == MonthlyUsageSummary {
        period_start: 0,
        period_end: 0,
        tokens: TokenBreakdown {
            input_tokens: 0,
            cached_input_tokens: 0,
            output_tokens: 0,
            reasoning_output_tokens: 0,
        },
        equivalent_cost_usd: None,
        priced_tokens: 0,
        unpriced_tokens: 0,
    }
    &&& v.diagnostics.scanned_files == 0
    &&& v.diagnostics.skipped_lines == 0
    &&& v.diagnostics.last_imported_at is None
    &&& v.diagnostics.last_error is None
}

pub fn empty_session_view() -> (r: LocalSessionView)
    ensures
        empty_local_sessions(r),
{
    LocalSessionView {
        sessions: Vec::new(),
        monthly_summary: MonthlyUsageSummary {
            period_start: 0,
            period_end: 0,
            tokens: TokenBreakdown {
                input_tokens: 0,
                cached_input_tokens: 0,
                output_tokens: 0,
                reasoning_output_tokens: 0,
            },
            equivalent_cost_usd: None,
            priced_tokens: 0,
            unpriced_tokens: 0,
        },
        diagnostics: SessionDiagnostics {
            scanned_files: 0,
            skipped_lines: 0,
            last_imported_at: None,
            last_error: None,
        },
    }
}

impl DashboardSnapshot {
    /// The snapshot before the first observation: stale, observed at 0, and
    /// holding nothing.
    pub fn initial() -> (r: Self)
        ensures
            r.observed_at == 0,
            r.is_stale,
            r.connection_error is None,
            r.account_usage_error is None,
            r.primary_quota is None,
            r.other_quotas@.len() == 0,
            r.account_usage is None,
            r.forecast is None,
            r.quota_history@.len() == 0,
            r.quota_pace is None,
            empty_local_sessions(r.local_sessions),
    {
        DashboardSnapshot {
            observed_at: 0,
            is_stale: true,
            connection_error: None,
            account_usage_error: None,
            primary_quota: None,
            other_quotas: Vec::new(),
            account_usage: None,
            forecast: None,
            quota_history: Vec::new(),
            quota_pace: None,
            local_sessions: empty_session_view(),
        }
    }
}

impl Default for DashboardSnapshot {
    fn default() -> (r: Self)
        ensures
            r.observed_at == 0,
            r.is_stale,
            r.connection_error is None,
            r.account_usage_error is None,
            r.primary_quota is None,
            r.other_quotas@.len() == 0,
            r.account_usage is None,
            r.forecast is None,
            r.quota_history@.len() == 0,
            r.quota_pace is None,
            empty_local_sessions(r.local_sessions),
    {
        DashboardSnapshot::initial()
    }
}


/// Backslashes turned into slashes.
pub open spec fn forward_slashes(s: Seq<char>) -> Seq<char> {
    s.map_values(|c: char| if c == '\\' { '/' } else { c })
}

/// Trailing slashes removed.
pub open spec fn trim_trailing_slashes(s: Seq<char>) -> Seq<char>
    decreases s.len(),
{
    if s.len() > 0 && s.last() == '/' {
        trim_trailing_slashes(s.drop_last())
    } else {
        s
    }
}

/// The key that groups sessions by project: the path with forward
/// slashes, no trailing slash, lowercased; `__unknown__` when there is no
/// path or nothing is left of it.
pub open spec fn project_key(path: Option<Seq<char>>) -> Seq<char> {
    match path {
        Some(p) => {
            let k = unicode_lowercase(trim_trailing_slashes(forward_slashes(p)));
            if k.len() > 0 {
                k
            } else {
                "__unknown__"@
            }
        },
        None => "__unknown__"@,
    }
}

proof fn lemma_trim_prefix(s: Seq<char>, end: int)
    requires
        0 <= end <= s.len(),
        forall|k: int| end <= k < s.len() ==> s[k] == '/',
        end == 0 || s[end - 1] != '/',
    ensures
        trim_trailing_slashes(s) == s.take(end),
    decreases s.len() - end,
{
    if s.len() > end {
        lemma_trim_prefix(s.drop_last(), end);
        assert(s.drop_last().take(end) =~= s.take(end));
    } else {
        assert(s.take(end) =~= s);
    }
}

/// The project key of an optional session path.
pub fn normalized_project_key(project_path: Option<&str>) -> (r: String)
    ensures
        r@ == project_key(match project_path {
            Some(p) => Some(p@),
            None => None,
        }),
{
    let unknown = "__unknown__";
    match project_path {
        None => owned(unknown),
        Some(path) => {
            let chars = chars_of(path);
            let ghost fwd = forward_slashes(path@);
            proof {
                assert forall|k: int| 0 <= k < fwd.len() implies #[trigger] fwd[k] == (if path@[k]
                    == '\\' {
                    '/'
                } else {
                    path@[k]
                }) by {}
            }
            let mut end = chars.len();
            while end > 0 && (chars[end - 1] == '/' || chars[end - 1] == '\\')
                invariant
                    end <= chars.len(),
                    chars@ == path@,
                    fwd.len() == chars.len(),
                    forall|k: int| 0 <= k < fwd.len() ==> #[trigger] fwd[k] == (if path@[k]
                        == '\\' {
                        '/'
                    } else {
                        path@[k]
                    }),
                    forall|k: int| end <= k < fwd.len() ==> fwd[k] == '/',
                decreases end,
            {
                end -= 1;
            }
            let mut trimmed = String::new();
            let mut i: usize = 0;
            while i < end
                invariant
                    i <= end <= chars.len(),
                    chars@ == path@,
                    fwd.len() == chars.len(),
                    forall|k: int| 0 <= k < fwd.len() ==> #[trigger] fwd[k] == (if path@[k]
                        == '\\' {
                        '/'
                    } else {
                        path@[k]
                    }),
                    end == 0 || fwd[end - 1] != '/',
                    forall|k: int| end <= k < fwd.len() ==> fwd[k] == '/',
                    trimmed@ == fwd.take(i as int),
                decreases end - i,
            {
                let c = if chars[i] == '\\' {
                    '/'
                } else {
                    chars[i]
                };
                push_char(&mut trimmed, c);
                proof {
                    assert(fwd.take(i + 1) =~= fwd.take(i as int).push(c));
                }
                i += 1;
            }
            proof {
                lemma_trim_prefix(fwd, end as int);
            }
            let lower = to_lowercase(trimmed.as_str());
            if lower.as_str().is_empty() {
                owned(unknown)
            } else {
                lower
            }
        },
    }
}

/// The index `Iterator::max_by_key` picks among the first `n` buckets when
/// keyed by start date: the last one with the greatest date.
pub open spec fn latest_upto(b: Seq<DailyUsageBucket>, n: int) -> Option<int>
    decreases n,
{
    if n <= 0 {
        None
    } else {
        match latest_upto(b, n - 1) {
            None => Some(n - 1),
            Some(k) => if text_le(b[k].start_date@, b[n - 1].start_date@) {
                Some(n - 1)
            } else {
                Some(k)
            },
        }
    }
}

/// The bucket with the latest start date (the last of equal ones).
pub open spec fn latest_bucket(b: Seq<DailyUsageBucket>) -> Option<int> {
    latest_upto(b, b.len() as int)
}

proof fn lemma_latest_upto_range(b: Seq<DailyUsageBucket>, n: int)
    ensures
        latest_upto(b, n) matches Some(k) ==> 0 <= k < n,
        n > 0 ==> latest_upto(b, n) is Some,
    decreases n,
{
    if n > 0 {
        lemma_latest_upto_range(b, n - 1);
    }
}

proof fn lemma_latest_upto_greatest(b: Seq<DailyUsageBucket>, n: int)
    requires
        0 <= n <= b.len(),
    ensures
        latest_upto(b, n) is None <==> n == 0,
        latest_upto(b, n) matches Some(k) ==> {
            &&& 0 <= k < n
            &&& forall|i: int| 0 <= i < n ==> text_le(#[trigger] b[i].start_date@, b[k].start_date@)
            &&& forall|i: int| k < i < n ==> !text_le(b[k].start_date@, #[trigger] b[i].start_date@)
        },
    decreases n,
{
    if n > 0 {
        lemma_latest_upto_greatest(b, n - 1);
        let last = b[n - 1].start_date@;
        lemma_text_le_total(last, last);
        match latest_upto(b, n - 1) {
            None => {},
            Some(p) => {
                let bp = b[p].start_date@;
                if text_le(bp, last) {
                    assert forall|i: int| 0 <= i < n implies text_le(
                        #[trigger] b[i].start_date@,
                        last,
                    ) by {
                        if i < n - 1 {
                            lemma_text_le_trans(b[i].start_date@, bp, last);
                        }
                    }
                } else {
                    lemma_text_le_total(bp, last);
                }
            },
        }
    }
}

/// The bucket picked as the latest has the greatest start date of all, and
/// every bucket after it has an earlier one (so it is the last of the
/// greatest); there is one exactly when there are buckets.
pub proof fn lemma_latest_bucket_is_greatest(b: Seq<DailyUsageBucket>)
    ensures
        latest_bucket(b) is None <==> b.len() == 0,
        latest_bucket(b) matches Some(k) ==> {
            &&& 0 <= k < b.len()
            &&& forall|i: int| 0 <= i < b.len() ==> text_le(#[trigger] b[i].start_date@, b[k].start_date@)
            &&& forall|i: int| k < i < b.len() ==> !text_le(b[k].start_date@, #[trigger] b[i].start_date@)
        },
{
    lemma_latest_upto_greatest(b, b.len() as int);
}

/// Index of the bucket with the latest start date.
pub fn latest_bucket_index(b: &Vec<DailyUsageBucket>) -> (r: Option<usize>)
    ensures
        match r {
            Some(k) => latest_bucket(b@) == Some(k as int) && k < b.len(),
            None => latest_bucket(b@) is None,
        },
{
    let mut best: Option<usize> = None;
    let mut i: usize = 0;
    while i < b.len()
        invariant
            i <= b.len(),
            match best {
                Some(k) => latest_upto(b@, i as int) == Some(k as int) && k < i,
                None => latest_upto(b@, i as int) is None && i == 0,
            },
        decreases b.len() - i,
    {
        best = match best {
            None => Some(i),
            Some(k) => if text_le_exec(&b[k].start_date, &b[i].start_date) {
                Some(i)
            } else {
                Some(k)
            },
        };
        i += 1;
    }
    best
}

/// The compact snapshot the tray panel receives.
#[derive(Debug, Clone, PartialEq)]
pub struct TrayPanelSnapshot {
    pub observed_at: i64,
    pub is_stale: bool,
    pub connection_error: Option<String>,
    pub primary_quota: Option<QuotaView>,
    pub forecast_status: Option<ForecastStatus>,
    pub latest_daily_tokens: Option<i64>,
    pub project_count: usize,
    pub session_count: usize,
}

pub open spec fn session_path_view(s: SessionSummary) -> Option<Seq<char>> {
    match s.project_path {
        Some(p) => Some(p@),
        None => None,
    }
}

/// The project keys of the sessions, in order.
pub open spec fn project_keys(sessions: Seq<SessionSummary>) -> Seq<Seq<char>> {
    sessions.map_values(|s: SessionSummary| project_key(session_path_view(s)))
}

/// The tokens of the latest daily bucket of the account usage.
pub open spec fn latest_daily_tokens(usage: Option<AccountUsageView>) -> Option<i64> {
    match usage {
        Some(u) => match latest_bucket(u.daily_usage_buckets@) {
            Some(k) => Some(u.daily_usage_buckets@[k].tokens),
            None => None,
        },
        None => None,
    }
}

pub fn copy_quota(q: &QuotaView) -> (r: QuotaView)
    ensures
        r == *q,
{
    QuotaView {
        limit_id: copy_string(&q.limit_id),
        label: copy_string(&q.label),
        window_kind: copy_string(&q.window_kind),
        used_percent: q.used_percent,
        remaining_percent: q.remaining_percent,
        window_duration_mins: q.window_duration_mins,
        resets_at: q.resets_at,
        plan_type: copy_opt_string(&q.plan_type),
    }
}

pub fn copy_opt_quota(q: &Option<QuotaView>) -> (r: Option<QuotaView>)
    ensures
        r == *q,
{
    match q {
        Some(v) => Some(copy_quota(v)),
        None => None,
    }
}

/// How many distinct project keys the sessions have.
fn distinct_project_count(sessions: &Vec<SessionSummary>) -> (r: usize)
    ensures
        r == project_keys(sessions@).to_set().len(),
{
    let ghost keys = project_keys(sessions@);
    let mut seen: Vec<String> = Vec::new();
    let mut i: usize = 0;
    while i < sessions.len()
        invariant
            i <= sessions.len(),
            keys == project_keys(sessions@),
            seen@.map_values(|s: String| s@).no_duplicates(),
            seen@.map_values(|s: String| s@).to_set() == keys.take(i as int).to_set(),
            seen.len() <= i,
        decreases sessions.len() - i,
    {
        let path = match &sessions[i].project_path {
            Some(p) => Some(p.as_str()),
            None => None,
        };
        let key = normalized_project_key(path);
        proof {
            assert(key@ == keys[i as int]);
        }
        let ghost before = seen@.map_values(|s: String| s@);
        let mut j: usize = 0;
        let mut found = false;
        while j < seen.len()
            invariant
                j <= seen.len(),
                before == seen@.map_values(|s: String| s@),
                found ==> before.contains(key@),
                !found ==> forall|k: int| 0 <= k < j ==> before[k] != key@,
            decreases seen.len() - j,
        {
            if seen[j] == key {
                proof {
                    assert(before[j as int] == key@);
                }
                found = true;
            }
            j += 1;
        }
        proof {
            assert(keys.take(i + 1) =~= keys.take(i as int).push(key@));
            keys.take(i as int).lemma_push_to_set_commute(key@);
        }
        if !found {
            seen.push(key);
            proof {
                let after = seen@.map_values(|s: String| s@);
                assert(after =~= before.push(key@));
                before.lemma_push_to_set_commute(key@);
                assert(after.no_duplicates());
            }
        } else {
            proof {
                assert(before.to_set().contains(key@));
                assert(before.to_set().insert(key@) =~= before.to_set());
            }
        }
        i += 1;
    }
    proof {
        assert(keys.take(sessions.len() as int) =~= keys);
        seen@.map_values(|s: String| s@).unique_seq_to_set();
    }
    seen.len()
}

impl TrayPanelSnapshot {
    /// The counts and the latest values of a dashboard snapshot.
    pub fn from(snapshot: &DashboardSnapshot) -> (r: Self)
        ensures
            r.observed_at == snapshot.observed_at,
            r.is_stale == snapshot.is_stale,
            r.connection_error == snapshot.connection_error,
            r.primary_quota == snapshot.primary_quota,
            r.forecast_status == (match snapshot.forecast {
                Some(f) => Some(f.status),
                None => None,
            }),
            r.latest_daily_tokens == latest_daily_tokens(snapshot.account_usage),
            r.project_count == project_keys(snapshot.local_sessions.sessions@).to_set().len(),
            r.session_count == snapshot.local_sessions.sessions@.len(),
    {
        let project_count = distinct_project_count(&snapshot.local_sessions.sessions);
        let latest = match &snapshot.account_usage {
            Some(u) => match latest_bucket_index(&u.daily_usage_buckets) {
                Some(k) => Some(u.daily_usage_buckets[k].tokens),
                None => None,
            },
            None => None,
        };
        TrayPanelSnapshot {
            observed_at: snapshot.observed_at,
            is_stale: snapshot.is_stale,
            connection_error: copy_opt_string(&snapshot.connection_error),
            primary_quota: copy_opt_quota(&snapshot.primary_quota),
            forecast_status: match snapshot.forecast {
                Some(f) => Some(f.status),
                None => None,
            },
            latest_daily_tokens: latest,
            project_count,
            session_count: snapshot.local_sessions.sessions.len(),
        }
    }
}

} // verus!
