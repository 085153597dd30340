//! Exhaustion forecast for a quota window, from the observations of its
//! current reset cycle. Rates are exact fractions of millionths of a
//! percentage point per hour.
use vstd::prelude::*;
use crate::domain::RateObservation;
use crate::ratio::{Ratio, frac_views, sorted_fracs, median_frac, middle_of, frac_mean, value_le,
    magnitude, compare_products};
use crate::series::{Sample, current_segment, pairwise_slopes, current_segment_of,
    pairwise_slopes_of, median_of, span_fits, lemma_segment_nonempty, lemma_segment_sorted,
    lemma_slopes_nonempty, lemma_sorted_bounded, all_bounded, bounded};
use crate::spread::{WideFrac, wide_views, abs, scaled_deviation, scaled_deviations, rate_bounded, all_dev_ok,
    deviation_of, sort_wide, middle_within};
use crate::wide::{U256, mul_wide, add_wide, le_wide, widen};

verus! {

#[derive(Debug, Clone, Copy, PartialEq, Eq, Structural)]
pub enum ForecastStatus {
    DepletesBeforeReset,
    SurvivesWindow,
    NoMeasurableBurn,
}

#[derive(Debug, Clone, Copy, PartialEq, Eq, Structural)]
pub enum ForecastConfidence {
    Low,
    Medium,
    High,
}

#[derive(Debug, Clone, Copy, PartialEq, Eq, Structural)]
pub struct ExhaustionForecast {
    pub status: ForecastStatus,
    /// Millionths of a percentage point per hour.
    pub rate_percent_per_hour: Ratio,
    pub exhausts_at: Option<i64>,
    pub confidence: ForecastConfidence,
    pub sample_count: usize,
    pub span_seconds: i64,
}

/// What a forecast says, with mathematical numbers.
pub struct ForecastModel {
    pub status: ForecastStatus,
    pub rate: (int, int),
    pub exhausts_at: Option<int>,
    pub confidence: ForecastConfidence,
    pub sample_count: int,
    pub span_seconds: int,
}

impl View for ExhaustionForecast {
    type V = ForecastModel;

    open spec fn view(&self) -> ForecastModel {
        ForecastModel {
            status: self.status,
            rate: self.rate_percent_per_hour@,
            exhausts_at: match self.exhausts_at {
                Some(t) => Some(t as int),
                None => None,
            },
            confidence: self.confidence,
            sample_count: self.sample_count as int,
            span_seconds: self.span_seconds as int,
        }
    }
}

/// 0.05 percentage points per hour: slower burn counts as none.
pub open spec fn min_burn() -> int {
    50_000
}

/// 100 percent in millionths of a percentage point.
pub open spec fn full_quota() -> int {
    100_000_000
}

pub open spec fn all_reset_at(pts: Seq<RateObservation>, resets_at: int) -> bool {
    forall|i: int| 0 <= i < pts.len() ==> #[trigger] pts[i].resets_at == resets_at
}

/// Both observations belong to one limit, window kind and window length.
pub open spec fn same_fields(a: RateObservation, b: RateObservation) -> bool {
    a.limit_id@ == b.limit_id@ && a.window_kind@ == b.window_kind@ && a.window_duration_mins
        == b.window_duration_mins
}

/// All observations belong to one limit, one window kind and one window length.
pub open spec fn same_series(pts: Seq<RateObservation>) -> bool {
    forall|i: int, j: int|
        0 <= i < pts.len() && 0 <= j < pts.len() ==> #[trigger] same_fields(pts[i], pts[j])
}

pub open spec fn span_of(seg: Seq<Sample>) -> int {
    seg.last().observed_at - seg.first().observed_at
}

/// A forecast is made exactly when all observations share the requested
/// reset time, that time is still ahead, they form one series, and the
/// current segment has at least three samples spanning at least 30 minutes.
pub open spec fn forecast_applies(pts: Seq<RateObservation>, now: int, resets_at: int) -> bool {
    &&& all_reset_at(pts, resets_at)
    &&& resets_at > now
    &&& pts.len() > 0
    &&& same_series(pts)
    &&& current_segment(pts).len() >= 3
    &&& span_of(current_segment(pts)) >= 1800
}

/// `max(|rate|, 0.05 %/h)` multiplied by the rate's denominator.
pub open spec fn deviation_scale(rate: (int, int)) -> int {
    if abs(rate.0) >= min_burn() * rate.1 {
        abs(rate.0)
    } else {
        min_burn() * rate.1
    }
}

/// The median absolute deviation of the slopes from the rate, relative to
/// `max(|rate|, 0.05 %/h)`.
pub open spec fn relative_deviation(slopes: Seq<(int, int)>, rate: (int, int)) -> (int, int) {
    let m = median_frac(scaled_deviations(slopes, rate)).unwrap();
    (m.0, m.1 * deviation_scale(rate))
}

pub open spec fn spec_confidence(
    slopes: Seq<(int, int)>,
    rate: (int, int),
    sample_count: int,
    span: int,
) -> ForecastConfidence {
    let rel = relative_deviation(slopes, rate);
    if sample_count >= 8 && span >= 14_400 && value_le(rel, (1, 4)) {
        ForecastConfidence::High
    } else if sample_count >= 4 && span >= 3_600 && value_le(rel, (3, 5)) {
        ForecastConfidence::Medium
    } else {
        ForecastConfidence::Low
    }
}

/// Seconds until the remaining quota runs out at `rate`, rounded to the
/// nearest second (halves away from zero).
pub open spec fn exhaustion_offset(latest_used: int, rate: (int, int)) -> int {
    let remaining = if full_quota() - latest_used > 0 {
        full_quota() - latest_used
    } else {
        0
    };
    let x = remaining * 3600 * rate.1;
    (2 * x + rate.0) / (2 * rate.0)
}

pub open spec fn saturating_add_i64(a: int, b: int) -> int {
    if a + b > i64::MAX {
        i64::MAX as int
    } else if a + b < i64::MIN {
        i64::MIN as int
    } else {
        a + b
    }
}

/// The forecast for `pts` at time `now` for the cycle that resets at `resets_at`.
pub open spec fn spec_forecast(pts: Seq<RateObservation>, now: int, resets_at: int) -> Option<
    ForecastModel,
> {
    if !forecast_applies(pts, now, resets_at) {
        None
    } else {
        let seg = current_segment(pts);
        let slopes = pairwise_slopes(seg, 3600);
        let rate = median_frac(slopes).unwrap();
        let span = span_of(seg);
        let confidence = spec_confidence(slopes, rate, seg.len() as int, span);
        if rate.0 <= min_burn() * rate.1 {
            Some(
                ForecastModel {
                    status: ForecastStatus::NoMeasurableBurn,
                    rate: if rate.0 < 0 {
                        (0, 1)
                    } else {
                        rate
                    },
                    exhausts_at: None,
                    confidence,
                    sample_count: seg.len() as int,
                    span_seconds: span,
                },
            )
        } else {
            let projected = saturating_add_i64(
                now,
                exhaustion_offset(seg.last().used_percent as int, rate),
            );
            if projected < resets_at {
                Some(
                    ForecastModel {
                        status: ForecastStatus::DepletesBeforeReset,
                        rate,
                        exhausts_at: Some(projected),
                        confidence,
                        sample_count: seg.len() as int,
                        span_seconds: span,
                    },
                )
            } else {
                Some(
                    ForecastModel {
                        status: ForecastStatus::SurvivesWindow,
                        rate,
                        exhausts_at: None,
                        confidence,
                        sample_count: seg.len() as int,
                        span_seconds: span,
                    },
                )
            }
        }
    }
}

proof fn lemma_median_rate_bounds(slopes: Seq<(int, int)>)
    requires
        slopes.len() > 0,
        all_bounded(slopes, 0x2_0000_0000_0000, 0x8000_0000_0000_0000),
    ensures
        rate_bounded(median_frac(slopes).unwrap()),
{
    lemma_sorted_bounded(slopes, 0x2_0000_0000_0000, 0x8000_0000_0000_0000);
    let t = sorted_fracs(slopes);
    let m = (t.len() / 2) as int;
    if t.len() % 2 == 0 {
        let a = t[m - 1];
        let b = t[m];
        assert(bounded(a, 0x2_0000_0000_0000, 0x8000_0000_0000_0000));
        assert(bounded(b, 0x2_0000_0000_0000, 0x8000_0000_0000_0000));
        assert(rate_bounded(frac_mean(a, b))) by (nonlinear_arith)
            requires
                -0x2_0000_0000_0000 < a.0 < 0x2_0000_0000_0000,
                -0x2_0000_0000_0000 < b.0 < 0x2_0000_0000_0000,
                0 < a.1 < 0x8000_0000_0000_0000,
                0 < b.1 < 0x8000_0000_0000_0000,
        ;
    } else {
        assert(bounded(t[m], 0x2_0000_0000_0000, 0x8000_0000_0000_0000));
    }
}

/// The scaled deviations of `slopes` from `rate`, in the order of `slopes`.
fn deviations_of(slopes: &Vec<Ratio>, rate: Ratio) -> (r: Vec<WideFrac>)
    requires
        all_bounded(frac_views(slopes@), 0x2_0000_0000_0000, 0x8000_0000_0000_0000),
        rate_bounded(rate@),
    ensures
        wide_views(r@) == scaled_deviations(frac_views(slopes@), rate@),
        all_dev_ok(wide_views(r@)),
{
    let mut out: Vec<WideFrac> = Vec::new();
    let mut i: usize = 0;
    while i < slopes.len()
        invariant
            i <= slopes.len(),
            all_bounded(frac_views(slopes@), 0x2_0000_0000_0000, 0x8000_0000_0000_0000),
            rate_bounded(rate@),
            wide_views(out@) == scaled_deviations(frac_views(slopes@), rate@).take(i as int),
            all_dev_ok(wide_views(out@)),
        decreases slopes.len() - i,
    {
        let s = slopes[i];
        proof {
            assert(frac_views(slopes@)[i as int] == s@);
            assert(bounded(s@, 0x2_0000_0000_0000, 0x8000_0000_0000_0000));
        }
        let dev = deviation_of(s, rate);
        let ghost before = wide_views(out@);
        out.push(dev);
        proof {
            assert(wide_views(out@) =~= before.push(dev@));
            assert(scaled_deviations(frac_views(slopes@), rate@).take(i + 1) =~= scaled_deviations(
                frac_views(slopes@),
                rate@,
            ).take(i as int).push(dev@));
        }
        i += 1;
    }
    proof {
        assert(scaled_deviations(frac_views(slopes@), rate@).take(slopes.len() as int)
            =~= scaled_deviations(frac_views(slopes@), rate@));
    }
    out
}

/// `deviation_scale(rate)` as a wide integer.
fn scale_of(rate: Ratio) -> (r: U256)
    requires
        rate_bounded(rate@),
    ensures
        r.value() == deviation_scale(rate@),
        0 < r.value() < 0x1_0000_0000_0000_0000_0000_0000_0000_0000_0000int,
{
    let magn = widen(magnitude(rate.num));
    let floor = mul_wide(50_000, rate.den as u128);
    proof {
        assert(floor.value() < 0x1_0000_0000_0000_0000_0000_0000_0000_0000_0000int) by (nonlinear_arith)
            requires
                floor.value() == 50_000 * rate.den,
                0 < rate.den < 0x8000_0000_0000_0000_0000_0000_0000_0000int,
        ;
    }
    if le_wide(floor, magn) {
        magn
    } else {
        floor
    }
}

/// Seconds until the remaining quota runs out at `rate`:
/// `exhaustion_offset`, by long division of wide integers.
fn offset_seconds(latest_used: i32, rate: Ratio) -> (r: i64)
    requires
        rate_bounded(rate@),
        rate.num > 50_000 * rate.den,
    ensures
        r == exhaustion_offset(latest_used as int, rate@),
        0 <= r,
{
    let latest = latest_used as i128;
    let remaining: i128 = if 100_000_000 - latest > 0 {
        100_000_000 - latest
    } else {
        0
    };
    let x = mul_wide((remaining * 3600) as u128, rate.den as u128);
    let num = rate.num as u128;
    proof {
        assert(x.value() == remaining * 3600 * rate.den);
        assert(0 <= x.value() < 0x1_0000_0000_0000_0000_0000_0000_0000_0000_0000_0000_0000int) by (nonlinear_arith)
            requires
                x.value() == remaining * 3600 * rate.den,
                0 <= remaining < 0x1_0000_0000,
                0 < rate.den < 0x8000_0000_0000_0000_0000_0000_0000_0000int,
        ;
        assert(x.value() * 50_000 <= remaining * 3600 * num) by (nonlinear_arith)
            requires
                x.value() == remaining * 3600 * rate.den,
                0 <= remaining,
                50_000 * rate.den < num,
        ;
        assert(remaining * 3600 * num <= 0x1_0000_0000 * 3600 * num) by (nonlinear_arith)
            requires
                0 <= remaining < 0x1_0000_0000,
                num > 0,
        ;
    }
    let x2 = add_wide(x, x);
    let t = add_wide(x2, widen(num));
    let dn: u128 = 2 * num;
    let ghost tv = t.value();
    proof {
        assert(tv == 2 * x.value() + num);
        assert(tv < 0x4000_0000 * dn) by (nonlinear_arith)
            requires
                tv == 2 * x.value() + num,
                x.value() * 50_000 <= 0x1_0000_0000 * 3600 * num,
                dn == 2 * num,
                num > 0,
        ;
    }
    let mut q: u64 = 0;
    let mut w: u64 = 0x4000_0000;
    while w > 1
        invariant
            dn > 0,
            t.value() == tv,
            1 <= w,
            q + w <= 0x4000_0000,
            q * dn <= tv,
            tv < (q + w) * dn,
        decreases w,
    {
        let h = w / 2;
        let c = q + h;
        let cd = mul_wide(c as u128, dn);
        if le_wide(cd, t) {
            proof {
                assert((c + (w - h)) * dn == (q + w) * dn);
            }
            q = c;
            w = w - h;
        } else {
            w = h;
        }
    }
    proof {
        assert(w == 1);
        assert((q + w) * dn == q * dn + dn) by (nonlinear_arith)
            requires
                w == 1,
        ;
        vstd::arithmetic::div_mod::lemma_fundamental_div_mod_converse(
            tv,
            dn as int,
            q as int,
            tv - q * dn,
        );
        assert(tv / (dn as int) == (2 * (remaining * 3600 * rate.den) + rate.num) / (2
            * rate.num));
    }
    q as i64
}

/// The forecast the app gives: none where the time from the first to the
/// last sample of the current segment does not fit in 64 bits (a difference
/// that overflows there); else `spec_forecast`.
pub open spec fn forecast_spec(pts: Seq<RateObservation>, now: int, resets_at: int) -> Option<
    ForecastModel,
> {
    if span_fits(current_segment(pts)) {
        spec_forecast(pts, now, resets_at)
    } else {
        None
    }
}

/// The exhaustion forecast for the observations `points` at time `now`, for
/// the quota cycle that resets at `resets_at`.
pub fn forecast(points: &Vec<RateObservation>, now: i64, resets_at: i64) -> (r: Option<
    ExhaustionForecast,
>)
    ensures
        match r {
            Some(f) => forecast_spec(points@, now as int, resets_at as int) == Some(f@),
            None => forecast_spec(points@, now as int, resets_at as int) is None,
        },
{
    let n = points.len();
    let mut i: usize = 0;
    while i < n
        invariant
            i <= n == points.len(),
            forall|k: int| 0 <= k < i ==> #[trigger] points@[k].resets_at == resets_at,
        decreases n - i,
    {
        if points[i].resets_at != resets_at {
            proof {
                assert(points@[i as int].resets_at != resets_at);
            }
            return None;
        }
        i += 1;
    }
    if resets_at <= now {
        return None;
    }
    if n == 0 {
        return None;
    }
    let mut i: usize = 0;
    while i < n
        invariant
            0 < n == points.len(),
            i <= n,
            forall|k: int| 0 <= k < i ==> #[trigger] same_fields(points@[k], points@[0]),
        decreases n - i,
    {
        let same = points[i].limit_id == points[0].limit_id && points[i].window_kind
            == points[0].window_kind && points[i].window_duration_mins
            == points[0].window_duration_mins;
        if !same {
            proof {
                assert(!same_fields(points@[i as int], points@[0]));
            }
            return None;
        }
        proof {
            assert(same_fields(points@[i as int], points@[0]));
        }
        i += 1;
    }
    proof {
        let pts = points@;
        assert forall|a: int, b: int| 0 <= a < pts.len() && 0 <= b < pts.len() implies #[trigger] same_fields(pts[a], pts[b]) by {
            assert(same_fields(pts[a], pts[0]));
            assert(same_fields(pts[b], pts[0]));
        }
        lemma_segment_nonempty(points@);
        lemma_segment_sorted(points@);
    }
    let seg = current_segment_of(points);
    let first = seg[0];
    let last = seg[seg.len() - 1];
    let span = match last.observed_at.checked_sub(first.observed_at) {
        Some(d) => d,
        None => {
            return None;
        },
    };
    if seg.len() < 3 || span < 1800 {
        return None;
    }
    let slopes = pairwise_slopes_of(&seg, 3600);
    proof {
        lemma_slopes_nonempty(seg@, 3600);
        assert forall|k: int| 0 <= k < frac_views(slopes@).len() implies bounded(
            #[trigger] frac_views(slopes@)[k],
            crate::series::slope_num_bound(),
            crate::series::slope_den_bound(),
        ) by {
            assert(bounded(frac_views(slopes@)[k], 3600 * 0x1_0000_0000int, 0x8000_0000_0000_0000));
        }
    }
    let rate = match median_of(&slopes) {
        Some(m) => m,
        None => {
            return None;
        },
    };
    proof {
        lemma_median_rate_bounds(frac_views(slopes@));
    }
    let devs = deviations_of(&slopes, rate);
    let sorted_devs = sort_wide(&devs);
    let scale = scale_of(rate);
    proof {
        assert(devs@.len() == slopes@.len());
        assert(wide_views(devs@).len() == devs@.len());
    }
    let high_ok = middle_within(&sorted_devs, scale, 1, 4);
    let medium_ok = middle_within(&sorted_devs, scale, 3, 5);
    let count = seg.len();
    let confidence = if count >= 8 && span >= 14_400 && high_ok {
        ForecastConfidence::High
    } else if count >= 4 && span >= 3_600 && medium_ok {
        ForecastConfidence::Medium
    } else {
        ForecastConfidence::Low
    };
    proof {
        assert(median_frac(scaled_deviations(frac_views(slopes@), rate@)) == Some(
            middle_of(wide_views(sorted_devs@)),
        ));
        assert(confidence == spec_confidence(
            frac_views(slopes@),
            rate@,
            seg@.len() as int,
            span as int,
        ));
    }
    if compare_products(rate.num, 1, 50_000, rate.den) <= 0 {
        let shown = if rate.num < 0 {
            Ratio { num: 0, den: 1 }
        } else {
            rate
        };
        let f = ExhaustionForecast {
            status: ForecastStatus::NoMeasurableBurn,
            rate_percent_per_hour: shown,
            exhausts_at: None,
            confidence,
            sample_count: count,
            span_seconds: span,
        };
        return Some(f);
    }
    let offset = offset_seconds(last.used_percent, rate);
    let projected = match now.checked_add(offset) {
        Some(t) => t,
        None => i64::MAX,
    };
    if projected < resets_at {
        Some(
            ExhaustionForecast {
                status: ForecastStatus::DepletesBeforeReset,
                rate_percent_per_hour: rate,
                exhausts_at: Some(projected),
                confidence,
                sample_count: count,
                span_seconds: span,
            },
        )
    } else {
        Some(
            ExhaustionForecast {
                status: ForecastStatus::SurvivesWindow,
                rate_percent_per_hour: rate,
                exhausts_at: None,
                confidence,
                sample_count: count,
                span_seconds: span,
            },
        )
    }
}


/// A forecast gives an exhaustion time exactly when it says the quota runs
/// out before the reset, and that time is before the reset.
pub proof fn lemma_exhaustion_only_before_reset(pts: Seq<RateObservation>, now: int, resets_at: int)
    ensures
        forecast_spec(pts, now, resets_at) matches Some(f) ==> {
            &&& (f.exhausts_at is Some <==> f.status == ForecastStatus::DepletesBeforeReset)
            &&& (f.exhausts_at matches Some(t) ==> t < resets_at)
        },
{
}

/// Observations from more than one quota window (different reset times)
/// give no forecast.
pub proof fn lemma_mixed_windows_give_no_forecast(pts: Seq<RateObservation>, now: int, resets_at: int, i: int)
    requires
        0 <= i < pts.len(),
        pts[i].resets_at != resets_at,
    ensures
        forecast_spec(pts, now, resets_at) is None,
{
}

/// No forecast before the current segment holds three samples spanning
/// thirty minutes; a forecast counts the samples of the current segment.
pub proof fn lemma_forecast_needs_enough_samples(pts: Seq<RateObservation>, now: int, resets_at: int)
    ensures
        current_segment(pts).len() < 3 || span_of(current_segment(pts)) < 1800 ==> forecast_spec(
            pts,
            now,
            resets_at,
        ) is None,
        forecast_spec(pts, now, resets_at) matches Some(f) ==> f.sample_count == current_segment(
            pts,
        ).len() && f.span_seconds == span_of(current_segment(pts)),
{
}

/// How confident a forecast is depends on how tightly the pairwise hourly
/// slopes of the current segment gather round the rate (their median): with
/// `rel` the median absolute deviation of the slopes from the rate, relative
/// to `max(|rate|, 0.05 %/h)`, a forecast is High only from eight samples
/// over four hours with `rel <= 1/4`, Medium only from four samples over an
/// hour with `rel <= 3/5`, and Low when neither holds.
pub proof fn lemma_confidence_follows_spread(pts: Seq<RateObservation>, now: int, resets_at: int)
    ensures
        forecast_spec(pts, now, resets_at) matches Some(f) ==> ({
            let seg = current_segment(pts);
            let slopes = pairwise_slopes(seg, 3600);
            let rel = relative_deviation(slopes, median_frac(slopes).unwrap());
            let high = seg.len() >= 8 && span_of(seg) >= 14_400 && value_le(rel, (1, 4));
            let medium = seg.len() >= 4 && span_of(seg) >= 3_600 && value_le(rel, (3, 5));
            &&& f.confidence == ForecastConfidence::High ==> high
            &&& f.confidence == ForecastConfidence::Medium ==> medium && !high
            &&& f.confidence == ForecastConfidence::Low ==> !high && !medium
            &&& !value_le(rel, (1, 4)) ==> f.confidence != ForecastConfidence::High
        }),
{
}

/// The median of fractions that are all at most `p / q` times `scale` is
/// too; and so for all above.
proof fn lemma_median_within_band(d: Seq<(int, int)>, scale: int, p: int, q: int)
    requires
        d.len() > 0,
        scale >= 0,
        p > 0,
        q > 0,
        forall|k: int| 0 <= k < d.len() ==> (#[trigger] d[k]).1 > 0,
    ensures
        (forall|k: int| 0 <= k < d.len() ==> #[trigger] d[k].0 * q <= p * (d[k].1 * scale)) ==> ({
            let m = median_frac(d).unwrap();
            m.0 * q <= p * (m.1 * scale)
        }),
        (forall|k: int| 0 <= k < d.len() ==> #[trigger] d[k].0 * q > p * (d[k].1 * scale)) ==> ({
            let m = median_frac(d).unwrap();
            m.0 * q > p * (m.1 * scale)
        }),
{
    let t = sorted_fracs(d);
    crate::series::lemma_sorted_elements(d, 0);
    let mid = (t.len() / 2) as int;
    crate::series::lemma_sorted_elements(d, mid);
    let b = t[mid];
    let j = choose|j: int| 0 <= j < d.len() && d[j] == b;
    if t.len() % 2 == 0 {
        crate::series::lemma_sorted_elements(d, mid - 1);
        let a = t[mid - 1];
        let i = choose|i: int| 0 <= i < d.len() && d[i] == a;
        assert(a.1 > 0 && b.1 > 0);
        if forall|k: int| 0 <= k < d.len() ==> #[trigger] d[k].0 * q <= p * (d[k].1 * scale) {
            assert(d[i].0 * q <= p * (d[i].1 * scale));
            assert(d[j].0 * q <= p * (d[j].1 * scale));
            assert((a.0 * b.1 + b.0 * a.1) * q <= p * ((2 * a.1 * b.1) * scale)) by (nonlinear_arith)
                requires
                    a.0 * q <= p * (a.1 * scale),
                    b.0 * q <= p * (b.1 * scale),
                    a.1 > 0,
                    b.1 > 0,
            ;
        }
        if forall|k: int| 0 <= k < d.len() ==> #[trigger] d[k].0 * q > p * (d[k].1 * scale) {
            assert(d[i].0 * q > p * (d[i].1 * scale));
            assert(d[j].0 * q > p * (d[j].1 * scale));
            assert(a.0 * q * b.1 > p * (a.1 * scale) * b.1) by (nonlinear_arith)
                requires
                    a.0 * q > p * (a.1 * scale),
                    b.1 > 0,
            ;
            assert(b.0 * q * a.1 > p * (b.1 * scale) * a.1) by (nonlinear_arith)
                requires
                    b.0 * q > p * (b.1 * scale),
                    a.1 > 0,
            ;
            assert((a.0 * b.1 + b.0 * a.1) * q == a.0 * q * b.1 + b.0 * q * a.1) by (nonlinear_arith);
            assert(p * ((2 * a.1 * b.1) * scale) == p * (a.1 * scale) * b.1 + p * (b.1 * scale) * a.1)
                by (nonlinear_arith);
        }
    } else {
        if forall|k: int| 0 <= k < d.len() ==> #[trigger] d[k].0 * q <= p * (d[k].1 * scale) {
            assert(d[j].0 * q <= p * (d[j].1 * scale));
        }
        if forall|k: int| 0 <= k < d.len() ==> #[trigger] d[k].0 * q > p * (d[k].1 * scale) {
            assert(d[j].0 * q > p * (d[j].1 * scale));
        }
    }
}

/// The confidence follows from where the pairwise hourly slopes lie round
/// the rate: when every slope is within a quarter of `max(|rate|, 0.05 %/h)`
/// of the rate, eight samples over four hours give High; when every slope
/// is farther than three fifths of it, the forecast is Low.
pub proof fn lemma_confidence_from_slope_band(pts: Seq<RateObservation>, now: int, resets_at: int)
    ensures
        forecast_spec(pts, now, resets_at) matches Some(f) ==> ({
            let seg = current_segment(pts);
            let slopes = pairwise_slopes(seg, 3600);
            let r = median_frac(slopes).unwrap();
            let scale = if abs(r.0) >= 50_000 * r.1 {
                abs(r.0)
            } else {
                50_000 * r.1
            };
            &&& (seg.len() >= 8 && span_of(seg) >= 14_400 && forall|k: int|
                0 <= k < slopes.len() ==> 4 * abs(#[trigger] slopes[k].0 * r.1 - r.0 * slopes[k].1)
                    <= slopes[k].1 * scale) ==> f.confidence == ForecastConfidence::High
            &&& (forall|k: int|
                0 <= k < slopes.len() ==> 5 * abs(#[trigger] slopes[k].0 * r.1 - r.0 * slopes[k].1)
                    > 3 * (slopes[k].1 * scale)) ==> f.confidence == ForecastConfidence::Low
        }),
{
    if forecast_spec(pts, now, resets_at) is Some {
        let seg = current_segment(pts);
        let slopes = pairwise_slopes(seg, 3600);
        let r = median_frac(slopes).unwrap();
        let devs = scaled_deviations(slopes, r);
        let scale = deviation_scale(r);
        crate::series::lemma_slope_dens(seg, 3600);
        lemma_slopes_nonempty(seg, 3600);
        assert(slopes.len() > 0);
        assert forall|k: int| 0 <= k < devs.len() implies (#[trigger] devs[k]).1 > 0 by {
            assert(devs[k] == scaled_deviation(slopes[k], r));
        }
        assert(scale >= 0);
        lemma_median_within_band(devs, scale, 1, 4);
        lemma_median_within_band(devs, scale, 3, 5);
        if forall|k: int|
            0 <= k < slopes.len() ==> 4 * abs(#[trigger] slopes[k].0 * r.1 - r.0 * slopes[k].1)
                <= slopes[k].1 * scale {
            assert forall|k: int| 0 <= k < devs.len() implies #[trigger] devs[k].0 * 4 <= 1 * (
            devs[k].1 * scale) by {
                assert(devs[k] == scaled_deviation(slopes[k], r));
                assert(4 * abs(slopes[k].0 * r.1 - r.0 * slopes[k].1) <= slopes[k].1 * scale);
            }
        }
        if forall|k: int|
            0 <= k < slopes.len() ==> 5 * abs(#[trigger] slopes[k].0 * r.1 - r.0 * slopes[k].1)
                > 3 * (slopes[k].1 * scale) {
            assert forall|k: int| 0 <= k < devs.len() implies #[trigger] devs[k].0 * 5 > 3 * (
            devs[k].1 * scale) by {
                assert(devs[k] == scaled_deviation(slopes[k], r));
                assert(5 * abs(slopes[k].0 * r.1 - r.0 * slopes[k].1) > 3 * (slopes[k].1 * scale));
            }
            assert forall|k: int| 0 <= k < devs.len() implies #[trigger] devs[k].0 * 4 > 1 * (
            devs[k].1 * scale) by {
                assert(devs[k] == scaled_deviation(slopes[k], r));
                assert(devs[k].0 * 5 > 3 * (devs[k].1 * scale));
                assert(devs[k].1 * scale >= 0) by (nonlinear_arith)
                    requires
                        devs[k].1 > 0,
                        scale >= 0,
                ;
            }
        }
    }
}

} // verus!
