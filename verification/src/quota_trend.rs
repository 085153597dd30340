//! Quota history for the chart and the pace of use against the even pace
//! that would spend the quota exactly by the reset.
use vstd::prelude::*;
use chrono::{Datelike, TimeZone};
use crate::domain::RateObservation;
use crate::clock::utc_timestamp_supported;
use crate::ratio::{Ratio, compare_products, frac_views, median_frac};
use crate::series::{
    Sample, current_segment, current_segment_of, sort_by_time, insert_by_time, insert_sample,
    pairwise_slopes, pairwise_slopes_of, median_of, span_fits, time_sorted, lemma_sort_by_time,
    lemma_segment_sorted, lemma_slopes_nonempty, bounded,
};

verus! {

/// One point of the remaining-quota chart.
#[derive(Debug, Clone, Copy, PartialEq, Eq, Structural)]
pub struct QuotaHistoryPoint {
    pub observed_at: i64,
    /// Millionths of a percentage point, within 0..=100%.
    pub remaining_percent: i32,
}

#[derive(Debug, Clone, Copy, PartialEq, Eq, Structural)]
pub enum QuotaPaceStatus {
    Slow,
    Normal,
    Fast,
}

/// Rates are millionths of a percentage point per day.
#[derive(Debug, Clone, Copy, PartialEq, Eq, Structural)]
pub struct QuotaPace {
    pub percent_per_day: Ratio,
    pub ideal_percent_per_day: Ratio,
    pub status: QuotaPaceStatus,
    pub sample_count: usize,
}

#[derive(Debug, Clone, PartialEq)]
pub struct QuotaTrend {
    pub history: Vec<QuotaHistoryPoint>,
    pub pace: Option<QuotaPace>,
}

/// Samples needed before a pace is given.
pub const MIN_SAMPLE_COUNT: usize = 3;

/// Seconds the samples must span before a pace is given.
pub const MIN_SAMPLE_SPAN_SECONDS: i64 = 1_800;

/// The most points the chart gets.
pub const MAX_HISTORY_POINTS: usize = 64;

/// 100% in millionths of a percentage point.
pub const FULL_PERCENT: i32 = 100_000_000;

// ---------------------------------------------------------------------
// History
// ---------------------------------------------------------------------

/// Calendar days as (year, month, day), ordered by date.
pub open spec fn day_lt(a: (i32, u32, u32), b: (i32, u32, u32)) -> bool {
    a.0 < b.0 || (a.0 == b.0 && (a.1 < b.1 || (a.1 == b.1 && a.2 < b.2)))
}

/// A list of (day, sample) kept in ascending day order, with the sample for
/// `k` set to `v`.
pub open spec fn upsert(list: Seq<((i32, u32, u32), Sample)>, k: (i32, u32, u32), v: Sample) -> Seq<
    ((i32, u32, u32), Sample),
>
    decreases list.len(),
{
    if list.len() == 0 {
        seq![(k, v)]
    } else if list[0].0 == k {
        seq![(k, v)] + list.drop_first()
    } else if day_lt(k, list[0].0) {
        seq![(k, v)] + list
    } else {
        seq![list[0]] + upsert(list.drop_first(), k, v)
    }
}

/// The local day of `seg[i]`, where one was given.
pub open spec fn day_at(days: Seq<Option<(i32, u32, u32)>>, i: int) -> Option<(i32, u32, u32)> {
    if 0 <= i < days.len() {
        days[i]
    } else {
        None
    }
}

/// The latest sample of each day among the first `n`, by ascending day.
pub open spec fn daily_upto(seg: Seq<Sample>, days: Seq<Option<(i32, u32, u32)>>, n: int) -> Seq<
    ((i32, u32, u32), Sample),
>
    decreases n,
{
    if n <= 0 {
        seq![]
    } else {
        let prev = daily_upto(seg, days, n - 1);
        match day_at(days, n - 1) {
            Some(k) => upsert(prev, k, seg[n - 1]),
            None => prev,
        }
    }
}

/// Drops each sample whose time equals that of the sample before it.
pub open spec fn dedup_by_time(s: Seq<Sample>) -> Seq<Sample>
    decreases s.len(),
{
    if s.len() <= 1 {
        s
    } else if s[s.len() - 2].observed_at == s.last().observed_at {
        dedup_by_time(s.drop_last())
    } else {
        dedup_by_time(s.drop_last()).push(s.last())
    }
}

/// The first sample, the latest sample of each day, and the last sample.
pub open spec fn selected(seg: Seq<Sample>, days: Seq<Option<(i32, u32, u32)>>) -> Seq<Sample> {
    seq![seg[0]] + daily_upto(seg, days, seg.len() as int).map_values(
        |e: ((i32, u32, u32), Sample)| e.1,
    ) + seq![seg.last()]
}

/// 64 samples spread evenly over `s`, first and last included.
pub open spec fn spread(s: Seq<Sample>) -> Seq<Sample> {
    Seq::new(64, |slot: int| s[slot * (s.len() - 1) / 63])
}

/// `s` thinned to at most 64 samples.
pub open spec fn thin(s: Seq<Sample>) -> Seq<Sample> {
    if s.len() > 64 {
        dedup_by_time(spread(s))
    } else {
        s
    }
}

/// What is left of 100% after `used`, within 0..=100%.
pub open spec fn remaining_of(used: int) -> int {
    let r = 100_000_000 - used;
    if r < 0 {
        0
    } else if r > 100_000_000 {
        100_000_000
    } else {
        r
    }
}

pub open spec fn history_point(p: Sample) -> QuotaHistoryPoint {
    QuotaHistoryPoint {
        observed_at: p.observed_at,
        remaining_percent: remaining_of(p.used_percent as int) as i32,
    }
}

/// The chart of a segment, given the local day of each of its samples.
pub open spec fn history_spec(seg: Seq<Sample>, days: Seq<Option<(i32, u32, u32)>>) -> Seq<
    QuotaHistoryPoint,
> {
    if seg.len() == 0 {
        seq![]
    } else {
        thin(dedup_by_time(sort_by_time(selected(seg, days)))).map_values(
            |p: Sample| history_point(p),
        )
    }
}

proof fn lemma_upsert_at(list: Seq<((i32, u32, u32), Sample)>, k: (i32, u32, u32), v: Sample, j: int)
    requires
        0 <= j <= list.len(),
        forall|i: int| 0 <= i < j ==> day_lt(#[trigger] list[i].0, k),
        j < list.len() ==> !day_lt(list[j].0, k),
    ensures
        upsert(list, k, v) == if j < list.len() && list[j].0 == k {
            list.update(j, (k, v))
        } else {
            list.insert(j, (k, v))
        },
    decreases j,
{
    if list.len() == 0 {
        assert(list.insert(j, (k, v)) =~= seq![(k, v)]);
    } else if j == 0 {
        if list[0].0 == k {
            assert(list.update(0, (k, v)) =~= seq![(k, v)] + list.drop_first());
        } else {
            assert(list.insert(0, (k, v)) =~= seq![(k, v)] + list);
        }
    } else {
        assert(day_lt(list[0].0, k));
        let t = list.drop_first();
        assert forall|i: int| 0 <= i < j - 1 implies day_lt(#[trigger] t[i].0, k) by {
            assert(t[i] == list[i + 1]);
        }
        lemma_upsert_at(t, k, v, j - 1);
        if j < list.len() && list[j].0 == k {
            assert(list.update(j, (k, v)) =~= seq![list[0]] + t.update(j - 1, (k, v)));
        } else {
            assert(list.insert(j, (k, v)) =~= seq![list[0]] + t.insert(j - 1, (k, v)));
        }
    }
}

fn day_less(a: (i32, u32, u32), b: (i32, u32, u32)) -> (r: bool)
    ensures
        r == day_lt(a, b),
{
    a.0 < b.0 || (a.0 == b.0 && (a.1 < b.1 || (a.1 == b.1 && a.2 < b.2)))
}

fn same_day(a: (i32, u32, u32), b: (i32, u32, u32)) -> (r: bool)
    ensures
        r == (a == b),
{
    a.0 == b.0 && a.1 == b.1 && a.2 == b.2
}

fn upsert_day(list: &mut Vec<((i32, u32, u32), Sample)>, k: (i32, u32, u32), v: Sample)
    ensures
        final(list)@ == upsert(old(list)@, k, v),
{
    let mut j: usize = 0;
    while j < list.len() && day_less(list[j].0, k)
        invariant
            j <= list.len(),
            list@ == old(list)@,
            forall|i: int| 0 <= i < j ==> day_lt(#[trigger] list@[i].0, k),
        decreases list.len() - j,
    {
        j += 1;
    }
    proof {
        lemma_upsert_at(list@, k, v, j as int);
    }
    if j < list.len() && same_day(list[j].0, k) {
        list.set(j, (k, v));
    } else {
        list.insert(j, (k, v));
    }
}

/// The (year, month, day) of the day `day` days after 1970-01-01 in the
/// proleptic Gregorian calendar that chrono's dates follow.
pub uninterp spec fn civil_date(day: int) -> (int, int, int);

/// `day` is the local calendar day of the Unix time `secs`: there exactly
/// when chrono can represent `secs`, with a month in 1..=12 and a day in
/// 1..=31, and the calendar date of `secs` moved by a time zone less than a
/// day away from UTC (so the UTC date, the day before or the day after).
pub open spec fn local_day_fits(day: Option<(i32, u32, u32)>, secs: int) -> bool {
    &&& (day is Some <==> utc_timestamp_supported(secs))
    &&& (day matches Some(v) ==> {
        &&& 1 <= v.1 <= 12
        &&& 1 <= v.2 <= 31
        &&& exists|z: int|
            -86_400 < z < 86_400 && (v.0 as int, v.1 as int, v.2 as int) == #[trigger] civil_date(
                (secs + z) / 86_400,
            )
    })
}

/// The local calendar day of a Unix time, from `chrono::Local`.
///
/// Trusted: chrono's `TimeZone::timestamp_opt` gives `Single` exactly when
/// `DateTime::from_timestamp` accepts the seconds, and `None` otherwise;
/// the local date is that of the UTC time plus the local offset, a
/// `FixedOffset` of less than a day; chrono documents months in 1..=12 and
/// days in 1..=31. Which offset the machine's time zone gives is left
/// unsaid.
#[verifier::external_body]
fn local_day(observed_at: i64) -> (r: Option<(i32, u32, u32)>)
    ensures
        r is Some <==> utc_timestamp_supported(observed_at as int),
        r matches Some(v) ==> {
            &&& 1 <= v.1 <= 12
            &&& 1 <= v.2 <= 31
            &&& exists|z: int|
                -86_400 < z < 86_400 && (v.0 as int, v.1 as int, v.2 as int) == #[trigger] civil_date(
                    (observed_at + z) / 86_400,
                )
        },
{
    chrono::Local.timestamp_opt(observed_at, 0).single().map(
        |value| (value.year(), value.month(), value.day()),
    )
}

/// Each day is the local calendar day of the sample at the same place.
pub open spec fn days_fit(days: Seq<Option<(i32, u32, u32)>>, seg: Seq<Sample>) -> bool {
    &&& days.len() == seg.len()
    &&& forall|i: int| 0 <= i < seg.len() ==> local_day_fits(#[trigger] days[i], seg[i].observed_at as int)
}

/// The local calendar day of each sample.
pub fn local_days(seg: &Vec<Sample>) -> (r: Vec<Option<(i32, u32, u32)>>)
    ensures
        days_fit(r@, seg@),
{
    let mut out: Vec<Option<(i32, u32, u32)>> = Vec::new();
    let mut i: usize = 0;
    while i < seg.len()
        invariant
            i <= seg@.len(),
            out@.len() == i,
            forall|k: int| 0 <= k < i ==> local_day_fits(#[trigger] out@[k], seg@[k].observed_at as int),
        decreases seg@.len() - i,
    {
        let d = local_day(seg[i].observed_at);
        out.push(d);
        proof {
            assert(out@[i as int] == d);
            assert(local_day_fits(d, seg@[i as int].observed_at as int));
        }
        i += 1;
    }
    out
}

/// The samples, stably sorted by time.
fn sort_samples(v: &Vec<Sample>) -> (r: Vec<Sample>)
    ensures
        r@ == sort_by_time(v@),
{
    let mut out: Vec<Sample> = Vec::new();
    let mut i: usize = 0;
    while i < v.len()
        invariant
            i <= v@.len(),
            out@ == sort_by_time(v@.take(i as int)),
        decreases v@.len() - i,
    {
        insert_sample(&mut out, v[i]);
        proof {
            let s = v@.take(i + 1);
            assert(s.drop_last() =~= v@.take(i as int));
        }
        i += 1;
    }
    proof {
        assert(v@.take(v@.len() as int) =~= v@);
    }
    out
}

/// The samples without those whose time equals the one before.
fn dedup_samples(s: &Vec<Sample>) -> (r: Vec<Sample>)
    ensures
        r@ == dedup_by_time(s@),
        r@.len() <= s@.len(),
{
    let mut out: Vec<Sample> = Vec::new();
    let mut i: usize = 0;
    while i < s.len()
        invariant
            i <= s@.len(),
            out@ == dedup_by_time(s@.take(i as int)),
            out@.len() <= i,
        decreases s@.len() - i,
    {
        proof {
            let t = s@.take(i + 1);
            assert(t.drop_last() =~= s@.take(i as int));
        }
        if i == 0 || s[i - 1].observed_at != s[i].observed_at {
            out.push(s[i]);
        }
        i += 1;
    }
    proof {
        assert(s@.take(s@.len() as int) =~= s@);
    }
    out
}

/// 64 samples spread evenly over `s`.
fn spread_samples(s: &Vec<Sample>) -> (r: Vec<Sample>)
    requires
        s@.len() > 64,
    ensures
        r@ == spread(s@),
{
    let n = s.len();
    let mut out: Vec<Sample> = Vec::new();
    let mut slot: usize = 0;
    while slot < 64
        invariant
            n == s@.len() > 64,
            slot <= 64,
            out@ =~= spread(s@).take(slot as int),
        decreases 64 - slot,
    {
        proof {
            let a: int = slot as int;
            let b: int = (n - 1) as int;
            assert(a * b <= 64 * 0x1_0000_0000_0000_0000) by (nonlinear_arith)
                requires
                    0 <= a < 64,
                    0 <= b < 0x1_0000_0000_0000_0000,
            ;
        }
        let index = (slot as u128) * ((n - 1) as u128) / 63;
        assert(index <= n - 1) by (nonlinear_arith)
            requires
                index == (slot as int) * (n - 1) / 63,
                slot < 64,
                n > 64,
        ;
        out.push(s[index as usize]);
        slot += 1;
    }
    out
}

/// The chart point of a sample.
fn point_of(p: Sample) -> (r: QuotaHistoryPoint)
    ensures
        r == history_point(p),
{
    let remaining = FULL_PERCENT as i64 - p.used_percent as i64;
    let clamped: i64 = if remaining < 0 {
        0
    } else if remaining > FULL_PERCENT as i64 {
        FULL_PERCENT as i64
    } else {
        remaining
    };
    QuotaHistoryPoint { observed_at: p.observed_at, remaining_percent: clamped as i32 }
}

/// The chart of a segment: its first and last samples and the latest
/// sample of each local day, in time order, one per time, thinned evenly
/// to at most 64 points. `days[i]` is the local day of `seg[i]`.
pub fn history_from_days(seg: &Vec<Sample>, days: &Vec<Option<(i32, u32, u32)>>) -> (r: Vec<
    QuotaHistoryPoint,
>)
    ensures
        r@ == history_spec(seg@, days@),
{
    if seg.len() == 0 {
        return Vec::new();
    }
    let mut daily: Vec<((i32, u32, u32), Sample)> = Vec::new();
    let mut i: usize = 0;
    while i < seg.len()
        invariant
            i <= seg@.len(),
            daily@ == daily_upto(seg@, days@, i as int),
        decreases seg@.len() - i,
    {
        if i < days.len() {
            match days[i] {
                Some(k) => upsert_day(&mut daily, k, seg[i]),
                None => {},
            }
        }
        i += 1;
    }
    let mut chosen: Vec<Sample> = Vec::new();
    chosen.push(seg[0]);
    let mut j: usize = 0;
    while j < daily.len()
        invariant
            j <= daily@.len(),
            chosen@ == seq![seg@[0]] + daily@.take(j as int).map_values(
                |e: ((i32, u32, u32), Sample)| e.1,
            ),
        decreases daily@.len() - j,
    {
        chosen.push(daily[j].1);
        proof {
            assert(daily@.take(j + 1).map_values(|e: ((i32, u32, u32), Sample)| e.1)
                =~= daily@.take(j as int).map_values(|e: ((i32, u32, u32), Sample)| e.1).push(
                daily@[j as int].1,
            ));
        }
        j += 1;
    }
    chosen.push(seg[seg.len() - 1]);
    proof {
        assert(daily@.take(daily@.len() as int) =~= daily@);
        assert(chosen@ =~= selected(seg@, days@));
    }
    let sorted = sort_samples(&chosen);
    let unique = dedup_samples(&sorted);
    let kept = if unique.len() > MAX_HISTORY_POINTS {
        let spaced = spread_samples(&unique);
        dedup_samples(&spaced)
    } else {
        unique
    };
    let mut out: Vec<QuotaHistoryPoint> = Vec::new();
    let mut k: usize = 0;
    while k < kept.len()
        invariant
            k <= kept@.len(),
            out@ =~= kept@.take(k as int).map_values(|p: Sample| history_point(p)),
        decreases kept@.len() - k,
    {
        out.push(point_of(kept[k]));
        k += 1;
    }
    proof {
        assert(kept@.take(kept@.len() as int) =~= kept@);
    }
    out
}

// ---------------------------------------------------------------------
// What the chart keeps
// ---------------------------------------------------------------------

proof fn lemma_dedup_by_time(s: Seq<Sample>)
    ensures
        dedup_by_time(s).len() <= s.len(),
        s.len() > 0 ==> dedup_by_time(s).len() > 0 && dedup_by_time(s)[0] == s[0]
            && dedup_by_time(s).last().observed_at == s.last().observed_at,
    decreases s.len(),
{
    if s.len() > 1 {
        lemma_dedup_by_time(s.drop_last());
    }
}

proof fn lemma_upsert_from(list: Seq<((i32, u32, u32), Sample)>, k: (i32, u32, u32), v: Sample, seg: Seq<Sample>)
    requires
        forall|i: int| 0 <= i < list.len() ==> seg.contains(#[trigger] list[i].1),
        seg.contains(v),
    ensures
        forall|i: int| 0 <= i < upsert(list, k, v).len() ==> seg.contains(#[trigger] upsert(list, k, v)[i].1),
    decreases list.len(),
{
    if list.len() > 0 && list[0].0 != k && !day_lt(k, list[0].0) {
        let t = list.drop_first();
        assert forall|i: int| 0 <= i < t.len() implies seg.contains(#[trigger] t[i].1) by {
            assert(t[i] == list[i + 1]);
        }
        lemma_upsert_from(t, k, v, seg);
        let u = upsert(list, k, v);
        assert forall|i: int| 0 <= i < u.len() implies seg.contains(#[trigger] u[i].1) by {
            if i > 0 {
                assert(u[i] == upsert(t, k, v)[i - 1]);
            }
        }
    } else if list.len() > 0 {
        let u = upsert(list, k, v);
        assert forall|i: int| 0 <= i < u.len() implies seg.contains(#[trigger] u[i].1) by {
            if i > 0 && list[0].0 == k {
                assert(u[i] == list[i]);
            } else if i > 0 {
                assert(u[i] == list[i - 1]);
            }
        }
    }
}

proof fn lemma_daily_from(seg: Seq<Sample>, days: Seq<Option<(i32, u32, u32)>>, n: int)
    requires
        n <= seg.len(),
    ensures
        forall|i: int|
            0 <= i < daily_upto(seg, days, n).len() ==> seg.contains(
                #[trigger] daily_upto(seg, days, n)[i].1,
            ),
    decreases n,
{
    if n > 0 {
        lemma_daily_from(seg, days, n - 1);
        match day_at(days, n - 1) {
            Some(k) => {
                assert(seg[n - 1] == seg[n - 1]);
                assert(seg.contains(seg[n - 1]));
                lemma_upsert_from(daily_upto(seg, days, n - 1), k, seg[n - 1], seg);
            },
            None => {},
        }
    }
}

/// The chart keeps at most 64 points; for a time-ordered segment it starts
/// at the first sample's time and ends at the last sample's time.
pub proof fn lemma_history_keeps_ends(seg: Seq<Sample>, days: Seq<Option<(i32, u32, u32)>>)
    ensures
        history_spec(seg, days).len() <= 64,
        seg.len() > 0 && time_sorted(seg) ==> {
            let h = history_spec(seg, days);
            &&& h.len() > 0
            &&& h[0].observed_at == seg[0].observed_at
            &&& h.last().observed_at == seg.last().observed_at
        },
{
    if seg.len() > 0 {
        let daily = daily_upto(seg, days, seg.len() as int);
        let vals = daily.map_values(|e: ((i32, u32, u32), Sample)| e.1);
        let sel = selected(seg, days);
        lemma_daily_from(seg, days, seg.len() as int);
        let sorted = sort_by_time(sel);
        lemma_sort_by_time(sel);
        let u = dedup_by_time(sorted);
        assert(sel.len() >= 2);
        lemma_dedup_by_time(sorted);
        let k = thin(u);
        if u.len() > 64 {
            let sp = spread(u);
            assert(sp[0] == u[0]);
            assert(63 * (u.len() - 1) / 63 == u.len() - 1) by (nonlinear_arith)
                requires
                    u.len() > 64,
            ;
            assert(sp.last() == u.last());
            lemma_dedup_by_time(sp);
        }
        if time_sorted(seg) {
            assert(sel[0] == seg[0]);
            assert(sel.last() == seg.last());
            assert(sel.contains(seg[0]));
            assert(sel.contains(seg.last()) ) by {
                assert(sel[sel.len() - 1] == seg.last());
            }
            assert forall|i: int| 0 <= i < sel.len() implies seg[0].observed_at
                <= #[trigger] sel[i].observed_at <= seg.last().observed_at by {
                let e = sel[i];
                if 0 < i < sel.len() - 1 {
                    assert(e == vals[i - 1]);
                    assert(seg.contains(daily[i - 1].1));
                }
                assert(seg.contains(e) || e == seg[0] || e == seg.last());
                if seg.contains(e) {
                    let j = choose|j: int| 0 <= j < seg.len() && seg[j] == e;
                    assert(seg[0].observed_at <= seg[j].observed_at);
                    assert(seg[j].observed_at <= seg[seg.len() - 1].observed_at);
                }
            }
            assert(sorted.contains(seg[0]));
            assert(sorted.contains(seg.last()));
            let a = choose|j: int| 0 <= j < sorted.len() && sorted[j] == seg[0];
            let b = choose|j: int| 0 <= j < sorted.len() && sorted[j] == seg.last();
            assert(sorted.contains(sorted[0]));
            assert(sel.contains(sorted[0]));
            let c = choose|j: int| 0 <= j < sel.len() && sel[j] == sorted[0];
            assert(sel[c].observed_at >= seg[0].observed_at);
            assert(sorted[0].observed_at <= sorted[a].observed_at);
            assert(sorted.contains(sorted[sorted.len() - 1]));
            let d = choose|j: int| 0 <= j < sel.len() && sel[j] == sorted[sorted.len() - 1];
            assert(sel[d].observed_at <= seg.last().observed_at);
            assert(sorted[b].observed_at <= sorted[sorted.len() - 1].observed_at);
        }
    }
}

// ---------------------------------------------------------------------
// Pace
// ---------------------------------------------------------------------

/// The even pace in millionths of a percentage point per day: all of the
/// quota over a window of `window_duration_mins` minutes.
pub open spec fn ideal_rate(window_duration_mins: int) -> (int, int) {
    (144_000_000_000, window_duration_mins)
}

/// Slow below 80% of the even pace, fast above 120% of it; normal when
/// there is no even pace (a window of no length).
pub open spec fn classify(p: (int, int), window_duration_mins: int) -> QuotaPaceStatus {
    if window_duration_mins <= 0 {
        QuotaPaceStatus::Normal
    } else if p.0 * window_duration_mins < 115_200_000_000 * p.1 {
        QuotaPaceStatus::Slow
    } else if p.0 * window_duration_mins > 172_800_000_000 * p.1 {
        QuotaPaceStatus::Fast
    } else {
        QuotaPaceStatus::Normal
    }
}

/// The rate, or zero where it is negative.
pub open spec fn floor_zero(m: (int, int)) -> (int, int) {
    if m.0 < 0 {
        (0, 1)
    } else {
        m
    }
}

/// The pace of a segment: the median of the daily slopes between its
/// samples (not below zero), the even pace and how the two compare; none
/// before three samples over thirty minutes, or for a window of no length.
pub open spec fn pace_spec(seg: Seq<Sample>, window_duration_mins: int) -> Option<
    ((int, int), (int, int), QuotaPaceStatus, int),
> {
    if seg.len() < 3 || seg.last().observed_at - seg[0].observed_at < 1800 {
        None
    } else {
        match median_frac(pairwise_slopes(seg, 86400)) {
            None => None,
            Some(m) => if window_duration_mins <= 0 {
                None
            } else {
                let p = floor_zero(m);
                Some(
                    (
                        p,
                        ideal_rate(window_duration_mins),
                        classify(p, window_duration_mins),
                        seg.len() as int,
                    ),
                )
            },
        }
    }
}

pub open spec fn pace_model(p: QuotaPace) -> ((int, int), (int, int), QuotaPaceStatus, int) {
    (p.percent_per_day@, p.ideal_percent_per_day@, p.status, p.sample_count as int)
}

pub open spec fn opt_pace_model(p: Option<QuotaPace>) -> Option<
    ((int, int), (int, int), QuotaPaceStatus, int),
> {
    match p {
        Some(x) => Some(pace_model(x)),
        None => None,
    }
}

/// How a pace (millionths of a percentage point per day) compares with the
/// even pace of the window.
pub fn classify_pace(percent_per_day: Ratio, window_duration_mins: i64) -> (r: QuotaPaceStatus)
    requires
        percent_per_day.den > 0,
    ensures
        r == classify(percent_per_day@, window_duration_mins as int),
{
    if window_duration_mins <= 0 {
        return QuotaPaceStatus::Normal;
    }
    let w = window_duration_mins as i128;
    if compare_products(percent_per_day.num, w, 115_200_000_000, percent_per_day.den) < 0 {
        QuotaPaceStatus::Slow
    } else if compare_products(percent_per_day.num, w, 172_800_000_000, percent_per_day.den) > 0 {
        QuotaPaceStatus::Fast
    } else {
        QuotaPaceStatus::Normal
    }
}

proof fn lemma_median_den(s: Seq<(int, int)>)
    requires
        s.len() > 0,
        crate::series::all_bounded(s, crate::series::slope_num_bound(), crate::series::slope_den_bound()),
    ensures
        median_frac(s) matches Some(m) && m.1 > 0,
{
    crate::series::lemma_sorted_bounded(s, crate::series::slope_num_bound(), crate::series::slope_den_bound());
    let t = crate::ratio::sorted_fracs(s);
    let m = (t.len() / 2) as int;
    assert(bounded(t[m], crate::series::slope_num_bound(), crate::series::slope_den_bound()));
    if t.len() % 2 == 0 {
        assert(bounded(t[m - 1], crate::series::slope_num_bound(), crate::series::slope_den_bound()));
        let a = t[m - 1].1;
        let b = t[m].1;
        assert(2 * a * b > 0) by (nonlinear_arith)
            requires
                a > 0,
                b > 0,
        ;
    }
}

/// The pace of a time-ordered segment whose span fits in 64 bits.
fn pace_of(seg: &Vec<Sample>, window_duration_mins: i64) -> (r: Option<QuotaPace>)
    requires
        time_sorted(seg@),
        span_fits(seg@),
    ensures
        opt_pace_model(r) == pace_spec(seg@, window_duration_mins as int),
{
    if seg.len() < MIN_SAMPLE_COUNT {
        return None;
    }
    let first = seg[0];
    let last = seg[seg.len() - 1];
    proof {
        assert(first.observed_at <= last.observed_at);
    }
    if last.observed_at - first.observed_at < MIN_SAMPLE_SPAN_SECONDS {
        return None;
    }
    let slopes = pairwise_slopes_of(seg, 86400);
    proof {
        lemma_slopes_nonempty(seg@, 86400);
        assert forall|k: int| 0 <= k < frac_views(slopes@).len() implies bounded(
            #[trigger] frac_views(slopes@)[k],
            crate::series::slope_num_bound(),
            crate::series::slope_den_bound(),
        ) by {
            assert(bounded(
                frac_views(slopes@)[k],
                86400 * 0x1_0000_0000int,
                crate::series::slope_den_bound(),
            ));
        }
        lemma_median_den(frac_views(slopes@));
    }
    let median = match median_of(&slopes) {
        Some(m) => m,
        None => {
            return None;
        },
    };
    if window_duration_mins <= 0 {
        return None;
    }
    let per_day = if median.num < 0 {
        Ratio { num: 0, den: 1 }
    } else {
        median
    };
    let status = classify_pace(per_day, window_duration_mins);
    Some(
        QuotaPace {
            percent_per_day: per_day,
            ideal_percent_per_day: Ratio { num: 144_000_000_000, den: window_duration_mins as i128 },
            status,
            sample_count: seg.len(),
        },
    )
}

/// The pace the app gives for a segment: none where the time from its first
/// to its last sample does not fit in 64 bits (a difference that overflows
/// there); else `pace_spec`.
pub open spec fn trend_pace(seg: Seq<Sample>, window_duration_mins: int) -> Option<
    ((int, int), (int, int), QuotaPaceStatus, int),
> {
    if span_fits(seg) {
        pace_spec(seg, window_duration_mins)
    } else {
        None
    }
}

/// Whether the time from the first to the last sample of a time-ordered
/// segment fits in 64 bits.
pub fn span_in_range(seg: &Vec<Sample>) -> (r: bool)
    requires
        time_sorted(seg@),
    ensures
        r == span_fits(seg@),
{
    if seg.len() == 0 {
        return true;
    }
    let first = seg[0].observed_at;
    let last = seg[seg.len() - 1].observed_at;
    proof {
        assert(first <= last);
    }
    if first >= 0 || last < 0 {
        true
    } else {
        last <= i64::MAX + first
    }
}

/// The chart and pace of a quota window: both read the current segment
/// (the time-ordered observations after the last fall in used percent).
/// The chart's days are the machine's local days.
pub fn build_trend(points: &Vec<RateObservation>, window_duration_mins: i64) -> (r: QuotaTrend)
    ensures
        exists|days: Seq<Option<(i32, u32, u32)>>|
            days_fit(days, current_segment(points@)) && r.history@ == #[trigger] history_spec(
                current_segment(points@),
                days,
            ),
        opt_pace_model(r.pace) == trend_pace(current_segment(points@), window_duration_mins as int),
        r.history@.len() <= 64,
        current_segment(points@).len() > 0 ==> {
            &&& r.history@.len() > 0
            &&& r.history@[0].observed_at == current_segment(points@)[0].observed_at
            &&& r.history@.last().observed_at == current_segment(points@).last().observed_at
        },
{
    let segment = current_segment_of(points);
    proof {
        lemma_segment_sorted(points@);
    }
    let days = local_days(&segment);
    let history = history_from_days(&segment, &days);
    proof {
        lemma_history_keeps_ends(segment@, days@);
    }
    let pace = if span_in_range(&segment) {
        pace_of(&segment, window_duration_mins)
    } else {
        None
    };
    QuotaTrend { history, pace }
}

} // verus!
