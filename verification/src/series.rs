//! Quota observations as a time series: ordering by time, the current
//! segment (the samples after the last fall in used percent), pairwise
//! slopes and their median.
use vstd::prelude::*;
use crate::domain::RateObservation;
use crate::ratio::{Ratio, frac_views, sorted_fracs, median_frac, frac_mean, frac_order};
use crate::order::sort_ratios;

verus! {

/// The time from the first to the last sample fits in 64 bits; with the
/// samples in time order, so does the time between any two of them.
pub open spec fn span_fits(seg: Seq<Sample>) -> bool {
    seg.len() == 0 || seg.last().observed_at - seg[0].observed_at <= i64::MAX
}

/// The two numbers of an observation that the series computations read.
#[derive(Debug, Clone, Copy, PartialEq, Eq, Structural)]
pub struct Sample {
    pub observed_at: i64,
    /// Millionths of a percentage point.
    pub used_percent: i32,
}

pub open spec fn sample_of(p: RateObservation) -> Sample {
    Sample { observed_at: p.observed_at, used_percent: p.used_percent }
}

pub open spec fn samples_of(pts: Seq<RateObservation>) -> Seq<Sample> {
    pts.map_values(|p: RateObservation| sample_of(p))
}

/// Inserts `x` after every sample that is not later than it.
pub open spec fn insert_by_time(s: Seq<Sample>, x: Sample) -> Seq<Sample>
    decreases s.len(),
{
    if s.len() == 0 {
        seq![x]
    } else if s.last().observed_at <= x.observed_at {
        s.push(x)
    } else {
        insert_by_time(s.drop_last(), x).push(s.last())
    }
}

/// The stable sort by observation time.
pub open spec fn sort_by_time(s: Seq<Sample>) -> Seq<Sample>
    decreases s.len(),
{
    if s.len() == 0 {
        s
    } else {
        insert_by_time(sort_by_time(s.drop_last()), s.last())
    }
}

/// Index just after the last place where used percent falls between two
/// neighbours; 0 when it never falls.
pub open spec fn segment_start(s: Seq<Sample>) -> int
    decreases s.len(),
{
    if s.len() < 2 {
        0
    } else if s[s.len() - 1].used_percent < s[s.len() - 2].used_percent {
        s.len() - 1
    } else {
        segment_start(s.drop_last())
    }
}

/// The time-ordered samples after the last fall in used percent.
pub open spec fn current_segment(pts: Seq<RateObservation>) -> Seq<Sample> {
    let o = sort_by_time(samples_of(pts));
    o.skip(segment_start(o))
}

/// The slope from `l` to `r` as a fraction: change in used percent per
/// `unit` seconds.
pub open spec fn slope_of(l: Sample, r: Sample, unit: int) -> (int, int) {
    ((r.used_percent - l.used_percent) * unit, r.observed_at - l.observed_at)
}

/// Slopes from `seg[i]` to each later `seg[k]` with `i < k < j` that is
/// strictly later in time.
pub open spec fn slopes_row(seg: Seq<Sample>, i: int, j: int, unit: int) -> Seq<(int, int)>
    decreases j - i,
{
    if j <= i + 1 {
        seq![]
    } else {
        let prev = slopes_row(seg, i, j - 1, unit);
        if seg[j - 1].observed_at - seg[i].observed_at > 0 {
            prev.push(slope_of(seg[i], seg[j - 1], unit))
        } else {
            prev
        }
    }
}

/// The rows of slopes starting at `seg[0]`, ..., `seg[i - 1]`, in order.
pub open spec fn slopes_upto(seg: Seq<Sample>, i: int, unit: int) -> Seq<(int, int)>
    decreases i,
{
    if i <= 0 {
        seq![]
    } else {
        slopes_upto(seg, i - 1, unit) + slopes_row(seg, i - 1, seg.len() as int, unit)
    }
}

/// The slopes between every pair of samples that are apart in time.
pub open spec fn pairwise_slopes(seg: Seq<Sample>, unit: int) -> Seq<(int, int)> {
    slopes_upto(seg, seg.len() as int, unit)
}

/// A fraction with `|num| < nb` and `0 < den < db`.
pub open spec fn bounded(f: (int, int), nb: int, db: int) -> bool {
    -nb < f.0 < nb && 0 < f.1 < db
}

pub open spec fn all_bounded(s: Seq<(int, int)>, nb: int, db: int) -> bool {
    forall|k: int| 0 <= k < s.len() ==> bounded(#[trigger] s[k], nb, db)
}

proof fn lemma_insert_at(s: Seq<Sample>, x: Sample, j: int)
    requires
        0 <= j <= s.len(),
        j == 0 || s[j - 1].observed_at <= x.observed_at,
        forall|k: int| j <= k < s.len() ==> #[trigger] s[k].observed_at > x.observed_at,
    ensures
        insert_by_time(s, x) == s.insert(j, x),
    decreases s.len() - j,
{
    if s.len() == 0 {
        assert(s.insert(j, x) =~= seq![x]);
    } else if j == s.len() {
        assert(s.insert(j, x) =~= s.push(x));
    } else {
        let t = s.drop_last();
        lemma_insert_at(t, x, j);
        assert(s.insert(j, x) =~= t.insert(j, x).push(s.last()));
    }
}

pub(crate) fn insert_sample(v: &mut Vec<Sample>, x: Sample)
    ensures
        final(v)@ == insert_by_time(old(v)@, x),
{
    let mut j = v.len();
    while j > 0 && v[j - 1].observed_at > x.observed_at
        invariant
            j <= v.len(),
            v@ == old(v)@,
            forall|k: int| j <= k < v.len() ==> #[trigger] v@[k].observed_at > x.observed_at,
        decreases j,
    {
        j -= 1;
    }
    proof {
        lemma_insert_at(v@, x, j as int);
    }
    v.insert(j, x);
}

/// The samples of `pts`, stably sorted by observation time.
pub fn sorted_samples(pts: &Vec<RateObservation>) -> (r: Vec<Sample>)
    ensures
        r@ == sort_by_time(samples_of(pts@)),
{
    let mut out: Vec<Sample> = Vec::new();
    let mut i: usize = 0;
    while i < pts.len()
        invariant
            i <= pts.len(),
            out@ == sort_by_time(samples_of(pts@).take(i as int)),
        decreases pts.len() - i,
    {
        let x = Sample { observed_at: pts[i].observed_at, used_percent: pts[i].used_percent };
        insert_sample(&mut out, x);
        proof {
            let s = samples_of(pts@).take(i + 1);
            assert(s.drop_last() =~= samples_of(pts@).take(i as int));
            assert(s.last() == x);
        }
        i += 1;
    }
    proof {
        assert(samples_of(pts@).take(pts.len() as int) =~= samples_of(pts@));
    }
    out
}

/// The index where the current segment of time-ordered samples starts.
pub fn find_segment_start(s: &Vec<Sample>) -> (r: usize)
    ensures
        r == segment_start(s@),
        r <= s.len(),
        s.len() > 0 ==> r < s.len(),
{
    let mut k = s.len();
    proof {
        assert(s@.take(k as int) =~= s@);
    }
    while k >= 2
        invariant
            k <= s.len(),
            segment_start(s@) == segment_start(s@.take(k as int)),
        decreases k,
    {
        if s[k - 1].used_percent < s[k - 2].used_percent {
            return k - 1;
        }
        proof {
            assert(s@.take(k as int).drop_last() =~= s@.take(k - 1));
        }
        k -= 1;
    }
    0
}

/// The samples of `s` from index `start` on.
pub fn suffix(s: &Vec<Sample>, start: usize) -> (r: Vec<Sample>)
    requires
        start <= s.len(),
    ensures
        r@ == s@.skip(start as int),
{
    let mut out: Vec<Sample> = Vec::new();
    let mut i = start;
    while i < s.len()
        invariant
            start <= i <= s.len(),
            out@ == s@.subrange(start as int, i as int),
        decreases s.len() - i,
    {
        out.push(s[i]);
        proof {
            assert(s@.subrange(start as int, i + 1) =~= s@.subrange(start as int, i as int).push(
                s@[i as int],
            ));
        }
        i += 1;
    }
    proof {
        assert(s@.subrange(start as int, s.len() as int) =~= s@.skip(start as int));
    }
    out
}

/// The current segment of `pts`.
pub fn current_segment_of(pts: &Vec<RateObservation>) -> (r: Vec<Sample>)
    ensures
        r@ == current_segment(pts@),
{
    let ordered = sorted_samples(pts);
    let start = find_segment_start(&ordered);
    suffix(&ordered, start)
}

/// 2^32 * 86400 < 2^49: the numerator bound of slopes per hour or per day.
pub open spec fn slope_num_bound() -> int {
    0x2_0000_0000_0000
}

/// 2^63: a time difference that fits in 64 bits is below this.
pub open spec fn slope_den_bound() -> int {
    0x8000_0000_0000_0000
}

/// The slopes between every pair of samples of `seg` that are apart in
/// time, in the order of `pairwise_slopes`.
pub fn pairwise_slopes_of(seg: &Vec<Sample>, unit: i64) -> (r: Vec<Ratio>)
    requires
        1 <= unit <= 86400,
        time_sorted(seg@),
        span_fits(seg@),
    ensures
        frac_views(r@) == pairwise_slopes(seg@, unit as int),
        all_bounded(frac_views(r@), unit * 0x1_0000_0000, slope_den_bound()),
{
    let n = seg.len();
    let mut out: Vec<Ratio> = Vec::new();
    let mut i: usize = 0;
    while i < n
        invariant
            i <= n == seg.len(),
            1 <= unit <= 86400,
            time_sorted(seg@),
            span_fits(seg@),
            frac_views(out@) == slopes_upto(seg@, i as int, unit as int),
            all_bounded(frac_views(out@), unit * 0x1_0000_0000, slope_den_bound()),
        decreases n - i,
    {
        let mut j: usize = i + 1;
        proof {
            assert(slopes_row(seg@, i as int, j as int, unit as int) =~= seq![]);
            assert(slopes_upto(seg@, i as int, unit as int) + seq![] =~= slopes_upto(
                seg@,
                i as int,
                unit as int,
            ));
        }
        while j < n
            invariant
                i < j <= n == seg.len(),
                1 <= unit <= 86400,
                time_sorted(seg@),
                span_fits(seg@),
                frac_views(out@) == slopes_upto(seg@, i as int, unit as int) + slopes_row(
                    seg@,
                    i as int,
                    j as int,
                    unit as int,
                ),
                all_bounded(frac_views(out@), unit * 0x1_0000_0000, slope_den_bound()),
            decreases n - j,
        {
            let l = seg[i];
            let r = seg[j];
            proof {
                assert(seg@[0].observed_at <= l.observed_at);
                assert(r.observed_at <= seg@[n - 1].observed_at);
                assert(l.observed_at <= r.observed_at);
            }
            let dt: i64 = r.observed_at - l.observed_at;
            if dt > 0 {
                let du: i64 = r.used_percent as i64 - l.used_percent as i64;
                proof {
                    assert(-0x1_0000_0000 < du < 0x1_0000_0000);
                    assert(-(unit * 0x1_0000_0000) < du * unit < unit * 0x1_0000_0000)
                        by (nonlinear_arith)
                        requires
                            -0x1_0000_0000 < du < 0x1_0000_0000,
                            1 <= unit,
                    ;
                }
                let f = Ratio { num: (du as i128) * (unit as i128), den: dt as i128 };
                let ghost before = frac_views(out@);
                out.push(f);
                proof {
                    assert(frac_views(out@) =~= before.push(f@));
                    assert(f@ == slope_of(seg@[i as int], seg@[j as int], unit as int));
                    assert(slopes_upto(seg@, i as int, unit as int) + slopes_row(
                        seg@,
                        i as int,
                        j + 1,
                        unit as int,
                    ) =~= (slopes_upto(seg@, i as int, unit as int) + slopes_row(
                        seg@,
                        i as int,
                        j as int,
                        unit as int,
                    )).push(f@));
                }
            } else {
                proof {
                    assert(slopes_row(seg@, i as int, j + 1, unit as int) == slopes_row(
                        seg@,
                        i as int,
                        j as int,
                        unit as int,
                    ));
                }
            }
            j += 1;
        }
        proof {
            assert(slopes_upto(seg@, i + 1, unit as int) == slopes_upto(seg@, i as int, unit as int)
                + slopes_row(seg@, i as int, n as int, unit as int));
        }
        i += 1;
    }
    out
}

/// Every element of the ascending order of `s` is an element of `s`.
pub proof fn lemma_sorted_elements(s: Seq<(int, int)>, k: int)
    requires
        0 <= k < s.len(),
    ensures
        sorted_fracs(s).len() == s.len(),
        s.contains(sorted_fracs(s)[k]),
{
    crate::ratio::lemma_frac_order_total();
    s.lemma_sort_by_ensures(frac_order());
    broadcast use vstd::seq_lib::group_to_multiset_ensures;

    assert(sorted_fracs(s).to_multiset().len() == s.to_multiset().len());
    assert(sorted_fracs(s).contains(sorted_fracs(s)[k]));
}


pub(crate) proof fn lemma_segment_start_bound(s: Seq<Sample>)
    ensures
        0 <= segment_start(s) <= s.len(),
        s.len() > 0 ==> segment_start(s) < s.len(),
    decreases s.len(),
{
    if s.len() >= 2 {
        lemma_segment_start_bound(s.drop_last());
    }
}

/// A non-empty input has a non-empty current segment.
pub proof fn lemma_segment_nonempty(pts: Seq<RateObservation>)
    ensures
        current_segment(pts).len() <= pts.len(),
        pts.len() > 0 ==> current_segment(pts).len() > 0,
{
    lemma_sort_by_time(samples_of(pts));
    lemma_segment_start_bound(sort_by_time(samples_of(pts)));
}

proof fn lemma_row_dens(seg: Seq<Sample>, i: int, j: int, unit: int)
    ensures
        forall|k: int| 0 <= k < slopes_row(seg, i, j, unit).len() ==> (#[trigger] slopes_row(
            seg,
            i,
            j,
            unit,
        )[k]).1 > 0,
    decreases j - i,
{
    if j > i + 1 {
        lemma_row_dens(seg, i, j - 1, unit);
        let prev = slopes_row(seg, i, j - 1, unit);
        if seg[j - 1].observed_at - seg[i].observed_at > 0 {
            let x = slope_of(seg[i], seg[j - 1], unit);
            assert forall|k: int| 0 <= k < prev.push(x).len() implies (#[trigger] prev.push(x)[k]).1
                > 0 by {
                if k < prev.len() {
                    assert(prev.push(x)[k] == prev[k]);
                }
            }
        }
    }
}

proof fn lemma_upto_dens(seg: Seq<Sample>, i: int, unit: int)
    ensures
        forall|k: int| 0 <= k < slopes_upto(seg, i, unit).len() ==> (#[trigger] slopes_upto(
            seg,
            i,
            unit,
        )[k]).1 > 0,
    decreases i,
{
    if i > 0 {
        lemma_upto_dens(seg, i - 1, unit);
        lemma_row_dens(seg, i - 1, seg.len() as int, unit);
        let a = slopes_upto(seg, i - 1, unit);
        let b = slopes_row(seg, i - 1, seg.len() as int, unit);
        assert forall|k: int| 0 <= k < (a + b).len() implies (#[trigger] (a + b)[k]).1 > 0 by {
            if k >= a.len() {
                assert((a + b)[k] == b[k - a.len()]);
            }
        }
    }
}

/// Every slope is over a positive time.
pub proof fn lemma_slope_dens(seg: Seq<Sample>, unit: int)
    ensures
        forall|k: int| 0 <= k < pairwise_slopes(seg, unit).len() ==> (#[trigger] pairwise_slopes(
            seg,
            unit,
        )[k]).1 > 0,
{
    lemma_upto_dens(seg, seg.len() as int, unit);
}

proof fn lemma_row_len(seg: Seq<Sample>, i: int, j: int, unit: int)
    requires
        0 <= i,
        i + 1 < j <= seg.len(),
        seg[j - 1].observed_at - seg[i].observed_at > 0,
    ensures
        slopes_row(seg, i, j, unit).len() > 0,
{
}

proof fn lemma_upto_len(seg: Seq<Sample>, i: int, unit: int)
    requires
        1 <= i,
    ensures
        slopes_upto(seg, i, unit).len() >= slopes_row(seg, 0, seg.len() as int, unit).len(),
    decreases i,
{
    if i > 1 {
        lemma_upto_len(seg, i - 1, unit);
    } else {
        assert(slopes_upto(seg, 0, unit) =~= seq![]);
    }
}

/// Two samples apart in time give at least one slope.
pub proof fn lemma_slopes_nonempty(seg: Seq<Sample>, unit: int)
    requires
        seg.len() >= 2,
        seg.last().observed_at - seg.first().observed_at > 0,
    ensures
        pairwise_slopes(seg, unit).len() > 0,
{
    lemma_row_len(seg, 0, seg.len() as int, unit);
    lemma_upto_len(seg, seg.len() as int, unit);
}

/// Bounds carry over from a sequence to its ascending order.
pub proof fn lemma_sorted_bounded(s: Seq<(int, int)>, nb: int, db: int)
    requires
        all_bounded(s, nb, db),
    ensures
        all_bounded(sorted_fracs(s), nb, db),
        sorted_fracs(s).len() == s.len(),
{
    if s.len() > 0 {
        lemma_sorted_elements(s, 0);
    } else {
        crate::ratio::lemma_frac_order_total();
        s.lemma_sort_by_ensures(frac_order());
        broadcast use vstd::seq_lib::group_to_multiset_ensures;

        assert(sorted_fracs(s).to_multiset().len() == s.to_multiset().len());
    }
    assert forall|k: int| 0 <= k < sorted_fracs(s).len() implies bounded(
        #[trigger] sorted_fracs(s)[k],
        nb,
        db,
    ) by {
        lemma_sorted_elements(s, k);
    }
}

/// A copy of a vector of fractions.
pub fn copy_ratios(v: &Vec<Ratio>) -> (r: Vec<Ratio>)
    ensures
        r@ == v@,
{
    let mut out: Vec<Ratio> = Vec::new();
    let mut i: usize = 0;
    while i < v.len()
        invariant
            i <= v.len(),
            out@ == v@.take(i as int),
        decreases v.len() - i,
    {
        out.push(v[i]);
        proof {
            assert(v@.take(i + 1) =~= v@.take(i as int).push(v@[i as int]));
        }
        i += 1;
    }
    proof {
        assert(v@.take(v.len() as int) =~= v@);
    }
    out
}

/// The ascending order of `v` (which is left as it is).
pub fn sorted_copy(v: &Vec<Ratio>) -> (r: Vec<Ratio>)
    ensures
        frac_views(r@) == sorted_fracs(frac_views(v@)),
        r@.len() == v@.len(),
{
    let mut s = copy_ratios(v);
    sort_ratios(&mut s);
    s
}

/// The median of fractions with `|num| < 2^49` and `0 < den < 2^63`.
pub fn median_of(v: &Vec<Ratio>) -> (r: Option<Ratio>)
    requires
        all_bounded(frac_views(v@), slope_num_bound(), slope_den_bound()),
    ensures
        r matches Some(m) ==> median_frac(frac_views(v@)) == Some(m@),
        r is None <==> v.len() == 0,
        r is None ==> median_frac(frac_views(v@)) is None,
{
    if v.len() == 0 {
        return None;
    }
    let s = sorted_copy(v);
    proof {
        lemma_sorted_bounded(frac_views(v@), slope_num_bound(), slope_den_bound());
    }
    let m = v.len() / 2;
    if v.len() % 2 == 0 {
        let a = s[m - 1];
        let b = s[m];
        proof {
            assert(frac_views(s@)[m - 1] == a@);
            assert(frac_views(s@)[m as int] == b@);
            assert(bounded(a@, slope_num_bound(), slope_den_bound()));
            assert(bounded(b@, slope_num_bound(), slope_den_bound()));
            assert(-0x1_0000_0000_0000_0000_0000_0000_0000 < a.num * b.den < 0x1_0000_0000_0000_0000_0000_0000_0000)
                by (nonlinear_arith)
                requires
                    -0x2_0000_0000_0000 < a.num < 0x2_0000_0000_0000,
                    0 < b.den < 0x8000_0000_0000_0000,
            ;
            assert(-0x1_0000_0000_0000_0000_0000_0000_0000 < b.num * a.den < 0x1_0000_0000_0000_0000_0000_0000_0000)
                by (nonlinear_arith)
                requires
                    -0x2_0000_0000_0000 < b.num < 0x2_0000_0000_0000,
                    0 < a.den < 0x8000_0000_0000_0000,
            ;
            assert(0 < a.den * b.den < 0x4000_0000_0000_0000_0000_0000_0000_0000) by (nonlinear_arith)
                requires
                    0 < a.den < 0x8000_0000_0000_0000,
                    0 < b.den < 0x8000_0000_0000_0000,
            ;
        }
        let r = Ratio { num: a.num * b.den + b.num * a.den, den: 2 * (a.den * b.den) };
        proof {
            assert(2 * (a.den * b.den) == 2 * a.den * b.den) by (nonlinear_arith);
            assert(r@ == frac_mean(a@, b@));
        }
        Some(r)
    } else {
        let r = s[m];
        proof {
            assert(frac_views(s@)[m as int] == r@);
        }
        Some(r)
    }
}


proof fn lemma_no_fall_after_start(s: Seq<Sample>)
    ensures
        forall|j: int|
            segment_start(s) < j < s.len() ==> s[j - 1].used_percent <= #[trigger] s[j].used_percent,
    decreases s.len(),
{
    if s.len() >= 2 && !(s[s.len() - 1].used_percent < s[s.len() - 2].used_percent) {
        lemma_no_fall_after_start(s.drop_last());
        lemma_segment_start_bound(s);
        lemma_segment_start_bound(s.drop_last());
        assert forall|j: int| segment_start(s) < j < s.len() implies s[j - 1].used_percent
            <= #[trigger] s[j].used_percent by {
            if j < s.len() - 1 {
                assert(s.drop_last()[j] == s[j]);
                assert(s.drop_last()[j - 1] == s[j - 1]);
            }
        }
    }
}

/// Used percent never falls within the current segment: a fall starts a
/// new segment.
pub proof fn lemma_segment_never_falls(pts: Seq<RateObservation>)
    ensures
        forall|j: int|
            0 < j < current_segment(pts).len() ==> current_segment(pts)[j - 1].used_percent
                <= #[trigger] current_segment(pts)[j].used_percent,
{
    let o = sort_by_time(samples_of(pts));
    lemma_no_fall_after_start(o);
    lemma_segment_start_bound(o);
    let st = segment_start(o);
    let c = current_segment(pts);
    assert forall|j: int| 0 < j < c.len() implies c[j - 1].used_percent
        <= #[trigger] c[j].used_percent by {
        assert(c[j] == o[j + st]);
        assert(c[j - 1] == o[j - 1 + st]);
    }
}


/// Times never go down along `s`.
pub open spec fn time_sorted(s: Seq<Sample>) -> bool {
    forall|i: int, j: int| 0 <= i <= j < s.len() ==> s[i].observed_at <= s[j].observed_at
}

pub proof fn lemma_push_contains(s: Seq<Sample>, y: Sample, e: Sample)
    ensures
        s.push(y).contains(e) <==> (s.contains(e) || e == y),
{
    if s.contains(e) {
        let i = choose|i: int| 0 <= i < s.len() && s[i] == e;
        assert(s.push(y)[i] == e);
    }
    if e == y {
        assert(s.push(y)[s.len() as int] == y);
    }
    if s.push(y).contains(e) {
        let i = choose|i: int| 0 <= i < s.push(y).len() && s.push(y)[i] == e;
        if i < s.len() {
            assert(s[i] == e);
        }
    }
}

pub proof fn lemma_insert_by_time(s: Seq<Sample>, x: Sample)
    ensures
        insert_by_time(s, x).len() == s.len() + 1,
        forall|e: Sample| #[trigger] insert_by_time(s, x).contains(e) <==> (s.contains(e) || e == x),
        time_sorted(s) ==> time_sorted(insert_by_time(s, x)),
    decreases s.len(),
{
    if s.len() == 0 {
        assert forall|e: Sample| #[trigger] insert_by_time(s, x).contains(e) <==> (s.contains(e)
            || e == x) by {
            lemma_push_contains(s, x, e);
            assert(insert_by_time(s, x) == s.push(x));
        }
    } else if s.last().observed_at <= x.observed_at {
        assert forall|e: Sample| #[trigger] insert_by_time(s, x).contains(e) <==> (s.contains(e)
            || e == x) by {
            lemma_push_contains(s, x, e);
        }
    } else {
        let d = s.drop_last();
        let t = insert_by_time(d, x);
        lemma_insert_by_time(d, x);
        assert(s =~= d.push(s.last()));
        assert forall|e: Sample| #[trigger] insert_by_time(s, x).contains(e) <==> (s.contains(e)
            || e == x) by {
            lemma_push_contains(t, s.last(), e);
            lemma_push_contains(d, s.last(), e);
        }
        if time_sorted(s) {
            assert forall|i: int, j: int| 0 <= i <= j < t.push(s.last()).len() implies t.push(
                s.last(),
            )[i].observed_at <= t.push(s.last())[j].observed_at by {
                if j == t.len() && i < t.len() {
                    let e = t[i];
                    assert(t.contains(e));
                    if d.contains(e) {
                        let k = choose|k: int| 0 <= k < d.len() && d[k] == e;
                        assert(s[k] == e);
                    }
                }
            }
        }
    }
}

pub proof fn lemma_sort_by_time(s: Seq<Sample>)
    ensures
        sort_by_time(s).len() == s.len(),
        forall|e: Sample| #[trigger] sort_by_time(s).contains(e) <==> s.contains(e),
        time_sorted(sort_by_time(s)),
    decreases s.len(),
{
    if s.len() > 0 {
        let d = s.drop_last();
        lemma_sort_by_time(d);
        lemma_insert_by_time(sort_by_time(d), s.last());
        assert(s =~= d.push(s.last()));
        assert forall|e: Sample| #[trigger] sort_by_time(s).contains(e) <==> s.contains(e) by {
            lemma_push_contains(d, s.last(), e);
        }
    }
}

/// The current segment is in time order.
pub proof fn lemma_segment_sorted(pts: Seq<RateObservation>)
    ensures
        time_sorted(current_segment(pts)),
{
    let o = sort_by_time(samples_of(pts));
    lemma_sort_by_time(samples_of(pts));
    let st = segment_start(o);
    lemma_segment_start_bound(o);
    let c = current_segment(pts);
    assert forall|i: int, j: int| 0 <= i <= j < c.len() implies c[i].observed_at
        <= c[j].observed_at by {
        assert(c[i] == o[i + st]);
        assert(c[j] == o[j + st]);
    }
}

} // verus!
