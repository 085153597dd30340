//! How far slopes spread around a rate: the absolute deviation of each
//! slope from the rate, kept as exact fractions with wide numerators, their
//! ascending order, and the test of their median against a bound.
use vstd::prelude::*;
use vstd::relations::{sorted_by, total_ordering};
use crate::ratio::{Ratio, frac_leq, frac_order, frac_mean, sorted_fracs, middle_of, value_le,
    magnitude, lemma_frac_order_total, lemma_sorted_is_sorted_fracs};
use crate::series::bounded;
use crate::wide::{U256, mul_wide, add_wide, sub_wide, le_wide, mul_sat, widen, base128,
    wide_max, saturating_product, lemma_wide_constants, lemma_mul_below};

verus! {

pub open spec fn abs(x: int) -> int {
    if x < 0 {
        -x
    } else {
        x
    }
}

/// `|slope - rate|` multiplied by the rate's denominator.
pub open spec fn scaled_deviation(s: (int, int), rate: (int, int)) -> (int, int) {
    (abs(s.0 * rate.1 - rate.0 * s.1), s.1)
}

pub open spec fn scaled_deviations(slopes: Seq<(int, int)>, rate: (int, int)) -> Seq<(int, int)> {
    slopes.map_values(|s: (int, int)| scaled_deviation(s, rate))
}

/// A slope: `|num| < 2^49`, `0 < den < 2^63`.
pub open spec fn slope_ok(s: (int, int)) -> bool {
    bounded(s, 0x2_0000_0000_0000, 0x8000_0000_0000_0000)
}

/// A median of slopes: `|num| < 2^113`, `0 < den < 2^127`.
pub open spec fn rate_bounded(r: (int, int)) -> bool {
    bounded(r, 0x2_0000_0000_0000_0000_0000_0000_0000, 0x8000_0000_0000_0000_0000_0000_0000_0000int)
}

/// A scaled deviation: `0 <= num < 2^177`, `0 < den < 2^63`.
pub open spec fn dev_ok(f: (int, int)) -> bool {
    0 <= f.0 < 0x2_0000_0000_0000_0000_0000_0000_0000_0000_0000_0000_0000int && 0 < f.1
        < 0x8000_0000_0000_0000
}

pub open spec fn all_dev_ok(s: Seq<(int, int)>) -> bool {
    forall|k: int| 0 <= k < s.len() ==> dev_ok(#[trigger] s[k])
}

/// A non-negative fraction `num / den` with a wide numerator.
#[derive(Clone, Copy)]
pub struct WideFrac {
    pub num: U256,
    pub den: u128,
}

impl View for WideFrac {
    type V = (int, int);

    open spec fn view(&self) -> (int, int) {
        (self.num.value(), self.den as int)
    }
}

pub open spec fn wide_views(s: Seq<WideFrac>) -> Seq<(int, int)> {
    s.map_values(|w: WideFrac| w@)
}

/// The scaled deviation of the slope `s` from `rate`.
pub fn deviation_of(s: Ratio, rate: Ratio) -> (r: WideFrac)
    requires
        slope_ok(s@),
        rate_bounded(rate@),
    ensures
        r@ == scaled_deviation(s@, rate@),
        dev_ok(r@),
{
    let pm = mul_wide(magnitude(s.num), rate.den as u128);
    let qm = mul_wide(magnitude(rate.num), s.den as u128);
    let ghost p = s.num * rate.den;
    let ghost q = rate.num * s.den;
    proof {
        assert(pm.value() == abs(p) && pm.value() < 0x1_0000_0000_0000_0000_0000_0000_0000_0000_0000_0000_0000int) by (nonlinear_arith)
            requires
                pm.value() == (if s.num < 0 { -s.num } else { s.num as int }) * rate.den,
                p == s.num * rate.den,
                -0x2_0000_0000_0000 < s.num < 0x2_0000_0000_0000,
                0 < rate.den < 0x8000_0000_0000_0000_0000_0000_0000_0000int,
        ;
        assert(qm.value() == abs(q) && qm.value() < 0x1_0000_0000_0000_0000_0000_0000_0000_0000_0000_0000_0000int) by (nonlinear_arith)
            requires
                qm.value() == (if rate.num < 0 { -rate.num } else { rate.num as int }) * s.den,
                q == rate.num * s.den,
                -0x2_0000_0000_0000_0000_0000_0000_0000 < rate.num
                    < 0x2_0000_0000_0000_0000_0000_0000_0000,
                0 < s.den < 0x8000_0000_0000_0000,
        ;
        assert((s.num < 0) == (p < 0) && (s.num == 0) == (p == 0)) by (nonlinear_arith)
            requires
                p == s.num * rate.den,
                rate.den > 0,
        ;
        assert((rate.num < 0) == (q < 0) && (rate.num == 0) == (q == 0)) by (nonlinear_arith)
            requires
                q == rate.num * s.den,
                s.den > 0,
        ;
        assert(0x1_0000_0000_0000_0000_0000_0000_0000_0000_0000_0000_0000int * 2
            < base128() * base128());
    }
    let x = if (s.num < 0) == (rate.num < 0) {
        if le_wide(qm, pm) {
            sub_wide(pm, qm)
        } else {
            sub_wide(qm, pm)
        }
    } else {
        add_wide(pm, qm)
    };
    WideFrac { num: x, den: s.den as u128 }
}

/// Cross products of two scaled deviations stay below 2^240, and sixteen
/// times that is still a wide integer.
proof fn lemma_products_fit(a: (int, int), b: (int, int))
    requires
        dev_ok(a),
        dev_ok(b),
    ensures
        a.0 * b.1 < 0x1_0000_0000_0000_0000_0000_0000_0000_0000_0000_0000_0000_0000_0000_0000_0000int,
        b.0 * a.1 < 0x1_0000_0000_0000_0000_0000_0000_0000_0000_0000_0000_0000_0000_0000_0000_0000int,
        0x1_0000_0000_0000_0000_0000_0000_0000_0000_0000_0000_0000_0000_0000_0000_0000int * 16
            < wide_max(),
{
    lemma_mul_below(a.0, b.1, 0x2_0000_0000_0000_0000_0000_0000_0000_0000_0000_0000_0000int, 0x8000_0000_0000_0000int);
    lemma_mul_below(b.0, a.1, 0x2_0000_0000_0000_0000_0000_0000_0000_0000_0000_0000_0000int, 0x8000_0000_0000_0000int);
    lemma_wide_constants();
}

/// `frac_leq` on two scaled deviations.
pub fn wide_leq(a: WideFrac, b: WideFrac) -> (r: bool)
    requires
        dev_ok(a@),
        dev_ok(b@),
    ensures
        r == frac_leq(a@, b@),
{
    proof {
        lemma_products_fit(a@, b@);
    }
    let l = mul_sat(a.num, b.den);
    let r = mul_sat(b.num, a.den);
    let lr = le_wide(l, r);
    let rl = le_wide(r, l);
    if lr && !rl {
        true
    } else if !lr {
        false
    } else {
        let an = le_wide(a.num, b.num);
        let na = le_wide(b.num, a.num);
        if an && !na {
            true
        } else if !an {
            false
        } else {
            a.den <= b.den
        }
    }
}

proof fn lemma_sorted_insert(s: Seq<(int, int)>, j: int, x: (int, int))
    requires
        sorted_by(s, frac_order()),
        0 <= j <= s.len(),
        j > 0 ==> frac_leq(s[j - 1], x),
        forall|k: int| j <= k < s.len() ==> !frac_leq(#[trigger] s[k], x),
    ensures
        sorted_by(s.insert(j, x), frac_order()),
{
    lemma_frac_order_total();
    let o = frac_order();
    let t = s.insert(j, x);
    assert forall|a: int, b: int| 0 <= a <= b < t.len() implies o(#[trigger] t[a], #[trigger] t[b]) by {
        if a == b {
        } else if b < j {
            assert(t[a] == s[a] && t[b] == s[b]);
        } else if a > j {
            assert(t[a] == s[a - 1] && t[b] == s[b - 1]);
        } else if a == j {
            assert(t[b] == s[b - 1]);
            assert(!frac_leq(s[b - 1], x));
            assert(o(s[b - 1], x) || o(x, s[b - 1]));
        } else if b == j {
            assert(t[a] == s[a]);
            assert(o(s[a], s[j - 1]));
            assert(o(s[j - 1], x));
        } else {
            assert(t[a] == s[a] && t[b] == s[b - 1]);
        }
    }
}

/// Inserts `x` into the ascending `v`, keeping it ascending.
fn insert_ascending(v: &mut Vec<WideFrac>, x: WideFrac)
    requires
        sorted_by(wide_views(old(v)@), frac_order()),
        all_dev_ok(wide_views(old(v)@)),
        dev_ok(x@),
    ensures
        sorted_by(wide_views(final(v)@), frac_order()),
        all_dev_ok(wide_views(final(v)@)),
        wide_views(final(v)@).to_multiset() == wide_views(old(v)@).to_multiset().insert(x@),
        final(v)@.len() == old(v)@.len() + 1,
{
    let mut j = v.len();
    while j > 0
        invariant
            j <= v.len(),
            v@ == old(v)@,
            dev_ok(x@),
            all_dev_ok(wide_views(v@)),
            forall|k: int| j <= k < v.len() ==> !frac_leq(#[trigger] wide_views(v@)[k], x@),
        ensures
            j == 0 || frac_leq(wide_views(v@)[j - 1], x@),
            j <= v.len(),
            v@ == old(v)@,
            forall|k: int| j <= k < v.len() ==> !frac_leq(#[trigger] wide_views(v@)[k], x@),
        decreases j,
    {
        proof {
            assert(dev_ok(wide_views(v@)[j - 1]));
        }
        if wide_leq(v[j - 1], x) {
            break;
        }
        j -= 1;
    }
    let ghost s = wide_views(v@);
    proof {
        if j > 0 {
            assert(dev_ok(wide_views(v@)[j - 1]));
        }
        lemma_sorted_insert(s, j as int, x@);
    }
    v.insert(j, x);
    proof {
        assert(wide_views(v@) =~= s.insert(j as int, x@));
        vstd::seq_lib::to_multiset_insert(s, j as int, x@);
    }
}

/// The fractions of `v` in ascending order.
pub fn sort_wide(v: &Vec<WideFrac>) -> (r: Vec<WideFrac>)
    requires
        all_dev_ok(wide_views(v@)),
    ensures
        wide_views(r@) == sorted_fracs(wide_views(v@)),
        all_dev_ok(wide_views(r@)),
        r@.len() == v@.len(),
{
    let mut out: Vec<WideFrac> = Vec::new();
    let mut i: usize = 0;
    proof {
        assert(wide_views(v@.take(0)) =~= wide_views(out@));
    }
    while i < v.len()
        invariant
            i <= v.len(),
            all_dev_ok(wide_views(v@)),
            sorted_by(wide_views(out@), frac_order()),
            all_dev_ok(wide_views(out@)),
            wide_views(out@).to_multiset() == wide_views(v@.take(i as int)).to_multiset(),
            out@.len() == i,
        decreases v.len() - i,
    {
        proof {
            assert(dev_ok(wide_views(v@)[i as int]));
        }
        insert_ascending(&mut out, v[i]);
        proof {
            broadcast use vstd::seq_lib::group_to_multiset_ensures;

            assert(wide_views(v@.take(i + 1)) =~= wide_views(v@.take(i as int)).push(v@[i as int]@));
        }
        i += 1;
    }
    proof {
        assert(v@.take(v.len() as int) =~= v@);
        lemma_sorted_is_sorted_fracs(wide_views(v@), wide_views(out@));
    }
    out
}

/// Whether the middle of the ascending deviations `t`, divided by `scale`,
/// is at most `p / q`.
pub fn middle_within(t: &Vec<WideFrac>, scale: U256, p: u128, q: u128) -> (r: bool)
    requires
        t.len() > 0,
        all_dev_ok(wide_views(t@)),
        0 < scale.value() < 0x1_0000_0000_0000_0000_0000_0000_0000_0000_0000int,
        1 <= p <= 3,
        1 <= q <= 5,
    ensures
        r == ({
            let m = middle_of(wide_views(t@));
            value_le((m.0, m.1 * scale.value()), (p as int, q as int))
        }),
{
    let ghost v = wide_views(t@);
    let ghost sv = scale.value();
    let m = t.len() / 2;
    if t.len() % 2 == 0 {
        let a = t[m - 1];
        let b = t[m];
        proof {
            assert(v[m - 1] == a@);
            assert(v[m as int] == b@);
            assert(dev_ok(v[m - 1]));
            assert(dev_ok(v[m as int]));
            lemma_products_fit(a@, b@);
            assert(0 < (a.den as int) * (b.den as int) < 0x4000_0000_0000_0000_0000_0000_0000_0000int) by (nonlinear_arith)
                requires
                    0 < a.den < 0x8000_0000_0000_0000,
                    0 < b.den < 0x8000_0000_0000_0000,
            ;
        }
        let l1 = mul_sat(a.num, b.den);
        let l2 = mul_sat(b.num, a.den);
        let sum = add_wide(l1, l2);
        proof {
            assert(sum.value() * q < 0x1_0000_0000_0000_0000_0000_0000_0000_0000_0000_0000_0000_0000_0000_0000_0000int * 16) by (nonlinear_arith)
                requires
                    0 <= sum.value() < 0x1_0000_0000_0000_0000_0000_0000_0000_0000_0000_0000_0000_0000_0000_0000_0000int * 2,
                    1 <= q <= 5,
            ;
        }
        let lhs = mul_sat(sum, q);
        let dd = a.den * b.den;
        let inner = mul_sat(scale, dd);
        let rhs = mul_sat(inner, 2 * p);
        let r = le_wide(lhs, rhs);
        proof {
            let mm = frac_mean(a@, b@);
            assert(middle_of(v) == mm);
            assert(lhs.value() == mm.0 * (q as int)) by (nonlinear_arith)
                requires
                    lhs.value() == sum.value() * q,
                    sum.value() == a.num.value() * b.den + b.num.value() * a.den,
                    mm.0 == a.num.value() * b.den + b.num.value() * a.den,
            ;
            let full = sv * dd * (2 * p);
            assert(full == (p as int) * (mm.1 * sv)) by (nonlinear_arith)
                requires
                    full == sv * dd * (2 * p),
                    dd == a.den * b.den,
                    mm.1 == 2 * a.den * b.den,
            ;
            lemma_saturated_le(lhs.value(), sv, dd as int, 2 * p as int, inner.value(), rhs.value());
        }
        r
    } else {
        let a = t[m];
        proof {
            assert(v[m as int] == a@);
            assert(dev_ok(v[m as int]));
            assert(a.num.value() * q < 0x10_0000_0000_0000_0000_0000_0000_0000_0000_0000_0000_0000int)
                by (nonlinear_arith)
                requires
                    0 <= a.num.value() < 0x2_0000_0000_0000_0000_0000_0000_0000_0000_0000_0000_0000int,
                    1 <= q <= 5,
            ;
            lemma_wide_constants();
        }
        let lhs = mul_sat(a.num, q);
        let inner = mul_sat(scale, a.den);
        let rhs = mul_sat(inner, p);
        let r = le_wide(lhs, rhs);
        proof {
            assert(middle_of(v) == a@);
            lemma_saturated_le(lhs.value(), sv, a.den as int, p as int, inner.value(), rhs.value());
            assert(sv * a.den * p == (p as int) * (a.den * sv)) by (nonlinear_arith);
        }
        r
    }
}

/// Comparing with a product formed with saturating steps gives the exact
/// comparison, for a left side that does not reach the saturation value.
proof fn lemma_saturated_le(lhs: int, s: int, d: int, c: int, inner: int, outer: int)
    requires
        0 <= lhs < wide_max(),
        s >= 0,
        d >= 0,
        c >= 1,
        inner == saturating_product(s, d),
        outer == saturating_product(inner, c),
    ensures
        (lhs <= outer) == (lhs <= s * d * c),
{
    assert(s * d >= 0) by (nonlinear_arith)
        requires
            s >= 0,
            d >= 0,
    ;
    assert(s * d <= s * d * c) by (nonlinear_arith)
        requires
            s * d >= 0,
            c >= 1,
    ;
    assert(wide_max() <= wide_max() * c) by (nonlinear_arith)
        requires
            wide_max() >= 0,
            c >= 1,
    ;
}

} // verus!
