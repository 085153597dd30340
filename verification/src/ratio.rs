//! Exact rational numbers: the forecast and the quota pace are computed with
//! them, so every comparison and every median is exact.
use vstd::prelude::*;
use vstd::relations::total_ordering;
use crate::wide::{U256, mul_wide, le_wide};

verus! {

/// A fraction `num / den`; it denotes a rational number when `den > 0`.
#[derive(Debug, Clone, Copy, PartialEq, Eq, Structural)]
pub struct Ratio {
    pub num: i128,
    pub den: i128,
}

impl View for Ratio {
    type V = (int, int);

    open spec fn view(&self) -> (int, int) {
        (self.num as int, self.den as int)
    }
}

/// The views of a sequence of fractions.
pub open spec fn frac_views(s: Seq<Ratio>) -> Seq<(int, int)> {
    s.map_values(|r: Ratio| r@)
}

/// `a <= b` as rational numbers (both denominators positive).
pub open spec fn value_le(a: (int, int), b: (int, int)) -> bool {
    a.0 * b.1 <= b.0 * a.1
}

/// `a < b` as rational numbers (both denominators positive).
pub open spec fn value_lt(a: (int, int), b: (int, int)) -> bool {
    a.0 * b.1 < b.0 * a.1
}

/// A total order on fractions: by rational value first, then by numerator,
/// then by denominator; fractions without a positive denominator come last.
pub open spec fn frac_leq(a: (int, int), b: (int, int)) -> bool {
    if a.1 > 0 && b.1 > 0 {
        value_lt(a, b) || (a.0 * b.1 == b.0 * a.1 && (a.0 < b.0 || (a.0 == b.0 && a.1 <= b.1)))
    } else if a.1 > 0 {
        true
    } else if b.1 > 0 {
        false
    } else {
        a.0 < b.0 || (a.0 == b.0 && a.1 <= b.1)
    }
}

pub open spec fn frac_order() -> spec_fn((int, int), (int, int)) -> bool {
    |a: (int, int), b: (int, int)| frac_leq(a, b)
}

/// The fractions of `s` in ascending order.
pub open spec fn sorted_fracs(s: Seq<(int, int)>) -> Seq<(int, int)> {
    s.sort_by(frac_order())
}

/// The mean of two fractions.
pub open spec fn frac_mean(a: (int, int), b: (int, int)) -> (int, int) {
    (a.0 * b.1 + b.0 * a.1, 2 * a.1 * b.1)
}

/// The middle of an ascending sequence: its middle element, or the mean of
/// its two middle elements when the count is even.
pub open spec fn middle_of(t: Seq<(int, int)>) -> (int, int) {
    let m = (t.len() / 2) as int;
    if t.len() % 2 == 0 {
        frac_mean(t[m - 1], t[m])
    } else {
        t[m]
    }
}

/// The median; `None` for no elements.
pub open spec fn median_frac(s: Seq<(int, int)>) -> Option<(int, int)> {
    if s.len() == 0 {
        None
    } else {
        Some(middle_of(sorted_fracs(s)))
    }
}

proof fn lemma_value_trans(a: (int, int), b: (int, int), c: (int, int))
    requires
        a.1 > 0,
        b.1 > 0,
        c.1 > 0,
        value_le(a, b),
        value_le(b, c),
    ensures
        value_le(a, c),
        (value_lt(a, b) || value_lt(b, c)) ==> value_lt(a, c),
{
    assert(a.0 * b.1 * c.1 <= b.0 * a.1 * c.1) by (nonlinear_arith)
        requires
            a.0 * b.1 <= b.0 * a.1,
            c.1 > 0,
    ;
    assert(b.0 * c.1 * a.1 <= c.0 * b.1 * a.1) by (nonlinear_arith)
        requires
            b.0 * c.1 <= c.0 * b.1,
            a.1 > 0,
    ;
    assert(a.0 * c.1 * b.1 <= c.0 * a.1 * b.1) by (nonlinear_arith)
        requires
            a.0 * b.1 * c.1 <= b.0 * a.1 * c.1,
            b.0 * c.1 * a.1 <= c.0 * b.1 * a.1,
    ;
    assert(value_le(a, c)) by (nonlinear_arith)
        requires
            a.0 * c.1 * b.1 <= c.0 * a.1 * b.1,
            b.1 > 0,
    ;
    if value_lt(a, b) {
        assert(a.0 * b.1 * c.1 < b.0 * a.1 * c.1) by (nonlinear_arith)
            requires
                a.0 * b.1 < b.0 * a.1,
                c.1 > 0,
        ;
        assert(value_lt(a, c)) by (nonlinear_arith)
            requires
                a.0 * b.1 * c.1 < b.0 * a.1 * c.1,
                b.0 * c.1 * a.1 <= c.0 * b.1 * a.1,
                b.1 > 0,
        ;
    }
    if value_lt(b, c) {
        assert(b.0 * c.1 * a.1 < c.0 * b.1 * a.1) by (nonlinear_arith)
            requires
                b.0 * c.1 < c.0 * b.1,
                a.1 > 0,
        ;
        assert(value_lt(a, c)) by (nonlinear_arith)
            requires
                a.0 * b.1 * c.1 <= b.0 * a.1 * c.1,
                b.0 * c.1 * a.1 < c.0 * b.1 * a.1,
                b.1 > 0,
        ;
    }
}

/// `frac_leq` is a total order.
pub proof fn lemma_frac_order_total()
    ensures
        total_ordering(frac_order()),
{
    let r = frac_order();
    assert forall|a: (int, int), b: (int, int), c: (int, int)|
        #[trigger] r(a, b) && #[trigger] r(b, c) implies r(a, c) by {
        if a.1 > 0 && b.1 > 0 && c.1 > 0 {
            lemma_value_trans(a, b, c);
        }
    }
    assert forall|a: (int, int), b: (int, int)| #[trigger] r(a, b) && #[trigger] r(b, a) implies a
        == b by {}
    assert forall|a: (int, int), b: (int, int)| #[trigger] r(a, b) || r(b, a) by {}
    assert forall|a: (int, int)| #[trigger] r(a, a) by {}
}

/// Any ascending permutation of `s` is `sorted_fracs(s)`.
pub proof fn lemma_sorted_is_sorted_fracs(s: Seq<(int, int)>, t: Seq<(int, int)>)
    requires
        t.to_multiset() == s.to_multiset(),
        vstd::relations::sorted_by(t, frac_order()),
    ensures
        t == sorted_fracs(s),
{
    lemma_frac_order_total();
    s.lemma_sort_by_ensures(frac_order());
    vstd::seq_lib::lemma_sorted_unique(t, sorted_fracs(s), frac_order());
}

/// The magnitude of a 128-bit signed integer.
pub fn magnitude(x: i128) -> (r: u128)
    ensures
        r == (if x < 0 { -x } else { x as int }),
{
    if x < 0 {
        let y = -(x + 1);
        (y as u128) + 1
    } else {
        x as u128
    }
}

/// The sign (-1, 0 or 1) of `x1 * y1 - x2 * y2`, for positive `y1` and `y2`.
pub fn compare_products(x1: i128, y1: i128, x2: i128, y2: i128) -> (r: i8)
    requires
        y1 > 0,
        y2 > 0,
    ensures
        r == -1 <==> x1 * y1 < x2 * y2,
        r == 0 <==> x1 * y1 == x2 * y2,
        r == 1 <==> x1 * y1 > x2 * y2,
{
    proof {
        assert(x1 < 0 ==> x1 * y1 < 0) by (nonlinear_arith)
            requires
                y1 > 0,
        ;
        assert(x1 > 0 ==> x1 * y1 > 0) by (nonlinear_arith)
            requires
                y1 > 0,
        ;
        assert(x2 < 0 ==> x2 * y2 < 0) by (nonlinear_arith)
            requires
                y2 > 0,
        ;
        assert(x2 > 0 ==> x2 * y2 > 0) by (nonlinear_arith)
            requires
                y2 > 0,
        ;
    }
    let s1: i8 = if x1 < 0 {
        -1
    } else if x1 == 0 {
        0
    } else {
        1
    };
    let s2: i8 = if x2 < 0 {
        -1
    } else if x2 == 0 {
        0
    } else {
        1
    };
    if s1 < s2 {
        return -1;
    }
    if s1 > s2 {
        return 1;
    }
    if s1 == 0 {
        return 0;
    }
    let p1: U256 = mul_wide(magnitude(x1), y1 as u128);
    let p2: U256 = mul_wide(magnitude(x2), y2 as u128);
    let a = le_wide(p1, p2);
    let b = le_wide(p2, p1);
    proof {
        if s1 > 0 {
            assert(p1.value() == x1 * y1);
            assert(p2.value() == x2 * y2);
        } else {
            assert(p1.value() == (-x1) * y1);
            assert(p2.value() == (-x2) * y2);
            assert((-x1) * y1 == -(x1 * y1)) by (nonlinear_arith);
            assert((-x2) * y2 == -(x2 * y2)) by (nonlinear_arith);
        }
    }
    if a && b {
        0
    } else if a {
        if s1 > 0 {
            -1
        } else {
            1
        }
    } else {
        if s1 > 0 {
            1
        } else {
            -1
        }
    }
}

} // verus!
