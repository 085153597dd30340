//! Ordering of fractions, and sorting vectors of them.
use vstd::prelude::*;
use vstd::relations::sorted_by;
use std::cmp::Ordering;
use crate::ratio::{Ratio, frac_leq, frac_order, frac_views, compare_products, sorted_fracs,
    lemma_sorted_is_sorted_fracs};

verus! {

/// Three-way comparison that agrees with `frac_leq`.
pub fn compare_ratios(a: &Ratio, b: &Ratio) -> (o: Ordering)
    ensures
        o == Ordering::Less <==> frac_leq(a@, b@) && a@ != b@,
        o == Ordering::Equal <==> a@ == b@,
        o == Ordering::Greater <==> frac_leq(b@, a@) && a@ != b@,
{
    let av = a.den > 0;
    let bv = b.den > 0;
    if av && bv {
        let c = compare_products(a.num, b.den, b.num, a.den);
        if c < 0 {
            return Ordering::Less;
        }
        if c > 0 {
            return Ordering::Greater;
        }
    } else if av {
        return Ordering::Less;
    } else if bv {
        return Ordering::Greater;
    }
    if a.num < b.num {
        Ordering::Less
    } else if a.num > b.num {
        Ordering::Greater
    } else if a.den < b.den {
        Ordering::Less
    } else if a.den > b.den {
        Ordering::Greater
    } else {
        Ordering::Equal
    }
}

/// `slice::sort_by` with `compare_ratios` as the comparator.
///
/// Trusted: the standard library documents that `sort_by` permutes the
/// elements so that the comparator never answers `Greater` for an earlier
/// element against a later one; `compare_ratios` is verified to answer
/// `Greater` exactly when `frac_leq` fails, and `frac_leq` is a total order.
#[verifier::external_body]
fn sort_by_comparator(v: &mut Vec<Ratio>)
    ensures
        frac_views(final(v)@).to_multiset() == frac_views(old(v)@).to_multiset(),
        sorted_by(frac_views(final(v)@), frac_order()),
        final(v)@.len() == old(v)@.len(),
{
    v.sort_by(|a, b| compare_ratios(a, b));
}

/// Sorts fractions into the order of `sorted_fracs`.
pub fn sort_ratios(v: &mut Vec<Ratio>)
    ensures
        frac_views(final(v)@) == sorted_fracs(frac_views(old(v)@)),
        final(v)@.len() == old(v)@.len(),
{
    sort_by_comparator(v);
    proof {
        lemma_sorted_is_sorted_fracs(frac_views(old(v)@), frac_views(v@));
    }
}

} // verus!
