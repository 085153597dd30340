//! Equivalent API cost of token usage, from a built-in price list. Prices
//! are millionths of a US dollar per million tokens; costs are picodollars.
use vstd::prelude::*;
use crate::domain::TokenBreakdown;
use crate::text::owned;

verus! {

#[derive(Debug, Clone, PartialEq, Eq)]
pub struct PriceEntry {
    pub model: String,
    pub effective_from: i64,
    pub input_per_million: i64,
    pub cached_input_per_million: i64,
    pub output_per_million: i64,
}

pub struct PriceCatalog {
    entries: Vec<PriceEntry>,
}

/// The price entries (model, effective from, input, cached input, output)
/// of the built-in catalog, version 2026-07-29.
pub open spec fn built_in_prices() -> Seq<(Seq<char>, int, int, int, int)> {
    seq![
        ("gpt-5.5"@, 0, 5_000_000, 500_000, 30_000_000),
        ("gpt-5.6-sol"@, 0, 5_000_000, 500_000, 30_000_000),
        ("gpt-5.6"@, 0, 5_000_000, 500_000, 30_000_000),
        ("gpt-5.6-terra"@, 0, 2_500_000, 250_000, 15_000_000),
        ("gpt-5.6-luna"@, 0, 1_000_000, 100_000, 6_000_000),
        ("gpt-5.4"@, 0, 2_500_000, 250_000, 15_000_000),
        ("gpt-5.3-codex"@, 0, 1_750_000, 175_000, 14_000_000),
        ("gpt-5.2"@, 0, 1_750_000, 175_000, 14_000_000),
        ("gpt-5.2-codex"@, 0, 1_750_000, 175_000, 14_000_000),
        ("gpt-5-codex"@, 0, 1_250_000, 125_000, 10_000_000),
    ]
}

pub open spec fn entry_view(e: PriceEntry) -> (Seq<char>, int, int, int, int) {
    (
        e.model@,
        e.effective_from as int,
        e.input_per_million as int,
        e.cached_input_per_million as int,
        e.output_per_million as int,
    )
}

pub open spec fn entry_views(v: Seq<PriceEntry>) -> Seq<(Seq<char>, int, int, int, int)> {
    v.map_values(|e: PriceEntry| entry_view(e))
}

/// Prices are at most 2^40 millionths of a dollar per million tokens.
pub open spec fn sane_prices(v: Seq<(Seq<char>, int, int, int, int)>) -> bool {
    forall|k: int|
        0 <= k < v.len() ==> 0 <= #[trigger] v[k].2 < 0x100_0000_0000 && 0 <= v[k].3
            < 0x100_0000_0000 && 0 <= v[k].4 < 0x100_0000_0000
}

/// Among the first `n` entries, the one `max_by_key(effective_from)` picks
/// from those for `model` already in effect at `at`: the last with the
/// latest start.
pub open spec fn chosen_upto(
    v: Seq<(Seq<char>, int, int, int, int)>,
    model: Seq<char>,
    at: int,
    n: int,
) -> Option<int>
    decreases n,
{
    if n <= 0 {
        None
    } else {
        let prev = chosen_upto(v, model, at, n - 1);
        let e = v[n - 1];
        if e.0 == model && e.1 <= at {
            match prev {
                None => Some(n - 1),
                Some(k) => if v[k].1 <= e.1 {
                    Some(n - 1)
                } else {
                    Some(k)
                },
            }
        } else {
            prev
        }
    }
}

/// The cost of `tokens` at a price entry: uncached input, cached input and
/// output priced separately.
pub open spec fn cost_at(e: (Seq<char>, int, int, int, int), tokens: TokenBreakdown) -> int {
    let uncached = if tokens.input_tokens - tokens.cached_input_tokens > 0 {
        tokens.input_tokens - tokens.cached_input_tokens
    } else {
        0
    };
    uncached * e.2 + tokens.cached_input_tokens * e.3 + tokens.output_tokens * e.4
}

pub open spec fn spec_estimate(
    v: Seq<(Seq<char>, int, int, int, int)>,
    model: Seq<char>,
    at: int,
    tokens: TokenBreakdown,
) -> Option<int> {
    match chosen_upto(v, model, at, v.len() as int) {
        Some(k) => Some(cost_at(v[k], tokens)),
        None => None,
    }
}

fn entry(
    model: &str,
    input_per_million: i64,
    cached_input_per_million: i64,
    output_per_million: i64,
) -> (r: PriceEntry)
    ensures
        entry_view(r) == (model@, 0int, input_per_million as int, cached_input_per_million as int, output_per_million as int),
{
    PriceEntry {
        model: owned(model),
        effective_from: 0,
        input_per_million,
        cached_input_per_million,
        output_per_million,
    }
}

proof fn lemma_chosen_range(
    v: Seq<(Seq<char>, int, int, int, int)>,
    model: Seq<char>,
    at: int,
    n: int,
)
    ensures
        chosen_upto(v, model, at, n) matches Some(k) ==> 0 <= k < n,
    decreases n,
{
    if n > 0 {
        lemma_chosen_range(v, model, at, n - 1);
    }
}

impl PriceCatalog {
    #[verifier::type_invariant]
    spec fn well_formed(self) -> bool {
        sane_prices(entry_views(self.entries@))
    }

    /// The price entries, in catalog order.
    pub closed spec fn prices(self) -> Seq<(Seq<char>, int, int, int, int)> {
        entry_views(self.entries@)
    }

    /// The catalog of published API prices.
    pub fn built_in() -> (r: Self)
        ensures
            r.prices() == built_in_prices(),
    {
        let mut entries: Vec<PriceEntry> = Vec::new();
        entries.push(entry("gpt-5.5", 5_000_000, 500_000, 30_000_000));
        entries.push(entry("gpt-5.6-sol", 5_000_000, 500_000, 30_000_000));
        entries.push(entry("gpt-5.6", 5_000_000, 500_000, 30_000_000));
        entries.push(entry("gpt-5.6-terra", 2_500_000, 250_000, 15_000_000));
        entries.push(entry("gpt-5.6-luna", 1_000_000, 100_000, 6_000_000));
        entries.push(entry("gpt-5.4", 2_500_000, 250_000, 15_000_000));
        entries.push(entry("gpt-5.3-codex", 1_750_000, 175_000, 14_000_000));
        entries.push(entry("gpt-5.2", 1_750_000, 175_000, 14_000_000));
        entries.push(entry("gpt-5.2-codex", 1_750_000, 175_000, 14_000_000));
        entries.push(entry("gpt-5-codex", 1_250_000, 125_000, 10_000_000));
        proof {
            assert(entry_views(entries@) =~= built_in_prices());
            assert(sane_prices(built_in_prices()));
        }
        PriceCatalog { entries }
    }

    /// The equivalent cost of `tokens` used with `model` at `occurred_at`, by
    /// the entry for that model with the latest start not after it; `None`
    /// when the model has no such entry.
    pub fn estimate(&self, model: &str, occurred_at: i64, tokens: &TokenBreakdown) -> (r: Option<
        i128,
    >)
        requires
            i64::MIN <= tokens.input_tokens - tokens.cached_input_tokens <= i64::MAX,
        ensures
            match r {
                Some(c) => spec_estimate(self.prices(), model@, occurred_at as int, *tokens) == Some(c as int),
                None => spec_estimate(self.prices(), model@, occurred_at as int, *tokens) is None,
            },
    {
        proof {
            use_type_invariant(self);
        }
        let ghost v = entry_views(self.entries@);
        let wanted = owned(model);
        let mut chosen: Option<usize> = None;
        let mut i: usize = 0;
        while i < self.entries.len()
            invariant
                i <= self.entries.len(),
                v == entry_views(self.entries@),
                wanted@ == model@,
                match chosen {
                    Some(k) => chosen_upto(v, model@, occurred_at as int, i as int) == Some(k as int) && k < i,
                    None => chosen_upto(v, model@, occurred_at as int, i as int) is None,
                },
            decreases self.entries.len() - i,
        {
            let e = &self.entries[i];
            proof {
                assert(v[i as int] == entry_view(*e));
            }
            if e.model == wanted && e.effective_from <= occurred_at {
                chosen = match chosen {
                    None => Some(i),
                    Some(k) => {
                        proof {
                            assert(v[k as int] == entry_view(self.entries@[k as int]));
                        }
                        if self.entries[k].effective_from <= e.effective_from {
                            Some(i)
                        } else {
                            Some(k)
                        }
                    },
                };
            }
            i += 1;
        }
        match chosen {
            None => None,
            Some(k) => {
                let e = &self.entries[k];
                proof {
                    assert(v[k as int] == entry_view(*e));
                    assert(0 <= v[k as int].2 < 0x100_0000_0000);
                }
                let diff = tokens.input_tokens - tokens.cached_input_tokens;
                let uncached: i128 = if diff > 0 {
                    diff as i128
                } else {
                    0
                };
                proof {
                    assert(-0x8000_0000_0000_0000_0000_0000_0000 < uncached * e.input_per_million < 0x8000_0000_0000_0000_0000_0000_0000) by (nonlinear_arith)
                        requires 0 <= uncached < 0x8000_0000_0000_0000, 0 <= e.input_per_million < 0x100_0000_0000;
                    assert(-0x8000_0000_0000_0000_0000_0000_0000 < (tokens.cached_input_tokens as int) * e.cached_input_per_million < 0x8000_0000_0000_0000_0000_0000_0000) by (nonlinear_arith)
                        requires -0x8000_0000_0000_0000 <= tokens.cached_input_tokens < 0x8000_0000_0000_0000, 0 <= e.cached_input_per_million < 0x100_0000_0000;
                    assert(-0x8000_0000_0000_0000_0000_0000_0000 < (tokens.output_tokens as int) * e.output_per_million < 0x8000_0000_0000_0000_0000_0000_0000) by (nonlinear_arith)
                        requires -0x8000_0000_0000_0000 <= tokens.output_tokens < 0x8000_0000_0000_0000, 0 <= e.output_per_million < 0x100_0000_0000;
                }
                let cost = uncached * (e.input_per_million as i128) + (tokens.cached_input_tokens as i128) * (e.cached_input_per_million as i128) + (tokens.output_tokens as i128) * (e.output_per_million as i128);
                Some(cost)
            },
        }
    }
}


proof fn lemma_chosen_is_model(
    v: Seq<(Seq<char>, int, int, int, int)>,
    model: Seq<char>,
    at: int,
    n: int,
)
    requires
        n <= v.len(),
    ensures
        chosen_upto(v, model, at, n) matches Some(k) ==> 0 <= k < n && v[k].0 == model && v[k].1
            <= at,
    decreases n,
{
    if n > 0 {
        lemma_chosen_is_model(v, model, at, n - 1);
    }
}

/// A model the catalog has no price for in effect at that time gets no
/// estimate; an estimate always uses a price of the model itself.
pub proof fn lemma_unpriced_model_has_no_estimate(
    v: Seq<(Seq<char>, int, int, int, int)>,
    model: Seq<char>,
    at: int,
    tokens: TokenBreakdown,
)
    ensures
        (forall|k: int| 0 <= k < v.len() ==> !(#[trigger] v[k].0 == model && v[k].1 <= at))
            ==> spec_estimate(v, model, at, tokens) is None,
        spec_estimate(v, model, at, tokens) is Some ==> exists|k: int|
            0 <= k < v.len() && #[trigger] v[k].0 == model && v[k].1 <= at
                && spec_estimate(v, model, at, tokens) == Some(cost_at(v[k], tokens)),
{
    lemma_chosen_is_model(v, model, at, v.len() as int);
}

} // verus!
