//! Historic valuation: the portfolio's value at a past date from one
//! provider answer per ticker position, tolerating partial failure.

use vstd::prelude::*;
use vstd::string::StringExecFns;
use crate::fixed::{SCALE, MAX_FIELD, mul_fixed, floor_div};
use crate::portfolio::{Portfolio, positions_wf, MAX_POSITIONS};
use crate::position::{PortfolioPosition, MAX_LOTS, lemma_balance_bound};
use crate::quote::{Quote, QuoteResponse, ProviderError, last_close_of, error_text};

verus! {

/// Warning for an answer without a usable quote.
pub open spec fn no_quote_warning(label: Seq<char>) -> Seq<char> {
    "Error getting last quote for "@ + label + ": "@ + error_text(ProviderError::NoQuotes)
}

/// Warning for a failed fetch.
pub open spec fn fetch_warning(label: Seq<char>, e: ProviderError) -> Seq<char> {
    "Error getting historic price data for "@ + label + ": "@ + error_text(e)
}

/// What one ticker position adds to a historic valuation.
pub enum Contribution {
    Value(int),
    Skipped,
    Warning(Seq<char>),
}

/// A close times the effective quantity; no value without a close; a bad
/// request skipped quietly; any other failure a warning.
pub open spec fn contribution(p: PortfolioPosition, served: Result<Option<Seq<Quote>>, ProviderError>) -> Contribution {
    let label = p.ticker.unwrap()@;
    match served {
        Ok(answer) => match last_close_of(answer) {
            Some(c) => Contribution::Value(mul_fixed(c as int, p.effective_quantity())),
            None => Contribution::Warning(no_quote_warning(label)),
        },
        Err(e) => if e is BadRequest {
            Contribution::Skipped
        } else {
            Contribution::Warning(fetch_warning(label, e))
        },
    }
}

/// Sum of the contributions, with cash amounts unless `securities_only`.
pub open spec fn historic_sum(
    ps: Seq<PortfolioPosition>,
    served: Seq<Result<Option<Seq<Quote>>, ProviderError>>,
    securities_only: bool,
) -> int
    decreases ps.len(),
{
    if ps.len() == 0 || served.len() != ps.len() {
        0
    } else {
        let p = ps.last();
        historic_sum(ps.drop_last(), served.drop_last(), securities_only) + if p.ticker is None {
            if securities_only {
                0
            } else {
                p.effective_quantity()
            }
        } else {
            match contribution(p, served.last()) {
                Contribution::Value(v) => v,
                _ => 0,
            }
        }
    }
}

/// Warnings of the ticker positions, in order.
pub open spec fn historic_warnings(
    ps: Seq<PortfolioPosition>,
    served: Seq<Result<Option<Seq<Quote>>, ProviderError>>,
) -> Seq<Seq<char>>
    decreases ps.len(),
{
    if ps.len() == 0 || served.len() != ps.len() {
        Seq::empty()
    } else {
        let p = ps.last();
        let earlier = historic_warnings(ps.drop_last(), served.drop_last());
        if p.ticker is None {
            earlier
        } else {
            match contribution(p, served.last()) {
                Contribution::Warning(w) => earlier.push(w),
                _ => earlier,
            }
        }
    }
}

/// Warnings joined with `"; "`.
pub open spec fn join_warnings(ws: Seq<Seq<char>>) -> Seq<char>
    decreases ws.len(),
{
    if ws.len() == 0 {
        Seq::empty()
    } else if ws.len() == 1 {
        ws[0]
    } else {
        join_warnings(ws.drop_last()) + "; "@ + ws.last()
    }
}

/// The valuation: the sum, unless nothing positive came of it and there
/// were warnings, in which case the joined warnings.
pub open spec fn historic_result(
    ps: Seq<PortfolioPosition>,
    served: Seq<Result<Option<Seq<Quote>>, ProviderError>>,
    securities_only: bool,
) -> Result<int, Seq<char>> {
    let sum = historic_sum(ps, served, securities_only);
    let ws = historic_warnings(ps, served);
    if sum <= 0 && ws.len() > 0 {
        Err(join_warnings(ws))
    } else {
        Ok(sum)
    }
}

/// Views of the served answers.
pub open spec fn served_view(s: Seq<Result<QuoteResponse, ProviderError>>) -> Seq<Result<Option<Seq<Quote>>, ProviderError>> {
    s.map_values(|r: Result<QuoteResponse, ProviderError>| match r {
        Ok(a) => Ok(a@),
        Err(e) => Err(e),
    })
}

fn warning_text(prefix: &str, label: &String, e: &ProviderError) -> (r: String)
    ensures
        r@ == prefix@ + label@ + ": "@ + error_text(*e),
{
    let msg = e.message();
    let mut out = prefix.to_owned();
    out.append(label.as_str());
    out.append(": ");
    out.append(msg.as_str());
    out
}

/// Largest magnitude of one contribution or cash amount.
pub open spec fn max_contribution() -> int {
    (i64::MAX + 1) * (MAX_LOTS * MAX_FIELD) / (SCALE as int) + 1
}

impl Portfolio {
    /// Value of the portfolio from one served answer per position (entries
    /// of cash positions are not read): each ticker position adds its close
    /// times its effective quantity; cash adds its amount unless
    /// `securities_only`. Fails with the joined warnings only when the sum
    /// is not positive and some ticker warned.
    pub fn historic_value(
        &self,
        served: &Vec<Result<QuoteResponse, ProviderError>>,
        securities_only: bool,
    ) -> (r: Result<i128, String>)
        requires
            self.wf(),
            served@.len() == self.positions@.len(),
        ensures
            match (r, historic_result(self.positions@, served_view(served@), securities_only)) {
                (Ok(v), Ok(w)) => v == w,
                (Err(m), Err(w)) => m@ == w,
                _ => false,
            },
    {
        let ghost ps = self.positions@;
        let ghost sv = served_view(served@);
        let mut sum: i128 = 0;
        let mut warnings: Vec<String> = Vec::new();
        let mut i: usize = 0;
        while i < self.positions.len()
            invariant
                self.wf(),
                ps == self.positions@,
                sv == served_view(served@),
                served@.len() == ps.len(),
                0 <= i <= ps.len(),
                sum == historic_sum(ps.subrange(0, i as int), sv.subrange(0, i as int), securities_only),
                -(i * max_contribution()) <= sum <= i * max_contribution(),
                warnings@.map_values(|w: String| w@) == historic_warnings(ps.subrange(0, i as int), sv.subrange(0, i as int)),
            decreases ps.len() - i,
        {
            let p = &self.positions[i];
            proof {
                assert(ps.subrange(0, i as int + 1).drop_last() =~= ps.subrange(0, i as int));
                assert(sv.subrange(0, i as int + 1).drop_last() =~= sv.subrange(0, i as int));
                lemma_balance_bound(*p);
                let n = i as int;
                let m = max_contribution();
                assert(n * m + m == (n + 1) * m) by (nonlinear_arith);
                assert((n + 1) * m <= MAX_POSITIONS * m) by (nonlinear_arith)
                    requires n + 1 <= MAX_POSITIONS, m >= 0;
                assert(m == 9_223_372_036_854_775_808_000_000_000_001);
                assert(n * m >= 0) by (nonlinear_arith) requires n >= 0, m >= 0;
            }
            let ghost prev = warnings@;
            match &p.ticker {
                None => {
                    if !securities_only {
                        sum = sum + p.get_amount();
                    }
                },
                Some(label) => {
                    match &served[i] {
                        Ok(answer) => match answer.last_close() {
                            Some(c) => {
                                let q = p.get_amount();
                                proof {
                                    let f = MAX_LOTS * MAX_FIELD;
                                    let g = i64::MAX + 1;
                                    assert(-(g * f) <= c * q <= g * f) by (nonlinear_arith)
                                        requires -g <= c < g, -f <= q <= f, f > 0, g > 0;
                                    assert(g * f == 9_223_372_036_854_775_808_000_000_000_000_000_000);
                                }
                                let v = floor_div(c as i128 * q, SCALE as i128);
                                proof {
                                    crate::position::lemma_div_bounds(c * q, 9_223_372_036_854_775_808_000_000_000_000_000_000);
                                }
                                sum = sum + v;
                            },
                            None => {
                                warnings.push(warning_text("Error getting last quote for ", label, &ProviderError::NoQuotes));
                            },
                        },
                        Err(e) => {
                            if !e.is_bad_request() {
                                warnings.push(warning_text("Error getting historic price data for ", label, e));
                            }
                        },
                    }
                },
            }
            proof {
                assert(sv[i as int] == match served@[i as int] {
                    Ok(a) => Ok::<Option<Seq<Quote>>, ProviderError>(a@),
                    Err(e) => Err(e),
                });
                assert(warnings@.map_values(|w: String| w@) =~= historic_warnings(ps.subrange(0, i as int + 1), sv.subrange(0, i as int + 1)));
            }
            i = i + 1;
        }
        assert(ps.subrange(0, i as int) =~= ps);
        assert(sv.subrange(0, i as int) =~= sv);
        if sum <= 0 && warnings.len() > 0 {
            Err(join(&warnings))
        } else {
            Ok(sum)
        }
    }

    /// Value of every position from one served answer per position: cash
    /// at its amount, ticker positions at their close.
    pub fn get_historic_total_value(&self, served: &Vec<Result<QuoteResponse, ProviderError>>) -> (r: Result<i128, String>)
        requires
            self.wf(),
            served@.len() == self.positions@.len(),
        ensures
            match (r, historic_result(self.positions@, served_view(served@), false)) {
                (Ok(v), Ok(w)) => v == w,
                (Err(m), Err(w)) => m@ == w,
                _ => false,
            },
    {
        self.historic_value(served, false)
    }

    /// Value of the ticker positions alone from one served answer per
    /// position.
    pub fn get_historic_securities_value(&self, served: &Vec<Result<QuoteResponse, ProviderError>>) -> (r: Result<i128, String>)
        requires
            self.wf(),
            served@.len() == self.positions@.len(),
        ensures
            match (r, historic_result(self.positions@, served_view(served@), true)) {
                (Ok(v), Ok(w)) => v == w,
                (Err(m), Err(w)) => m@ == w,
                _ => false,
            },
    {
        self.historic_value(served, true)
    }
}

/// The warnings joined with `"; "`.
fn join(ws: &Vec<String>) -> (r: String)
    ensures
        r@ == join_warnings(ws@.map_values(|w: String| w@)),
{
    let ghost v = ws@.map_values(|w: String| w@);
    let mut out = String::new();
    let mut i: usize = 0;
    while i < ws.len()
        invariant
            0 <= i <= ws@.len(),
            v == ws@.map_values(|w: String| w@),
            out@ == join_warnings(v.subrange(0, i as int)),
        decreases ws@.len() - i,
    {
        if i > 0 {
            out.append("; ");
        }
        out.append(ws[i].as_str());
        proof {
            assert(v.subrange(0, i as int + 1).drop_last() =~= v.subrange(0, i as int));
            if i == 0 {
                assert(out@ =~= join_warnings(v.subrange(0, 1)));
            }
        }
        i = i + 1;
    }
    assert(v.subrange(0, i as int) =~= v);
    out
}

} // verus!
