//! Declared holdings, purchase lots, and the per-position valuation engine.

use vstd::prelude::*;
use crate::fixed::{SCALE, MAX_FIELD, in_range, mul_fixed, div_fixed, percent_of, floor_div};

verus! {

/// Most purchase lots one position may hold. With `MAX_FIELD`, it bounds a
/// position's quantity by 10^18 units and its balance by about 10^27, so
/// that a balance times one hundred percent (10^8 units) stays below 10^35.
pub const MAX_LOTS: usize = 1000;

/// Largest magnitude of one lot's cost (`quantity * price + fees`).
pub open spec fn max_lot_cost() -> int {
    (MAX_FIELD as int) * (MAX_FIELD as int) / (SCALE as int) + MAX_FIELD
}

/// One buy event. `price` is absent or non-positive while unknown.
#[derive(Debug)]
pub struct Purchase {
    pub date: Option<String>,
    pub quantity: i64,
    pub price: Option<i64>,
    pub fees: Option<i64>,
}

/// An optional fixed-point field read as zero when absent.
pub open spec fn or_zero(o: Option<i64>) -> int {
    match o {
        Some(v) => v as int,
        None => 0,
    }
}

impl Purchase {
    pub open spec fn wf(&self) -> bool {
        &&& in_range(self.quantity as int)
        &&& in_range(or_zero(self.price))
        &&& in_range(or_zero(self.fees))
    }

    /// A lot with a known positive price contributes to cost basis.
    pub open spec fn is_complete(&self) -> bool {
        self.price is Some && self.price.unwrap() > 0
    }

    /// `quantity * price + fees` of a complete lot.
    pub open spec fn cost(&self) -> int {
        mul_fixed(self.quantity as int, or_zero(self.price)) + or_zero(self.fees)
    }

    pub fn duplicate(&self) -> (r: Purchase)
        ensures
            r == *self,
    {
        let date = match &self.date {
            Some(d) => Some(d.clone()),
            None => None,
        };
        Purchase { date, quantity: self.quantity, price: self.price, fees: self.fees }
    }
}

/// Sum of all lot quantities.
pub open spec fn sum_quantity(s: Seq<Purchase>) -> int
    decreases s.len(),
{
    if s.len() == 0 {
        0
    } else {
        sum_quantity(s.drop_last()) + s.last().quantity
    }
}

/// Sum of the quantities of complete lots.
pub open spec fn complete_quantity(s: Seq<Purchase>) -> int
    decreases s.len(),
{
    if s.len() == 0 {
        0
    } else {
        complete_quantity(s.drop_last()) + if s.last().is_complete() {
            s.last().quantity as int
        } else {
            0
        }
    }
}

/// Whether some lot is complete.
pub open spec fn has_complete(s: Seq<Purchase>) -> bool
    decreases s.len(),
{
    s.len() > 0 && (has_complete(s.drop_last()) || s.last().is_complete())
}

/// Sum of the costs of complete lots.
pub open spec fn invested_sum(s: Seq<Purchase>) -> int
    decreases s.len(),
{
    if s.len() == 0 {
        0
    } else {
        invested_sum(s.drop_last()) + if s.last().is_complete() {
            s.last().cost()
        } else {
            0
        }
    }
}

pub open spec fn lots_wf(s: Seq<Purchase>) -> bool {
    &&& s.len() <= MAX_LOTS
    &&& forall|i: int| 0 <= i < s.len() ==> (#[trigger] s[i]).wf()
}

pub proof fn lemma_lot_cost_bound(p: Purchase)
    requires
        p.wf(),
    ensures
        -max_lot_cost() <= p.cost() <= max_lot_cost(),
{
    let q = p.quantity as int;
    let pr = or_zero(p.price);
    let m = MAX_FIELD as int;
    assert(-(m * m) <= q * pr <= m * m) by (nonlinear_arith)
        requires -m <= q <= m, -m <= pr <= m, m > 0;
    lemma_div_bounds(q * pr, m * m);
}

/// `-(b / S) - 1 <= a / S <= b / S` whenever `|a| <= b`.
pub proof fn lemma_div_bounds(a: int, b: int)
    requires
        -b <= a <= b,
    ensures
        -(b / (SCALE as int)) - 1 <= a / (SCALE as int) <= b / (SCALE as int),
{
    let s = SCALE as int;
    vstd::arithmetic::div_mod::lemma_div_is_ordered(a, b, s);
    vstd::arithmetic::div_mod::lemma_div_is_ordered(-b, a, s);
    vstd::arithmetic::div_mod::lemma_fundamental_div_mod(b, s);
    vstd::arithmetic::div_mod::lemma_fundamental_div_mod(-b, s);
    assert((-b) / s >= -(b / s) - 1) by (nonlinear_arith)
        requires b == s * (b / s) + b % s, -b == s * ((-b) / s) + (-b) % s,
            0 <= b % s < s, 0 <= (-b) % s < s, s > 0;
}

pub proof fn lemma_sums_bound(s: Seq<Purchase>)
    requires
        forall|i: int| 0 <= i < s.len() ==> (#[trigger] s[i]).wf(),
    ensures
        -(s.len() * MAX_FIELD) <= sum_quantity(s) <= s.len() * MAX_FIELD,
        -(s.len() * MAX_FIELD) <= complete_quantity(s) <= s.len() * MAX_FIELD,
        -(s.len() * max_lot_cost()) <= invested_sum(s) <= s.len() * max_lot_cost(),
    decreases s.len(),
{
    if s.len() > 0 {
        let t = s.drop_last();
        assert(forall|i: int| 0 <= i < t.len() ==> t[i] == s[i]);
        lemma_sums_bound(t);
        assert(s.last() == s[s.len() - 1]);
        lemma_lot_cost_bound(s.last());
        let n = t.len() as int;
        let m = max_lot_cost();
        assert(s.len() * m == n * m + m) by (nonlinear_arith)
            requires s.len() == n + 1;
    }
}

/// Changing a lot but not its quantity leaves the quantity sum as it was.
pub proof fn lemma_sum_quantity_update(s: Seq<Purchase>, i: int, p: Purchase)
    requires
        0 <= i < s.len(),
        p.quantity == s[i].quantity,
    ensures
        sum_quantity(s.update(i, p)) == sum_quantity(s),
    decreases s.len(),
{
    let u = s.update(i, p);
    if i == s.len() - 1 {
        assert(u.drop_last() =~= s.drop_last());
    } else {
        assert(u.drop_last() =~= s.drop_last().update(i, p));
        lemma_sum_quantity_update(s.drop_last(), i, p);
    }
}

/// Sums of a lot prefix of one more element.
proof fn lemma_prefix_step(s: Seq<Purchase>, i: int)
    requires
        0 <= i < s.len(),
    ensures
        sum_quantity(s.subrange(0, i + 1)) == sum_quantity(s.subrange(0, i)) + s[i].quantity,
        complete_quantity(s.subrange(0, i + 1)) == complete_quantity(s.subrange(0, i)) + if s[i].is_complete() {
            s[i].quantity as int
        } else {
            0
        },
        invested_sum(s.subrange(0, i + 1)) == invested_sum(s.subrange(0, i)) + if s[i].is_complete() {
            s[i].cost()
        } else {
            0
        },
        has_complete(s.subrange(0, i + 1)) == (has_complete(s.subrange(0, i)) || s[i].is_complete()),
{
    assert(s.subrange(0, i + 1).drop_last() =~= s.subrange(0, i));
}

/// Bounds on the sums over any prefix of well-formed lots.
proof fn lemma_prefix_bound(s: Seq<Purchase>, i: int)
    requires
        lots_wf(s),
        0 <= i <= s.len(),
    ensures
        -(MAX_LOTS * MAX_FIELD) <= sum_quantity(s.subrange(0, i)) <= MAX_LOTS * MAX_FIELD,
        -(MAX_LOTS * MAX_FIELD) <= complete_quantity(s.subrange(0, i)) <= MAX_LOTS * MAX_FIELD,
        -(MAX_LOTS * max_lot_cost()) <= invested_sum(s.subrange(0, i)) <= MAX_LOTS * max_lot_cost(),
{
    let t = s.subrange(0, i);
    assert(forall|j: int| 0 <= j < t.len() ==> t[j] == s[j]);
    lemma_sums_bound(t);
    let n = t.len() as int;
    let m = max_lot_cost();
    let f = MAX_FIELD as int;
    assert(n * f <= MAX_LOTS * f && n * m <= MAX_LOTS * m) by (nonlinear_arith)
        requires 0 <= n <= MAX_LOTS, f > 0, m > 0;
}

/// Sum of the quantities of all lots.
pub fn quantity_total(lots: &Vec<Purchase>) -> (r: i128)
    requires
        lots_wf(lots@),
    ensures
        r == sum_quantity(lots@),
{
    let mut acc: i128 = 0;
    let mut i: usize = 0;
    while i < lots.len()
        invariant
            lots_wf(lots@),
            0 <= i <= lots@.len(),
            acc == sum_quantity(lots@.subrange(0, i as int)),
        decreases lots@.len() - i,
    {
        proof {
            lemma_prefix_step(lots@, i as int);
            lemma_prefix_bound(lots@, i as int + 1);
        }
        acc = acc + lots[i].quantity as i128;
        i = i + 1;
    }
    assert(lots@.subrange(0, i as int) =~= lots@);
    acc
}

/// Quantity and cost summed over the complete lots.
pub fn complete_totals(lots: &Vec<Purchase>) -> (r: (i128, i128, bool))
    requires
        lots_wf(lots@),
    ensures
        r.0 == complete_quantity(lots@),
        r.1 == invested_sum(lots@),
        r.2 == has_complete(lots@),
{
    let mut quantity: i128 = 0;
    let mut cost: i128 = 0;
    let mut any = false;
    let mut i: usize = 0;
    while i < lots.len()
        invariant
            lots_wf(lots@),
            0 <= i <= lots@.len(),
            quantity == complete_quantity(lots@.subrange(0, i as int)),
            cost == invested_sum(lots@.subrange(0, i as int)),
            any == has_complete(lots@.subrange(0, i as int)),
        decreases lots@.len() - i,
    {
        proof {
            lemma_prefix_step(lots@, i as int);
            lemma_prefix_bound(lots@, i as int + 1);
        }
        let p = &lots[i];
        match p.price {
            Some(price) => {
                if price > 0 {
                    proof {
                        lemma_lot_cost_bound(*p);
                        let q = p.quantity as int;
                        let f = MAX_FIELD as int;
                        assert(-(f * f) <= q * price <= f * f) by (nonlinear_arith)
                            requires -f <= q <= f, -f <= price <= f, f > 0;
                    }
                    let fees: i64 = match p.fees {
                        Some(f) => f,
                        None => 0,
                    };
                    let lot = floor_div(p.quantity as i128 * price as i128, SCALE as i128) + fees as i128;
                    quantity = quantity + p.quantity as i128;
                    cost = cost + lot;
                    any = true;
                }
            },
            None => {},
        }
        i = i + 1;
    }
    assert(lots@.subrange(0, i as int) =~= lots@);
    (quantity, cost, any)
}

/// Largest magnitude of one position's balance.
pub open spec fn max_balance() -> int {
    (MAX_FIELD as int) * (MAX_FIELD as int) * (MAX_LOTS as int) / (SCALE as int) + MAX_FIELD + 1
}

/// Bounds on a position's effective quantity and balance.
pub proof fn lemma_balance_bound(p: PortfolioPosition)
    requires
        p.wf(),
    ensures
        -(MAX_LOTS * MAX_FIELD) <= p.effective_quantity() <= MAX_LOTS * MAX_FIELD,
        -max_balance() <= p.balance() <= max_balance(),
{
    reveal(PortfolioPosition::balance);
    lemma_prefix_bound(p.purchases@, p.purchases@.len() as int);
    assert(p.purchases@.subrange(0, p.purchases@.len() as int) =~= p.purchases@);
    let f = MAX_FIELD as int;
    let q = p.effective_quantity();
    let sp = p.last_spot as int;
    let b = f * (f * MAX_LOTS);
    assert(-(MAX_LOTS * f) <= q <= MAX_LOTS * f);
    assert(-b <= sp * q <= b) by (nonlinear_arith)
        requires -f <= sp <= f, -(MAX_LOTS * f) <= q <= MAX_LOTS * f, f > 0, b == f * (f * MAX_LOTS);
    lemma_div_bounds(sp * q, b);
    assert(f * f * MAX_LOTS == b) by (nonlinear_arith)
        requires b == f * (f * MAX_LOTS);
}

/// A cash position is worth its amount, whatever its spot, lots or
/// previous close.
pub proof fn lemma_cash_balance(p: PortfolioPosition)
    requires
        p.ticker is None,
    ensures
        p.balance() == p.amount,
{
    reveal(PortfolioPosition::balance);
}

/// With lots, the effective quantity is the sum of the lot quantities,
/// whatever the declared amount.
pub proof fn lemma_lots_override_amount(p: PortfolioPosition, amount: i64)
    requires
        p.purchases@.len() > 0,
    ensures
        p.effective_quantity() == sum_quantity(p.purchases@),
        (PortfolioPosition { amount, ..p }).effective_quantity() == p.effective_quantity(),
{
}

/// One declared holding; a position without a ticker is cash.
#[derive(Debug)]
pub struct PortfolioPosition {
    pub name: Option<String>,
    pub ticker: Option<String>,
    pub asset_class: String,
    pub amount: i64,
    pub last_spot: i64,
    pub purchases: Vec<Purchase>,
    pub previous_close: Option<i64>,
}

impl PortfolioPosition {
    pub open spec fn wf(&self) -> bool {
        &&& in_range(self.amount as int)
        &&& in_range(self.last_spot as int)
        &&& in_range(or_zero(self.previous_close))
        &&& lots_wf(self.purchases@)
    }

    pub open spec fn is_cash(&self) -> bool {
        self.ticker is None
    }

    /// Sum of lot quantities when lots exist, else the declared amount.
    pub open spec fn effective_quantity(&self) -> int {
        if self.purchases@.len() > 0 {
            sum_quantity(self.purchases@)
        } else {
            self.amount as int
        }
    }

    /// Cash is worth its amount; a ticker position its spot times its quantity.
    #[verifier::opaque]
    pub open spec fn balance(&self) -> int {
        if self.is_cash() {
            self.amount as int
        } else {
            mul_fixed(self.last_spot as int, self.effective_quantity())
        }
    }

    /// Cost of the complete lots; none without a complete lot.
    pub open spec fn spec_total_invested(&self) -> Option<int> {
        if has_complete(self.purchases@) {
            Some(invested_sum(self.purchases@))
        } else {
            None
        }
    }

    pub open spec fn spec_average_cost(&self) -> Option<int> {
        if self.purchases@.len() > 0 && complete_quantity(self.purchases@) > 0 {
            Some(div_fixed(invested_sum(self.purchases@), complete_quantity(self.purchases@)))
        } else {
            None
        }
    }

    pub open spec fn spec_pnl(&self) -> Option<int> {
        match self.spec_total_invested() {
            Some(inv) => Some(self.balance() - inv),
            None => None,
        }
    }

    pub open spec fn spec_historic_variation(&self) -> Option<int> {
        match self.spec_total_invested() {
            Some(inv) => if inv > 0 {
                Some(percent_of(self.balance() - inv, inv))
            } else {
                None
            },
            None => None,
        }
    }

    pub open spec fn spec_daily_variation(&self) -> Option<int> {
        match self.previous_close {
            Some(prev) => if prev > 0 {
                Some(percent_of(self.last_spot - prev, prev as int))
            } else {
                None
            },
            None => None,
        }
    }

    /// Explicit name, else the ticker, else `Unknown`.
    pub open spec fn display_name(&self) -> Seq<char> {
        match self.name {
            Some(n) => n@,
            None => match self.ticker {
                Some(t) => t@,
                None => "Unknown"@,
            },
        }
    }

    /// A position as declared: no price resolved yet.
    pub fn new(
        name: Option<String>,
        ticker: Option<String>,
        asset_class: String,
        amount: i64,
        purchases: Vec<Purchase>,
    ) -> (r: PortfolioPosition)
        ensures
            r.name == name,
            r.ticker == ticker,
            r.asset_class == asset_class,
            r.amount == amount,
            r.last_spot == 0,
            r.purchases@ == purchases@,
            r.previous_close is None,
    {
        PortfolioPosition {
            name,
            ticker,
            asset_class,
            amount,
            last_spot: 0,
            purchases,
            previous_close: None,
        }
    }

    pub fn update_price(&mut self, last_spot: i64)
        ensures
            *final(self) == (PortfolioPosition { last_spot, ..*old(self) }),
    {
        self.last_spot = last_spot;
    }

    pub fn get_name(&self) -> (r: &str)
        ensures
            r@ == self.display_name(),
    {
        match &self.name {
            Some(n) => n.as_str(),
            None => match &self.ticker {
                Some(t) => t.as_str(),
                None => "Unknown",
            },
        }
    }

    pub fn get_asset_class(&self) -> (r: &str)
        ensures
            r@ == self.asset_class@,
    {
        self.asset_class.as_str()
    }

    pub fn get_ticker(&self) -> (r: Option<&str>)
        ensures
            r is Some <==> self.ticker is Some,
            r is Some ==> r.unwrap()@ == self.ticker.unwrap()@,
    {
        match &self.ticker {
            Some(t) => Some(t.as_str()),
            None => None,
        }
    }

    pub fn get_name_option(&self) -> (r: Option<&str>)
        ensures
            r is Some <==> self.name is Some,
            r is Some ==> r.unwrap()@ == self.name.unwrap()@,
    {
        match &self.name {
            Some(n) => Some(n.as_str()),
            None => None,
        }
    }

    pub fn set_amount(&mut self, amount: i64)
        ensures
            *final(self) == (PortfolioPosition { amount, ..*old(self) }),
    {
        self.amount = amount;
    }

    pub fn market_price(&self) -> (r: i64)
        ensures
            r == self.last_spot,
    {
        self.last_spot
    }

    /// Effective quantity: the lots' total when lots exist, else the amount.
    pub fn get_amount(&self) -> (r: i128)
        requires
            self.wf(),
        ensures
            r == self.effective_quantity(),
            self.purchases@.len() > 0 ==> r == sum_quantity(self.purchases@),
    {
        if self.purchases.len() > 0 {
            quantity_total(&self.purchases)
        } else {
            self.amount as i128
        }
    }

    pub fn get_balance(&self) -> (r: i128)
        requires
            self.wf(),
        ensures
            r == self.balance(),
            self.is_cash() ==> r == self.amount,
    {
        reveal(PortfolioPosition::balance);
        match &self.ticker {
            None => self.amount as i128,
            Some(_) => {
                let q = self.get_amount();
                proof {
                    lemma_balance_bound(*self);
                    let f = MAX_FIELD as int;
                    assert(-(f * (f * MAX_LOTS)) <= self.last_spot * q <= f * (f * MAX_LOTS)) by (nonlinear_arith)
                        requires -f <= self.last_spot <= f, -(MAX_LOTS * f) <= q <= MAX_LOTS * f, f > 0;
                }
                floor_div(self.last_spot as i128 * q, SCALE as i128)
            },
        }
    }

    pub fn market_value(&self) -> (r: i128)
        requires
            self.wf(),
        ensures
            r == self.balance(),
    {
        self.get_balance()
    }

    /// `sum(quantity * price + fees) / sum(quantity)` over the complete lots.
    pub fn average_cost(&self) -> (r: Option<i128>)
        requires
            self.wf(),
        ensures
            r matches Some(v) ==> self.spec_average_cost() == Some(v as int),
            r is None <==> self.spec_average_cost() is None,
    {
        if self.purchases.len() == 0 {
            return None;
        }
        let (quantity, cost, _) = complete_totals(&self.purchases);
        proof {
            lemma_prefix_bound(self.purchases@, self.purchases@.len() as int);
            assert(self.purchases@.subrange(0, self.purchases@.len() as int) =~= self.purchases@);
        }
        if quantity > 0 {
            Some(floor_div(cost * SCALE as i128, quantity))
        } else {
            None
        }
    }

    /// `sum(quantity * price + fees)` over the lots with a known price above
    /// zero; none when there is no such lot.
    pub fn total_invested(&self) -> (r: Option<i128>)
        requires
            self.wf(),
        ensures
            r matches Some(v) ==> self.spec_total_invested() == Some(v as int),
            r is None <==> self.spec_total_invested() is None,
    {
        if self.purchases.len() == 0 {
            return None;
        }
        let (_, cost, any) = complete_totals(&self.purchases);
        if any {
            Some(cost)
        } else {
            None
        }
    }

    /// Balance minus invested capital.
    pub fn pnl(&self) -> (r: Option<i128>)
        requires
            self.wf(),
        ensures
            r matches Some(v) ==> self.spec_pnl() == Some(v as int),
            r is None <==> self.spec_pnl() is None,
    {
        let invested = match self.total_invested() {
            Some(v) => v,
            None => return None,
        };
        proof {
            lemma_balance_bound(*self);
            lemma_prefix_bound(self.purchases@, self.purchases@.len() as int);
            assert(self.purchases@.subrange(0, self.purchases@.len() as int) =~= self.purchases@);
        }
        Some(self.market_value() - invested)
    }

    /// Profit or loss as a percentage of invested capital, when that is
    /// positive.
    pub fn historic_variation_percent(&self) -> (r: Option<i128>)
        requires
            self.wf(),
        ensures
            r matches Some(v) ==> self.spec_historic_variation() == Some(v as int),
            r is None <==> self.spec_historic_variation() is None,
    {
        let invested = match self.total_invested() {
            Some(v) => v,
            None => return None,
        };
        proof {
            lemma_balance_bound(*self);
            lemma_prefix_bound(self.purchases@, self.purchases@.len() as int);
            assert(self.purchases@.subrange(0, self.purchases@.len() as int) =~= self.purchases@);
        }
        if invested <= 0 {
            return None;
        }
        let gain = self.market_value() - invested;
        Some(floor_div(gain * 100 * SCALE as i128, invested))
    }

    /// Change of the spot against the previous close, in percent.
    pub fn daily_variation_percent(&self) -> (r: Option<i128>)
        requires
            self.wf(),
        ensures
            r matches Some(v) ==> self.spec_daily_variation() == Some(v as int),
            r is None <==> self.spec_daily_variation() is None,
    {
        let prev = match self.previous_close {
            Some(p) => p,
            None => return None,
        };
        if prev <= 0 {
            return None;
        }
        assert(or_zero(self.previous_close) == prev);
        let change = self.last_spot as i128 - prev as i128;
        assert(-(2 * MAX_FIELD) * 100 * SCALE <= change * 100 * SCALE <= (2 * MAX_FIELD) * 100 * SCALE) by (nonlinear_arith)
            requires -(2 * MAX_FIELD) <= change <= 2 * MAX_FIELD;
        Some(floor_div(change * 100 * SCALE as i128, prev as i128))
    }

    pub fn get_purchases(&self) -> (r: &[Purchase])
        ensures
            r@ == self.purchases@,
    {
        self.purchases.as_slice()
    }

    pub fn get_previous_close(&self) -> (r: Option<i64>)
        ensures
            r == self.previous_close,
    {
        self.previous_close
    }
}

} // verus!
