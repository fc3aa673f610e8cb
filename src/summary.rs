//! Portfolio-wide figures shown above the balances: totals, cash against
//! securities, invested capital, profit and loss, and the day's change.

use vstd::prelude::*;
use crate::fixed::{SCALE, MAX_FIELD, mul_fixed, percent_of, floor_div};
use crate::portfolio::{Portfolio, MAX_POSITIONS, total_of, max_total};
use crate::position::{PortfolioPosition, MAX_LOTS, max_balance, max_lot_cost, lemma_balance_bound};
use crate::text::{to_lowercase, lowered, same_text};

verus! {

/// A position held as cash: no ticker and the asset class `cash` in any
/// case.
pub open spec fn counts_as_cash(p: PortfolioPosition) -> bool {
    p.ticker is None && lowered(p.asset_class@) == "cash"@
}

/// Value a position had at the previous close: the previous close times the
/// effective quantity when the day's variation is known, else its value.
pub open spec fn previous_value(p: PortfolioPosition) -> int {
    if p.spec_daily_variation() is Some {
        mul_fixed(p.previous_close.unwrap() as int, p.effective_quantity())
    } else {
        p.balance()
    }
}

/// Sums over positions: (cash, invested, pnl, previous value).
pub open spec fn sums_of(ps: Seq<PortfolioPosition>) -> (int, int, int, int)
    decreases ps.len(),
{
    if ps.len() == 0 {
        (0, 0, 0, 0)
    } else {
        let (c, i, p, v) = sums_of(ps.drop_last());
        let q = ps.last();
        (
            c + if counts_as_cash(q) { q.balance() } else { 0 },
            i + match q.spec_total_invested() { Some(x) => x, None => 0 },
            p + match q.spec_pnl() { Some(x) => x, None => 0 },
            v + previous_value(q),
        )
    }
}

/// Percentage change from `base` to `value`; zero without a positive base.
pub open spec fn change_percent(value: int, base: int) -> int {
    if base > 0 {
        percent_of(value - base, base)
    } else {
        0
    }
}

/// The figures above the balances.
#[derive(Debug, Clone, Copy, PartialEq, Eq, Structural)]
pub struct Overview {
    pub total_value: i128,
    pub securities_value: i128,
    pub cash_value: i128,
    pub total_invested: i128,
    pub total_pnl: i128,
    pub hist_percent: i128,
    pub day_pnl: i128,
    pub day_percent: i128,
}

/// Whether a position is held as cash.
pub fn is_cash_position(p: &PortfolioPosition) -> (r: bool)
    ensures
        r == counts_as_cash(*p),
{
    p.ticker.is_none() && same_text(to_lowercase(p.asset_class.as_str()).as_str(), "cash")
}

proof fn lemma_previous_value_bound(p: PortfolioPosition)
    requires
        p.wf(),
    ensures
        -max_balance() <= previous_value(p) <= max_balance(),
{
    lemma_balance_bound(p);
    if p.spec_daily_variation() is Some {
        reveal(PortfolioPosition::balance);
        let f = MAX_FIELD as int;
        let q = p.effective_quantity();
        let pc = p.previous_close.unwrap() as int;
        assert(crate::position::or_zero(p.previous_close) == pc);
        let b = f * (f * MAX_LOTS);
        assert(-b <= pc * q <= b) by (nonlinear_arith)
            requires -f <= pc <= f, -(MAX_LOTS * f) <= q <= MAX_LOTS * f, f > 0, b == f * (f * MAX_LOTS);
        crate::position::lemma_div_bounds(pc * q, b);
        assert(f * f * MAX_LOTS == b) by (nonlinear_arith)
            requires b == f * (f * MAX_LOTS);
    }
}

/// Largest magnitude of one position's invested capital.
pub open spec fn max_invested() -> int {
    MAX_LOTS * max_lot_cost()
}

proof fn lemma_invested_bound(p: PortfolioPosition)
    requires
        p.wf(),
    ensures
        p.spec_total_invested() matches Some(x) ==> -max_invested() <= x <= max_invested(),
{
    crate::position::lemma_sums_bound(p.purchases@);
    let n = p.purchases@.len() as int;
    let m = max_lot_cost();
    assert(n * m <= MAX_LOTS * m) by (nonlinear_arith)
        requires 0 <= n <= MAX_LOTS, m >= 0;
}

proof fn lemma_max_values()
    ensures
        max_balance() == 1_000_000_000_001_000_000_000_000_001,
        max_invested() == 1_000_000_001_000_000_000_000_000_000,
{
    assert(max_lot_cost() == 1_000_000_001_000_000_000_000_000);
}

/// Percentage change from `base` to `value`: none without a positive base,
/// or when the change in hundredths of a percent leaves the arithmetic.
pub fn percent_change(value: i128, base: i128) -> (r: Option<i128>)
    ensures
        r matches Some(v) ==> base > 0 && v == percent_of(value - base, base as int),
        r is Some <==> base > 0 && -i128::MAX <= (value - base) * 100 * SCALE <= i128::MAX,
{
    if base <= 0 {
        return None;
    }
    let diff = match value.checked_sub(base) {
        Some(d) => d,
        None => {
            assert(value - base > i128::MAX || value - base < i128::MIN);
            assert((value - base) * 100 * SCALE > i128::MAX || (value - base) * 100 * SCALE < -i128::MAX) by (nonlinear_arith)
                requires value - base > i128::MAX || value - base < i128::MIN;
            return None;
        },
    };
    assert((value - base) * 100 * SCALE == diff * (100 * SCALE)) by (nonlinear_arith)
        requires diff == value - base;
    let scaled = match diff.checked_mul(100 * SCALE as i128) {
        Some(x) => x,
        None => return None,
    };
    if scaled == i128::MIN {
        return None;
    }
    Some(floor_div(scaled, base))
}

impl Portfolio {
    /// Totals of the portfolio: value, split into cash and securities,
    /// invested capital and profit over the positions where they are known,
    /// their ratio, and the change against the previous close.
    pub fn overview(&self) -> (r: Overview)
        requires
            self.wf(),
        ensures
            ({
                let ps = self.positions@;
                let (cash, invested, pnl, prev) = sums_of(ps);
                let total = total_of(ps);
                &&& r.total_value == total
                &&& r.cash_value == cash
                &&& r.securities_value == total - cash
                &&& r.total_invested == invested
                &&& r.total_pnl == pnl
                &&& r.hist_percent == change_percent(total, invested)
                &&& r.day_pnl == total - prev
                &&& r.day_percent == change_percent(total, prev)
            }),
    {
        let ghost ps = self.positions@;
        let total = self.get_total_value();
        let mut cash: i128 = 0;
        let mut invested: i128 = 0;
        let mut pnl: i128 = 0;
        let mut prev: i128 = 0;
        let mut i: usize = 0;
        while i < self.positions.len()
            invariant
                self.wf(),
                ps == self.positions@,
                0 <= i <= ps.len(),
                (cash as int, invested as int, pnl as int, prev as int) == sums_of(ps.subrange(0, i as int)),
                -(i * max_balance()) <= cash <= i * max_balance(),
                -(i * max_invested()) <= invested <= i * max_invested(),
                -(i * (max_balance() + max_invested())) <= pnl <= i * (max_balance() + max_invested()),
                -(i * max_balance()) <= prev <= i * max_balance(),
            decreases ps.len() - i,
        {
            let p = &self.positions[i];
            proof {
                assert(ps.subrange(0, i as int + 1).drop_last() =~= ps.subrange(0, i as int));
                lemma_balance_bound(*p);
                lemma_previous_value_bound(*p);
                lemma_invested_bound(*p);
                lemma_max_values();
                let n = i as int;
                let mb = max_balance();
                let mi = max_invested();
                assert(n * mb + mb == (n + 1) * mb) by (nonlinear_arith);
                assert(n * mi + mi == (n + 1) * mi) by (nonlinear_arith);
                assert(n * (mb + mi) + (mb + mi) == (n + 1) * (mb + mi)) by (nonlinear_arith);
                assert((n + 1) * (mb + mi) <= MAX_POSITIONS * (mb + mi)) by (nonlinear_arith)
                    requires n + 1 <= MAX_POSITIONS, mb + mi >= 0;
                assert(n * mb >= 0 && n * mi >= 0) by (nonlinear_arith) requires n >= 0, mb >= 0, mi >= 0;
            }
            let value = p.get_balance();
            if is_cash_position(p) {
                cash = cash + value;
            }
            match p.total_invested() {
                Some(x) => {
                    invested = invested + x;
                },
                None => {},
            }
            match p.pnl() {
                Some(x) => {
                    pnl = pnl + x;
                },
                None => {},
            }
            let before = match p.daily_variation_percent() {
                Some(_) => {
                    let pc = match p.previous_close {
                        Some(v) => v,
                        None => 0,
                    };
                    let q = p.get_amount();
                    proof {
                        lemma_previous_value_bound(*p);
                        let f = MAX_FIELD as int;
                        assert(crate::position::or_zero(p.previous_close) == pc);
                        assert(-(f * (f * MAX_LOTS)) <= pc * q <= f * (f * MAX_LOTS)) by (nonlinear_arith)
                            requires -f <= pc <= f, -(MAX_LOTS * f) <= q <= MAX_LOTS * f, f > 0;
                    }
                    floor_div(pc as i128 * q, SCALE as i128)
                },
                None => value,
            };
            prev = prev + before;
            i = i + 1;
        }
        assert(ps.subrange(0, i as int) =~= ps);
        proof {
            lemma_max_values();
            let n = i as int;
            let mi = max_invested();
            let mb = max_balance();
            assert(n * mi <= 500 * mi && n * mb <= 500 * mb) by (nonlinear_arith)
                requires 0 <= n <= 500, mi >= 0, mb >= 0;
            assert(max_total() == 500 * mb);
            assert(-600_000_000_000_000_000_000_000_000_000 <= total <= 600_000_000_000_000_000_000_000_000_000);
            assert(-600_000_000_000_000_000_000_000_000_000 <= invested <= 600_000_000_000_000_000_000_000_000_000);
            assert(-600_000_000_000_000_000_000_000_000_000 <= prev <= 600_000_000_000_000_000_000_000_000_000);
        }
        let hundred: i128 = 100 * SCALE as i128;
        assert(hundred == 100_000_000);
        let hist_percent = if invested > 0 {
            floor_div((total - invested) * hundred, invested)
        } else {
            0
        };
        let day_percent = if prev > 0 {
            floor_div((total - prev) * hundred, prev)
        } else {
            0
        };
        Overview {
            total_value: total,
            securities_value: total - cash,
            cash_value: cash,
            total_invested: invested,
            total_pnl: pnl,
            hist_percent,
            day_pnl: total - prev,
            day_percent,
        }
    }
}

/// A position's move today.
#[derive(Debug)]
pub struct Mover {
    pub name: String,
    /// Daily variation, in percent.
    pub percent: i128,
    /// Value now less value at the previous close.
    pub day_pnl: i128,
}

/// Movers of the positions whose daily variation is known, in order.
pub open spec fn movers_of(ps: Seq<PortfolioPosition>) -> Seq<(Seq<char>, int, int)>
    decreases ps.len(),
{
    if ps.len() == 0 {
        Seq::empty()
    } else {
        let earlier = movers_of(ps.drop_last());
        let p = ps.last();
        match p.spec_daily_variation() {
            Some(pct) => earlier.push((p.display_name(), pct, p.balance() - previous_value(p))),
            None => earlier,
        }
    }
}

pub open spec fn movers_view(s: Seq<Mover>) -> Seq<(Seq<char>, int, int)> {
    s.map_values(|m: Mover| (m.name@, m.percent as int, m.day_pnl as int))
}

/// Whether `a` ranks before `b`: higher percent first when `rising`, lower
/// first otherwise.
pub open spec fn ranks_before(a: Mover, b: Mover, rising: bool) -> bool {
    if rising {
        a.percent >= b.percent
    } else {
        a.percent <= b.percent
    }
}

impl Portfolio {
    /// The day's movers: each position with a known daily variation, its
    /// variation and its change in value since the previous close.
    pub fn day_movers(&self) -> (r: Vec<Mover>)
        requires
            self.wf(),
        ensures
            movers_view(r@) == movers_of(self.positions@),
    {
        let ghost ps = self.positions@;
        let mut out: Vec<Mover> = Vec::new();
        let mut i: usize = 0;
        while i < self.positions.len()
            invariant
                self.wf(),
                ps == self.positions@,
                0 <= i <= ps.len(),
                movers_view(out@) == movers_of(ps.subrange(0, i as int)),
            decreases ps.len() - i,
        {
            let p = &self.positions[i];
            proof {
                assert(ps.subrange(0, i as int + 1).drop_last() =~= ps.subrange(0, i as int));
                lemma_balance_bound(*p);
                lemma_previous_value_bound(*p);
            }
            match p.daily_variation_percent() {
                Some(pct) => {
                    let value = p.get_balance();
                    let pc = match p.previous_close {
                        Some(v) => v,
                        None => 0,
                    };
                    let q = p.get_amount();
                    proof {
                        let f = MAX_FIELD as int;
                        assert(crate::position::or_zero(p.previous_close) == pc);
                        assert(-(f * (f * MAX_LOTS)) <= pc * q <= f * (f * MAX_LOTS)) by (nonlinear_arith)
                            requires -f <= pc <= f, -(MAX_LOTS * f) <= q <= MAX_LOTS * f, f > 0;
                        lemma_max_values();
                    }
                    let before = floor_div(pc as i128 * q, SCALE as i128);
                    let ghost prev_out = out@;
                    out.push(Mover { name: p.get_name().to_owned(), percent: pct, day_pnl: value - before });
                    assert(movers_view(out@) =~= movers_view(prev_out).push(
                        (p.display_name(), pct as int, value - before)));
                },
                None => {},
            }
            i = i + 1;
        }
        assert(ps.subrange(0, i as int) =~= ps);
        out
    }
}

fn ranks(a: &Mover, b: &Mover, rising: bool) -> (r: bool)
    ensures
        r == ranks_before(*a, *b, rising),
{
    if rising {
        a.percent >= b.percent
    } else {
        a.percent <= b.percent
    }
}

/// Orders movers by daily variation, highest first when `rising`, lowest
/// first otherwise; movers that tie keep their order.
pub fn rank_movers(movers: &mut Vec<Mover>, rising: bool)
    ensures
        final(movers)@.to_multiset() == old(movers)@.to_multiset(),
        forall|a: int, b: int| 0 <= a < b < final(movers)@.len() ==>
            ranks_before(#[trigger] final(movers)@[a], #[trigger] final(movers)@[b], rising),
{
    let n = movers.len();
    if n == 0 {
        return;
    }
    let mut i: usize = 1;
    while i < n
        invariant
            1 <= i <= n,
            n == movers@.len(),
            movers@.to_multiset() == old(movers)@.to_multiset(),
            forall|a: int, b: int| 0 <= a < b < i ==> ranks_before(#[trigger] movers@[a], #[trigger] movers@[b], rising),
        decreases n - i,
    {
        let ghost before = movers@;
        let x = movers.remove(i);
        assert(x == before[i as int]);
        assert(movers@ =~= before.remove(i as int));
        let mut j: usize = 0;
        while j < i && ranks(&movers[j], &x, rising)
            invariant
                0 <= j <= i,
                i < n,
                before.len() == n,
                movers@ == before.remove(i as int),
                forall|a: int| 0 <= a < j ==> ranks_before(#[trigger] movers@[a], x, rising),
            decreases i - j,
        {
            j = j + 1;
        }
        let ghost mid = movers@;
        proof {
            assert(forall|k: int| 0 <= k < i ==> mid[k] == before[k]);
            vstd::seq_lib::to_multiset_remove(before, i as int);
        }
        movers.insert(j, x);
        proof {
            let v = movers@;
            vstd::seq_lib::to_multiset_insert(mid, j as int, x);
            assert(v == mid.insert(j as int, x));
            broadcast use vstd::seq_lib::group_to_multiset_ensures;
            assert(before.contains(x));
            assert(v.to_multiset() =~= before.to_multiset());
            assert forall|a: int, b: int| 0 <= a < b < i + 1 implies ranks_before(#[trigger] v[a], #[trigger] v[b], rising) by {
                if b < j {
                    assert(v[a] == before[a] && v[b] == before[b]);
                } else if b == j {
                    assert(v[a] == mid[a]);
                } else if a == j {
                    assert(v[b] == mid[b - 1]);
                    assert(mid[b - 1] == before[b - 1]);
                    if j < i {
                        assert(!ranks_before(mid[j as int], x, rising));
                        assert(mid[j as int] == before[j as int]);
                        if j as int != b - 1 {
                            assert(ranks_before(before[j as int], before[b - 1], rising));
                        }
                    }
                } else if a < j {
                    assert(v[a] == before[a]);
                    assert(v[b] == before[b - 1]);
                } else {
                    assert(v[a] == before[a - 1]);
                    assert(v[b] == before[b - 1]);
                }
            }
        }
        i = i + 1;
    }
}

/// Sum of the balances of the ticker positions.
pub open spec fn ticker_total(ps: Seq<PortfolioPosition>) -> int
    decreases ps.len(),
{
    if ps.len() == 0 {
        0
    } else {
        ticker_total(ps.drop_last()) + if ps.last().ticker is Some {
            ps.last().balance()
        } else {
            0
        }
    }
}

/// `percent_change` as a specification: none without a positive base or
/// when the change leaves the arithmetic.
pub open spec fn change_of(value: int, base: int) -> Option<int> {
    if base > 0 && -i128::MAX <= (value - base) * 100 * SCALE <= i128::MAX {
        Some(percent_of(value - base, base))
    } else {
        None
    }
}

/// A percentage held in the arithmetic's range.
pub open spec fn narrowed(o: Option<int>) -> Option<i128> {
    match o {
        Some(v) => Some(v as i128),
        None => None,
    }
}

impl Portfolio {
    /// Value of the ticker positions, cash left out.
    pub fn securities_balance(&self) -> (r: i128)
        requires
            self.wf(),
        ensures
            r == ticker_total(self.positions@),
    {
        let ghost ps = self.positions@;
        let mut sum: i128 = 0;
        let mut i: usize = 0;
        while i < self.positions.len()
            invariant
                self.wf(),
                ps == self.positions@,
                0 <= i <= ps.len(),
                sum == ticker_total(ps.subrange(0, i as int)),
                -(i * max_balance()) <= sum <= i * max_balance(),
            decreases ps.len() - i,
        {
            let p = &self.positions[i];
            proof {
                assert(ps.subrange(0, i as int + 1).drop_last() =~= ps.subrange(0, i as int));
                lemma_balance_bound(*p);
                lemma_max_values();
                let n = i as int;
                let mb = max_balance();
                assert(n * mb + mb == (n + 1) * mb) by (nonlinear_arith);
                assert((n + 1) * mb <= MAX_POSITIONS * mb) by (nonlinear_arith)
                    requires n + 1 <= MAX_POSITIONS, mb >= 0;
                assert(n * mb >= 0) by (nonlinear_arith) requires n >= 0, mb >= 0;
            }
            if p.ticker.is_some() {
                sum = sum + p.get_balance();
            }
            i = i + 1;
        }
        assert(ps.subrange(0, i as int) =~= ps);
        sum
    }

    /// Changes of the last recorded total against the value at the start of
    /// the year, at the start of the month, and against the current value of
    /// the ticker positions.
    pub fn get_performance_data(&self, last_recorded: i128, year_start: i128, month_start: i128) -> (r: (Option<i128>, Option<i128>, Option<i128>))
        requires
            self.wf(),
        ensures
            r.0 == narrowed(change_of(last_recorded as int, year_start as int)),
            r.1 == narrowed(change_of(last_recorded as int, month_start as int)),
            r.2 == narrowed(change_of(last_recorded as int, ticker_total(self.positions@))),
    {
        let current = self.securities_balance();
        (
            change_or_none(last_recorded, year_start),
            change_or_none(last_recorded, month_start),
            change_or_none(last_recorded, current),
        )
    }
}

fn change_or_none(value: i128, base: i128) -> (r: Option<i128>)
    ensures
        r == narrowed(change_of(value as int, base as int)),
{
    let c = percent_change(value, base);
    proof {
        if base > 0 && -i128::MAX <= (value - base) * 100 * SCALE <= i128::MAX {
            assert(c is Some);
        }
    }
    c
}

} // verus!
