//! Bookkeeping of a refresh cycle: gathering resolved positions in declared
//! order with the cycle's connectivity, and the weekly value series.

use vstd::prelude::*;
use crate::dates::{DAY_SECONDS, parse_purchase_date, purchase_date_of};
use crate::fixed::{SCALE, MAX_FIELD, mul_fixed, floor_div};
use crate::portfolio::{Portfolio, MAX_POSITIONS, total_of};
use crate::position::{PortfolioPosition, MAX_LOTS, lemma_balance_bound};
use crate::quote::{Quote, ProviderError};

verus! {

/// How many of a cycle's resolutions reached the provider.
#[derive(Clone, Copy, PartialEq, Eq, Structural, Debug)]
pub enum NetworkStatus {
    Connected,
    Disconnected,
    Partial,
}

/// Connected without failures, disconnected when failures left no
/// success, partial otherwise.
pub open spec fn status_of(successes: nat, failures: nat) -> NetworkStatus {
    if failures == 0 {
        NetworkStatus::Connected
    } else if successes == 0 {
        NetworkStatus::Disconnected
    } else {
        NetworkStatus::Partial
    }
}

/// Connectivity of a cycle from its success and failure counts.
pub fn network_status(successes: usize, failures: usize) -> (r: NetworkStatus)
    ensures
        r == status_of(successes as nat, failures as nat),
        r == NetworkStatus::Connected <==> failures == 0,
        r == NetworkStatus::Disconnected <==> failures > 0 && successes == 0,
        r == NetworkStatus::Partial <==> failures > 0 && successes > 0,
{
    if failures == 0 {
        NetworkStatus::Connected
    } else if successes == 0 {
        NetworkStatus::Disconnected
    } else {
        NetworkStatus::Partial
    }
}

/// The resolved positions, in declared order.
pub open spec fn resolved_positions(rs: Seq<Result<PortfolioPosition, ProviderError>>) -> Seq<PortfolioPosition>
    decreases rs.len(),
{
    if rs.len() == 0 {
        Seq::empty()
    } else {
        let earlier = resolved_positions(rs.drop_last());
        match rs.last() {
            Ok(p) => earlier.push(p),
            Err(_) => earlier,
        }
    }
}

/// Number of failed resolutions.
pub open spec fn failure_count(rs: Seq<Result<PortfolioPosition, ProviderError>>) -> nat
    decreases rs.len(),
{
    if rs.len() == 0 {
        0
    } else {
        failure_count(rs.drop_last()) + if rs.last() is Err {
            1nat
        } else {
            0nat
        }
    }
}

proof fn lemma_counts(rs: Seq<Result<PortfolioPosition, ProviderError>>)
    ensures
        resolved_positions(rs).len() + failure_count(rs) == rs.len(),
    decreases rs.len(),
{
    if rs.len() > 0 {
        lemma_counts(rs.drop_last());
    }
}

/// Gathers a cycle's resolutions, given in declared order: the resolved
/// positions in that order, and the cycle's connectivity.
pub fn collect_resolutions(results: Vec<Result<PortfolioPosition, ProviderError>>) -> (r: (Portfolio, NetworkStatus))
    requires
        results@.len() <= MAX_POSITIONS,
        forall|i: int| 0 <= i < results@.len() ==> ((#[trigger] results@[i]) matches Ok(p) ==> p.wf()),
    ensures
        r.0.wf(),
        r.0.positions@ == resolved_positions(results@),
        r.1 == status_of(resolved_positions(results@).len(), failure_count(results@)),
{
    let ghost rs = results@;
    let mut portfolio = Portfolio::new();
    let mut failures: usize = 0;
    let mut rest = results;
    let ghost n = rs.len();
    let mut i: usize = 0;
    while rest.len() > 0
        invariant
            0 <= i <= n,
            n == rs.len(),
            rs.len() <= MAX_POSITIONS,
            forall|j: int| 0 <= j < rs.len() ==> ((#[trigger] rs[j]) matches Ok(p) ==> p.wf()),
            rest@.len() == n - i,
            rest@ == rs.subrange(i as int, n as int),
            portfolio.wf(),
            portfolio.positions@ == resolved_positions(rs.subrange(0, i as int)),
            failures == failure_count(rs.subrange(0, i as int)),
        decreases rest@.len(),
    {
        let item = rest.remove(0);
        proof {
            assert(item == rs[i as int]);
            assert(rs.subrange(0, i as int + 1).drop_last() =~= rs.subrange(0, i as int));
            lemma_counts(rs.subrange(0, i as int));
        }
        match item {
            Ok(p) => {
                portfolio.add_position(p);
            },
            Err(_) => {
                failures = failures + 1;
            },
        }
        i = i + 1;
    }
    assert(rs.subrange(0, i as int) =~= rs);
    proof {
        lemma_counts(rs);
    }
    let successes = portfolio.positions.len();
    let status = network_status(successes, failures);
    (portfolio, status)
}

/// Most points of the weekly series.
pub const MAX_WEEKS: usize = 78;

/// Seconds in one week.
pub const WEEK_SECONDS: i64 = 604_800;

/// The earlier of two optional days.
pub open spec fn earlier_of(a: Option<i64>, b: Option<i64>) -> Option<i64> {
    match (a, b) {
        (Some(x), Some(y)) => Some(if x <= y { x } else { y }),
        (Some(x), None) => Some(x),
        (None, _) => b,
    }
}

/// Earliest readable purchase date among lots.
pub open spec fn earliest_lot(lots: Seq<crate::position::Purchase>) -> Option<i64>
    decreases lots.len(),
{
    if lots.len() == 0 {
        None
    } else {
        let d = match lots.last().date {
            Some(s) => purchase_date_of(s@),
            None => None,
        };
        earlier_of(earliest_lot(lots.drop_last()), d)
    }
}

/// Earliest readable purchase date of a portfolio.
pub open spec fn earliest_purchase(ps: Seq<PortfolioPosition>) -> Option<i64>
    decreases ps.len(),
{
    if ps.len() == 0 {
        None
    } else {
        earlier_of(earliest_purchase(ps.drop_last()), earliest_lot(ps.last().purchases@))
    }
}

fn earlier(a: Option<i64>, b: Option<i64>) -> (r: Option<i64>)
    ensures
        r == earlier_of(a, b),
{
    match (a, b) {
        (Some(x), Some(y)) => Some(if x <= y { x } else { y }),
        (Some(x), None) => Some(x),
        (None, _) => b,
    }
}

/// Number of weekly points from `earliest` to `now`: one per started week,
/// at least one, at most `MAX_WEEKS`.
pub open spec fn week_count(earliest: i64, now: i64) -> int {
    if now <= earliest {
        1
    } else {
        let weeks = (now - earliest) / (WEEK_SECONDS as int) + 1;
        if weeks > MAX_WEEKS {
            MAX_WEEKS as int
        } else {
            weeks
        }
    }
}

/// Quote sampled for week `w` of `t`: the quote whose index lies at the same
/// fraction of the series, rounded to the nearest.
pub open spec fn sample_index(w: int, t: int, qlen: int) -> int {
    let d = if t - 1 > 1 {
        t - 1
    } else {
        1
    };
    let idx = (2 * w * (qlen - 1) + d) / (2 * d);
    if idx > qlen - 1 {
        qlen - 1
    } else {
        idx
    }
}

/// Price of a ticker position in week `w` of `t`: sampled from its history,
/// or its current spot when there is no history.
pub open spec fn week_price(p: PortfolioPosition, history: Option<Seq<Quote>>, w: int, t: int) -> int {
    match history {
        Some(q) => if q.len() > 0 {
            q[sample_index(w, t, q.len() as int)].close as int
        } else {
            p.last_spot as int
        },
        None => p.last_spot as int,
    }
}

/// Value of the portfolio in week `w` of `t`: cash amounts plus each ticker
/// position's week price times its effective quantity.
pub open spec fn week_value(ps: Seq<PortfolioPosition>, hs: Seq<Option<Seq<Quote>>>, w: int, t: int) -> int
    decreases ps.len(),
{
    if ps.len() == 0 || hs.len() != ps.len() {
        0
    } else {
        let p = ps.last();
        week_value(ps.drop_last(), hs.drop_last(), w, t) + if p.ticker is None {
            p.effective_quantity()
        } else {
            mul_fixed(week_price(p, hs.last(), w, t), p.effective_quantity())
        }
    }
}

/// Views of the histories.
pub open spec fn histories_view(hs: Seq<Option<Vec<Quote>>>) -> Seq<Option<Seq<Quote>>> {
    hs.map_values(|h: Option<Vec<Quote>>| match h {
        Some(v) => Some(v@),
        None => None,
    })
}

/// Largest magnitude of one position's part of a week's value.
pub open spec fn max_week_part() -> int {
    9_223_372_036_854_775_808_000_000_000_001
}

impl Portfolio {
    /// Earliest readable purchase date over all lots.
    pub fn earliest_purchase_date(&self) -> (r: Option<i64>)
        ensures
            r == earliest_purchase(self.positions@),
    {
        let ghost ps = self.positions@;
        let mut best: Option<i64> = None;
        let mut i: usize = 0;
        while i < self.positions.len()
            invariant
                ps == self.positions@,
                0 <= i <= ps.len(),
                best == earliest_purchase(ps.subrange(0, i as int)),
            decreases ps.len() - i,
        {
            let lots = &self.positions[i].purchases;
            let mut in_lots: Option<i64> = None;
            let mut j: usize = 0;
            while j < lots.len()
                invariant
                    0 <= j <= lots@.len(),
                    in_lots == earliest_lot(lots@.subrange(0, j as int)),
                decreases lots@.len() - j,
            {
                let d = match &lots[j].date {
                    Some(s) => parse_purchase_date(s.as_str()),
                    None => None,
                };
                in_lots = earlier(in_lots, d);
                assert(lots@.subrange(0, j as int + 1).drop_last() =~= lots@.subrange(0, j as int));
                j = j + 1;
            }
            assert(lots@.subrange(0, j as int) =~= lots@);
            best = earlier(best, in_lots);
            assert(ps.subrange(0, i as int + 1).drop_last() =~= ps.subrange(0, i as int));
            i = i + 1;
        }
        assert(ps.subrange(0, i as int) =~= ps);
        best
    }

    /// Value in week `w` of `t` from one history per position (entries of
    /// cash positions are not read).
    fn week_total(&self, histories: &Vec<Option<Vec<Quote>>>, w: usize, t: usize) -> (r: i128)
        requires
            self.wf(),
            histories@.len() == self.positions@.len(),
            1 <= t <= MAX_WEEKS,
            w < t,
        ensures
            r == week_value(self.positions@, histories_view(histories@), w as int, t as int),
    {
        let ghost ps = self.positions@;
        let ghost hs = histories_view(histories@);
        let mut total: i128 = 0;
        let mut i: usize = 0;
        while i < self.positions.len()
            invariant
                self.wf(),
                ps == self.positions@,
                hs == histories_view(histories@),
                histories@.len() == ps.len(),
                1 <= t <= MAX_WEEKS,
                w < t,
                0 <= i <= ps.len(),
                total == week_value(ps.subrange(0, i as int), hs.subrange(0, i as int), w as int, t as int),
                -(i * max_week_part()) <= total <= i * max_week_part(),
            decreases ps.len() - i,
        {
            let p = &self.positions[i];
            let q = p.get_amount();
            proof {
                assert(ps.subrange(0, i as int + 1).drop_last() =~= ps.subrange(0, i as int));
                assert(hs.subrange(0, i as int + 1).drop_last() =~= hs.subrange(0, i as int));
                lemma_balance_bound(*p);
                let n = i as int;
                let m = max_week_part();
                assert(n * m + m == (n + 1) * m) by (nonlinear_arith);
                assert((n + 1) * m <= MAX_POSITIONS * m) by (nonlinear_arith)
                    requires n + 1 <= MAX_POSITIONS, m >= 0;
                assert(n * m >= 0) by (nonlinear_arith) requires n >= 0, m >= 0;
                assert(hs[i as int] == match histories@[i as int] {
                    Some(v) => Some(v@),
                    None => None::<Seq<Quote>>,
                });
            }
            let part: i128 = match &p.ticker {
                None => q,
                Some(_) => {
                    let price: i64 = match &histories[i] {
                        Some(quotes) => if quotes.len() > 0 {
                            quotes[sample_position(w, t, quotes.len())].close
                        } else {
                            p.last_spot
                        },
                        None => p.last_spot,
                    };
                    proof {
                        let f = MAX_LOTS * MAX_FIELD;
                        let g = i64::MAX + 1;
                        assert(-(g * f) <= price * q <= g * f) by (nonlinear_arith)
                            requires -g <= price < g, -f <= q <= f, f > 0, g > 0;
                        assert(g * f == 9_223_372_036_854_775_808_000_000_000_000_000_000);
                        crate::position::lemma_div_bounds(price * q, 9_223_372_036_854_775_808_000_000_000_000_000_000);
                    }
                    floor_div(price as i128 * q, SCALE as i128)
                },
            };
            total = total + part;
            i = i + 1;
        }
        assert(ps.subrange(0, i as int) =~= ps);
        assert(hs.subrange(0, i as int) =~= hs);
        total
    }

    /// Weekly value series from the earliest purchase to `now`, at most
    /// `MAX_WEEKS` points, from one price history per position (entries of
    /// cash positions are not read). The last point is the current total
    /// value when that is positive. Empty without a readable purchase date.
    pub fn weekly_series(&self, histories: &Vec<Option<Vec<Quote>>>, now: i64) -> (r: Vec<(usize, i128)>)
        requires
            self.wf(),
            histories@.len() == self.positions@.len(),
        ensures
            earliest_purchase(self.positions@) is None ==> r@.len() == 0,
            earliest_purchase(self.positions@) matches Some(e) ==> {
                let t = week_count(e, now);
                &&& r@.len() == t
                &&& forall|w: int| 0 <= w < t - 1 ==> (#[trigger] r@[w]).0 == w
                    && r@[w].1 == week_value(self.positions@, histories_view(histories@), w, t)
                &&& r@[t - 1].0 == t - 1
                &&& r@[t - 1].1 == if total_of(self.positions@) > 0 {
                    total_of(self.positions@)
                } else {
                    week_value(self.positions@, histories_view(histories@), t - 1, t)
                }
            },
    {
        let earliest = match self.earliest_purchase_date() {
            Some(e) => e,
            None => return Vec::new(),
        };
        let t = weeks_between(earliest, now);
        let mut series: Vec<(usize, i128)> = Vec::new();
        let mut w: usize = 0;
        while w < t
            invariant
                self.wf(),
                histories@.len() == self.positions@.len(),
                t == week_count(earliest, now),
                1 <= t <= MAX_WEEKS,
                0 <= w <= t,
                series@.len() == w,
                forall|k: int| 0 <= k < w ==> (#[trigger] series@[k]).0 == k
                    && series@[k].1 == week_value(self.positions@, histories_view(histories@), k, t as int),
            decreases t - w,
        {
            let v = self.week_total(histories, w, t);
            series.push((w, v));
            w = w + 1;
        }
        let current = self.get_total_value();
        let ghost before = series@;
        if current > 0 {
            let last = t - 1;
            series.set(last, (last, current));
            assert(forall|k: int| 0 <= k < t - 1 ==> series@[k] == before[k]);
        }
        series
    }
}

/// Index of the quote sampled for week `w` of `t` in a history of `qlen`.
fn sample_position(w: usize, t: usize, qlen: usize) -> (r: usize)
    requires
        w < t <= MAX_WEEKS,
        qlen >= 1,
    ensures
        r == sample_index(w as int, t as int, qlen as int),
        r < qlen,
{
    let d: u128 = if t - 1 > 1 {
        (t - 1) as u128
    } else {
        1
    };
    proof {
        let a = w as int;
        let b = (qlen - 1) as int;
        assert(2 * a * b <= 2 * 78 * 18_446_744_073_709_551_615) by (nonlinear_arith)
            requires 0 <= a <= 78, 0 <= b <= 18_446_744_073_709_551_615;
    }
    let idx = (2 * (w as u128) * ((qlen - 1) as u128) + d) / (2 * d);
    if idx > (qlen - 1) as u128 {
        qlen - 1
    } else {
        idx as usize
    }
}

/// Number of weekly points from `earliest` to `now`.
fn weeks_between(earliest: i64, now: i64) -> (r: usize)
    ensures
        r == week_count(earliest, now),
        1 <= r <= MAX_WEEKS,
{
    if now <= earliest {
        1
    } else {
        let span = now as i128 - earliest as i128;
        let weeks = span / (WEEK_SECONDS as i128) + 1;
        if weeks > MAX_WEEKS as i128 {
            MAX_WEEKS
        } else {
            weeks as usize
        }
    }
}

/// A complete lot with a readable date as (day, quantity times price).
pub open spec fn lot_event(l: crate::position::Purchase) -> Option<(i64, int)> {
    match l.date {
        Some(d) => match purchase_date_of(d@) {
            Some(t) => if l.price is Some && l.price.unwrap() > 0 && l.quantity > 0 {
                Some((t, mul_fixed(l.quantity as int, l.price.unwrap() as int)))
            } else {
                None
            },
            None => None,
        },
        None => None,
    }
}

pub open spec fn lot_events(lots: Seq<crate::position::Purchase>) -> Seq<(i64, int)>
    decreases lots.len(),
{
    if lots.len() == 0 {
        Seq::empty()
    } else {
        let earlier = lot_events(lots.drop_last());
        match lot_event(lots.last()) {
            Some(e) => earlier.push(e),
            None => earlier,
        }
    }
}

/// Purchase events of all positions, position by position.
pub open spec fn purchase_events(ps: Seq<PortfolioPosition>) -> Seq<(i64, int)>
    decreases ps.len(),
{
    if ps.len() == 0 {
        Seq::empty()
    } else {
        purchase_events(ps.drop_last()) + lot_events(ps.last().purchases@)
    }
}

/// Amount invested by events on or before `day`.
pub open spec fn invested_until(ev: Seq<(i64, int)>, day: int) -> int
    decreases ev.len(),
{
    if ev.len() == 0 {
        0
    } else {
        invested_until(ev.drop_last(), day) + if ev.last().0 <= day {
            ev.last().1
        } else {
            0
        }
    }
}

/// Day of the earliest event.
pub open spec fn first_event_day(ev: Seq<(i64, int)>) -> i64
    decreases ev.len(),
{
    if ev.len() == 0 {
        i64::MAX
    } else {
        let d = first_event_day(ev.drop_last());
        if ev.last().0 < d {
            ev.last().0
        } else {
            d
        }
    }
}

/// Weeks from `start` on whose first day is not after `now`.
pub open spec fn weeks_until(start: int, now: int) -> int {
    if now < start {
        0
    } else {
        (now - start) / (WEEK_SECONDS as int) + 1
    }
}

/// Points (week, invested) for the first `k` weeks from `start`, skipping
/// weeks with nothing invested yet.
pub open spec fn invested_points(ev: Seq<(i64, int)>, start: int, k: int) -> Seq<(int, int)>
    decreases k,
{
    if k <= 0 {
        Seq::empty()
    } else {
        let earlier = invested_points(ev, start, k - 1);
        let v = invested_until(ev, start + (k - 1) * WEEK_SECONDS);
        if v > 0 {
            earlier.push((k - 1, v))
        } else {
            earlier
        }
    }
}

pub open spec fn events_view(s: Seq<(i64, i128)>) -> Seq<(i64, int)> {
    s.map_values(|e: (i64, i128)| (e.0, e.1 as int))
}

pub open spec fn points_view(s: Seq<(u64, i128)>) -> Seq<(int, int)> {
    s.map_values(|e: (u64, i128)| (e.0 as int, e.1 as int))
}

impl Portfolio {
    /// The purchase events of every position, in order.
    pub fn purchase_events(&self) -> (r: Vec<(i64, i128)>)
        requires
            self.wf(),
        ensures
            events_view(r@) == purchase_events(self.positions@),
            r@.len() <= MAX_POSITIONS * MAX_LOTS,
            forall|k: int| 0 <= k < r@.len() ==> 0 <= (#[trigger] r@[k]).1 <= (MAX_FIELD as int) * (MAX_FIELD as int) / (SCALE as int) + 1,
    {
        let ghost ps = self.positions@;
        let mut out: Vec<(i64, i128)> = Vec::new();
        let mut i: usize = 0;
        let ghost cap = (MAX_FIELD as int) * (MAX_FIELD as int) / (SCALE as int) + 1;
        while i < self.positions.len()
            invariant
                self.wf(),
                ps == self.positions@,
                cap == (MAX_FIELD as int) * (MAX_FIELD as int) / (SCALE as int) + 1,
                0 <= i <= ps.len(),
                events_view(out@) == purchase_events(ps.subrange(0, i as int)),
                out@.len() <= i * MAX_LOTS,
                forall|k: int| 0 <= k < out@.len() ==> 0 <= (#[trigger] out@[k]).1 <= cap,
            decreases ps.len() - i,
        {
            let lots = &self.positions[i].purchases;
            let ghost base = out@;
            let mut j: usize = 0;
            while j < lots.len()
                invariant
                    0 <= j <= lots@.len(),
                    lots@.len() <= MAX_LOTS,
                    forall|k: int| 0 <= k < lots@.len() ==> (#[trigger] lots@[k]).wf(),
                    cap == (MAX_FIELD as int) * (MAX_FIELD as int) / (SCALE as int) + 1,
                    events_view(out@)
                        == events_view(base) + lot_events(lots@.subrange(0, j as int)),
                    out@.len() <= base.len() + j,
                    forall|k: int| 0 <= k < out@.len() ==> 0 <= (#[trigger] out@[k]).1 <= cap,
                decreases lots@.len() - j,
            {
                let l = &lots[j];
                let ghost before = out@;
                proof {
                    assert(lots@.subrange(0, j as int + 1).drop_last() =~= lots@.subrange(0, j as int));
                    assert(lots@[j as int].wf());
                }
                match &l.date {
                    Some(d) => match parse_purchase_date(d.as_str()) {
                        Some(t) => match l.price {
                            Some(pr) => if pr > 0 && l.quantity > 0 {
                                proof {
                                    let f = MAX_FIELD as int;
                                    assert(0 < l.quantity * pr <= f * f) by (nonlinear_arith)
                                        requires 0 < l.quantity <= f, 0 < pr <= f;
                                    crate::position::lemma_div_bounds(l.quantity * pr, f * f);
                                    vstd::arithmetic::div_mod::lemma_div_is_ordered(0, l.quantity * pr, SCALE as int);
                                }
                                let amount = floor_div(l.quantity as i128 * pr as i128, SCALE as i128);
                                out.push((t, amount));
                                assert(events_view(out@) =~= events_view(before).push((t, amount as int)));
                            },
                            None => {},
                        },
                        None => {},
                    },
                    None => {},
                }
                j = j + 1;
            }
            proof {
                assert(lots@.subrange(0, j as int) =~= lots@);
                assert(ps.subrange(0, i as int + 1).drop_last() =~= ps.subrange(0, i as int));
            }
            i = i + 1;
        }
        assert(ps.subrange(0, i as int) =~= ps);
        out
    }
}

/// Amount invested by the events on or before `day`.
fn invested_by(events: &Vec<(i64, i128)>, day: i128) -> (r: i128)
    requires
        events@.len() <= MAX_POSITIONS * MAX_LOTS,
        forall|k: int| 0 <= k < events@.len() ==> 0 <= (#[trigger] events@[k]).1 <= (MAX_FIELD as int) * (MAX_FIELD as int) / (SCALE as int) + 1,
    ensures
        r == invested_until(events_view(events@), day as int),
{
    let ghost ev = events_view(events@);
    let ghost cap = (MAX_FIELD as int) * (MAX_FIELD as int) / (SCALE as int) + 1;
    let mut acc: i128 = 0;
    let mut k: usize = 0;
    while k < events.len()
        invariant
            ev == events_view(events@),
            cap == (MAX_FIELD as int) * (MAX_FIELD as int) / (SCALE as int) + 1,
            events@.len() <= MAX_POSITIONS * MAX_LOTS,
            forall|j: int| 0 <= j < events@.len() ==> 0 <= (#[trigger] events@[j]).1 <= cap,
            0 <= k <= events@.len(),
            acc == invested_until(ev.subrange(0, k as int), day as int),
            0 <= acc <= k * cap,
        decreases events@.len() - k,
    {
        proof {
            assert(ev.subrange(0, k as int + 1).drop_last() =~= ev.subrange(0, k as int));
            assert(ev[k as int] == (events@[k as int].0, events@[k as int].1 as int));
            let n = k as int;
            assert(n * cap + cap == (n + 1) * cap) by (nonlinear_arith);
            assert((n + 1) * cap <= MAX_POSITIONS * MAX_LOTS * cap) by (nonlinear_arith)
                requires n + 1 <= MAX_POSITIONS * MAX_LOTS, cap >= 0;
            assert(cap == 1_000_000_000_000_000_000_000_001);
        }
        if events[k].0 as i128 <= day {
            acc = acc + events[k].1;
        }
        k = k + 1;
    }
    assert(ev.subrange(0, k as int) =~= ev);
    acc
}

impl Portfolio {
    /// Amount invested week by week from the first purchase to `now`
    /// (weeks with nothing invested yet are left out), then the current
    /// total value as one more point when it is positive. Empty without a
    /// complete, dated purchase.
    pub fn invested_history(&self, now: i64) -> (r: Vec<(u64, i128)>)
        requires
            self.wf(),
        ensures
            ({
                let ev = purchase_events(self.positions@);
                let start = first_event_day(ev) as int;
                let weeks = weeks_until(start, now as int);
                let total = total_of(self.positions@);
                &&& ev.len() == 0 ==> r@.len() == 0
                &&& ev.len() > 0 ==> points_view(r@) == if total > 0 {
                    invested_points(ev, start, weeks).push((weeks, total))
                } else {
                    invested_points(ev, start, weeks)
                }
            }),
    {
        let events = self.purchase_events();
        let ghost ev = events_view(events@);
        if events.len() == 0 {
            return Vec::new();
        }
        let mut start: i64 = i64::MAX;
        let mut k: usize = 0;
        while k < events.len()
            invariant
                ev == events_view(events@),
                0 <= k <= events@.len(),
                start == first_event_day(ev.subrange(0, k as int)),
            decreases events@.len() - k,
        {
            proof {
                assert(ev.subrange(0, k as int + 1).drop_last() =~= ev.subrange(0, k as int));
            }
            if events[k].0 < start {
                start = events[k].0;
            }
            k = k + 1;
        }
        assert(ev.subrange(0, k as int) =~= ev);
        let weeks: u64 = if (now as i128) < (start as i128) {
            0
        } else {
            ((now as i128 - start as i128) / (WEEK_SECONDS as i128) + 1) as u64
        };
        let mut out: Vec<(u64, i128)> = Vec::new();
        let mut w: u64 = 0;
        while w < weeks
            invariant
                ev == events_view(events@),
                events@.len() <= MAX_POSITIONS * MAX_LOTS,
                forall|j: int| 0 <= j < events@.len() ==> 0 <= (#[trigger] events@[j]).1 <= (MAX_FIELD as int) * (MAX_FIELD as int) / (SCALE as int) + 1,
                weeks == weeks_until(start as int, now as int),
                0 <= w <= weeks,
                points_view(out@) == invested_points(ev, start as int, w as int),
            decreases weeks - w,
        {
            let day: i128 = start as i128 + (w as i128) * (WEEK_SECONDS as i128);
            let v = invested_by(&events, day);
            let ghost before = out@;
            if v > 0 {
                out.push((w, v));
                assert(points_view(out@) =~= points_view(before).push((w as int, v as int)));
            }
            w = w + 1;
        }
        let total = self.get_total_value();
        if total > 0 {
            let ghost before = out@;
            out.push((weeks, total));
            assert(points_view(out@) =~= points_view(before).push((weeks as int, total as int)));
        }
        out
    }
}

} // verus!
