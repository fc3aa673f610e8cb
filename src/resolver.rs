//! Resolution of one position against the quote provider, as a state
//! machine: each step names the provider call to make next, and the caller
//! hands back the provider's answer.

use vstd::prelude::*;
use crate::cache::{QuoteCaches, fetch_step, outcome_view};
use crate::dates::{DAY_SECONDS, parse_purchase_date, purchase_date_of};
use crate::fixed::MAX_FIELD;
use crate::position::{PortfolioPosition, Purchase, lots_wf};
use crate::quote::{Quote, QuoteResponse, ProviderError, last_close_of, previous_close_of, previous_close_from};

verus! {

/// Days of trailing window read for the previous close.
pub const PREVIOUS_CLOSE_WINDOW_DAYS: i64 = 7;

/// Days of window read after a purchase date, to tolerate market closures.
pub const PURCHASE_WINDOW_DAYS: i64 = 3;

/// A provider value brought into the range of stored fields.
pub open spec fn clamp_field(x: int) -> int {
    if x > MAX_FIELD {
        MAX_FIELD as int
    } else if x < -MAX_FIELD {
        -MAX_FIELD
    } else {
        x
    }
}

/// A provider price clamped to zero or more, within the range of fields.
pub open spec fn clamp_price(x: int) -> int {
    if x < 0 {
        0
    } else {
        clamp_field(x)
    }
}

/// `t + days` whole days, saturating at the largest timestamp.
pub open spec fn add_days(t: i64, days: i64) -> i64 {
    if t <= i64::MAX - days * DAY_SECONDS {
        (t + days * DAY_SECONDS) as i64
    } else {
        i64::MAX
    }
}

/// `t - days` whole days, saturating at the smallest timestamp.
pub open spec fn sub_days(t: i64, days: i64) -> i64 {
    if t >= i64::MIN + days * DAY_SECONDS {
        (t - days * DAY_SECONDS) as i64
    } else {
        i64::MIN
    }
}

fn plus_days(t: i64, days: i64) -> (r: i64)
    requires
        0 <= days <= 1000,
    ensures
        r == add_days(t, days),
{
    if t <= i64::MAX - days * DAY_SECONDS {
        t + days * DAY_SECONDS
    } else {
        i64::MAX
    }
}

fn minus_days(t: i64, days: i64) -> (r: i64)
    requires
        0 <= days <= 1000,
    ensures
        r == sub_days(t, days),
{
    if t >= i64::MIN + days * DAY_SECONDS {
        t - days * DAY_SECONDS
    } else {
        i64::MIN
    }
}

fn clamp_to_field(x: i64) -> (r: i64)
    ensures
        r == clamp_field(x as int),
{
    if x > MAX_FIELD {
        MAX_FIELD
    } else if x < -MAX_FIELD {
        -MAX_FIELD
    } else {
        x
    }
}

/// The day whose quotes fill a lot's missing price: only a lot without a
/// positive price, with a positive quantity and a readable date asks.
pub open spec fn lot_request_day(p: Purchase) -> Option<i64> {
    if (p.price is None || p.price.unwrap() <= 0) && p.quantity > 0 && p.date is Some {
        purchase_date_of(p.date.unwrap()@)
    } else {
        None
    }
}

/// Index of the first lot at or after `from` that asks for a price.
pub open spec fn first_pending(lots: Seq<Purchase>, from: int) -> Option<int>
    decreases lots.len() - from,
{
    if from < 0 || from >= lots.len() {
        None
    } else if lot_request_day(lots[from]) is Some {
        Some(from)
    } else {
        first_pending(lots, from + 1)
    }
}

/// Where a resolution stands.
pub enum Phase {
    AwaitLatest,
    AwaitWindow,
    /// Waiting for the quotes of the given day, for the lot at the index.
    AwaitLot(usize, i64),
    AwaitName,
    Resolved,
    Failed(ProviderError),
}

/// What the caller does next.
pub enum Step {
    /// Fetch the latest quotes of the ticker.
    FetchLatest { ticker: String },
    /// Fetch the daily quotes of the ticker from `start` to `end`.
    FetchWindow { ticker: String, start: i64, end: i64 },
    /// Search the provider for the ticker's name.
    SearchName { ticker: String },
    /// Nothing more to fetch.
    Done,
}

/// The call that a phase waits for.
pub open spec fn step_for(phase: Phase, ticker: Seq<char>, now: i64, step: Step) -> bool {
    match phase {
        Phase::AwaitLatest => step matches Step::FetchLatest { ticker: t } && t@ == ticker,
        Phase::AwaitWindow => step matches Step::FetchWindow { ticker: t, start, end } && t@ == ticker
            && start == sub_days(now, PREVIOUS_CLOSE_WINDOW_DAYS) && end == now,
        Phase::AwaitLot(_, day) => step matches Step::FetchWindow { ticker: t, start, end } && t@ == ticker
            && start == day && end == add_days(day, PURCHASE_WINDOW_DAYS),
        Phase::AwaitName => step matches Step::SearchName { ticker: t } && t@ == ticker,
        _ => step is Done,
    }
}

/// Resolution of one position, from declared to priced.
pub struct Resolution {
    pub position: PortfolioPosition,
    pub ticker: String,
    pub now: i64,
    pub phase: Phase,
}

/// Phase once the lots from `from` on have been considered.
pub open spec fn phase_after_lots(pos: PortfolioPosition, from: int) -> Phase {
    match first_pending(pos.purchases@, from) {
        Some(i) => Phase::AwaitLot(i as usize, lot_request_day(pos.purchases@[i]).unwrap()),
        None => if pos.name is None {
            Phase::AwaitName
        } else {
            Phase::Resolved
        },
    }
}

/// Spot after the latest-quote answer: the most recent close when there
/// is one, else the spot as it was.
pub open spec fn spot_after(old_spot: i64, answer: Option<Seq<Quote>>) -> i64 {
    match last_close_of(answer) {
        Some(c) => clamp_field(c as int) as i64,
        None => old_spot,
    }
}

/// Outcome, for the previous-close cache, of a trailing-window answer: an
/// answer without a readable series, or without quotes, counts as a failed
/// fetch.
pub open spec fn window_outcome(fetched: Result<Option<Seq<Quote>>, ProviderError>) -> Result<i64, ProviderError> {
    match fetched {
        Ok(None) => Err(ProviderError::NoQuotes),
        Ok(Some(q)) => match previous_close_of(q) {
            Some(p) => Ok(p),
            None => Err(ProviderError::NoResult),
        },
        Err(e) => Err(e),
    }
}

/// Outcome, for the name cache, of a name search: a search that found
/// nothing counts as a failed fetch.
pub open spec fn name_outcome(fetched: Result<Option<String>, ProviderError>) -> Result<Seq<char>, ProviderError> {
    match fetched {
        Ok(None) => Err(ProviderError::NoResult),
        Ok(Some(n)) => Ok(n@),
        Err(e) => Err(e),
    }
}


/// With every fetch failing, two resolutions against a cache that holds the
/// ticker's latest quotes serve the same quotes, leave the cache as it was,
/// and give the declared position the same balance.
pub proof fn lemma_warm_cache_repeat(
    m: Map<Seq<char>, Option<Seq<Quote>>>,
    ticker: Seq<char>,
    declared: PortfolioPosition,
    first_error: ProviderError,
    second_error: ProviderError,
)
    requires
        m.contains_key(ticker),
    ensures
        ({
            let (m1, r1) = fetch_step(m, ticker, Err::<Option<Seq<Quote>>, ProviderError>(first_error));
            let (m2, r2) = fetch_step(m1, ticker, Err::<Option<Seq<Quote>>, ProviderError>(second_error));
            &&& m1 == m && m2 == m
            &&& r1 == Ok::<Option<Seq<Quote>>, ProviderError>(m[ticker]) && r2 == r1
            &&& (PortfolioPosition { last_spot: spot_after(declared.last_spot, m1[ticker]), ..declared }).balance()
                == (PortfolioPosition { last_spot: spot_after(declared.last_spot, m2[ticker]), ..declared }).balance()
        }),
{
}

impl Resolution {
    pub open spec fn wf(&self) -> bool {
        &&& self.position.wf()
        &&& self.position.ticker is Some ==> self.position.ticker.unwrap()@ == self.ticker@
        &&& (self.phase matches Phase::AwaitLot(i, day) ==> i < self.position.purchases@.len()
            && lot_request_day(self.position.purchases@[i as int]) == Some(day))
    }

    /// Starts resolving `position` at time `now`. Cash needs no call and is
    /// resolved at once, unchanged.
    pub fn start(position: PortfolioPosition, now: i64) -> (r: (Resolution, Step))
        requires
            position.wf(),
        ensures
            r.0.wf(),
            r.0.position == position,
            r.0.now == now,
            position.ticker is None ==> r.0.phase is Resolved,
            position.ticker is Some ==> r.0.phase is AwaitLatest,
            step_for(r.0.phase, r.0.ticker@, now, r.1),
    {
        match &position.ticker {
            None => {
                let res = Resolution { position, ticker: String::new(), now, phase: Phase::Resolved };
                (res, Step::Done)
            },
            Some(t) => {
                let ticker = t.clone();
                let asked = t.clone();
                let res = Resolution { position, ticker, now, phase: Phase::AwaitLatest };
                (res, Step::FetchLatest { ticker: asked })
            },
        }
    }

    /// The call the current phase waits for.
    pub fn current_step(&self) -> (r: Step)
        ensures
            step_for(self.phase, self.ticker@, self.now, r),
    {
        match &self.phase {
            Phase::AwaitLatest => Step::FetchLatest { ticker: self.ticker.clone() },
            Phase::AwaitWindow => Step::FetchWindow {
                ticker: self.ticker.clone(),
                start: minus_days(self.now, PREVIOUS_CLOSE_WINDOW_DAYS),
                end: self.now,
            },
            Phase::AwaitLot(_, day) => Step::FetchWindow {
                ticker: self.ticker.clone(),
                start: *day,
                end: plus_days(*day, PURCHASE_WINDOW_DAYS),
            },
            Phase::AwaitName => Step::SearchName { ticker: self.ticker.clone() },
            _ => Step::Done,
        }
    }

    /// First lot at or after `from` that asks for a price, with its day.
    fn next_pending(&self, from: usize) -> (r: Option<(usize, i64)>)
        requires
            self.position.wf(),
            from <= self.position.purchases@.len(),
        ensures
            r is Some ==> first_pending(self.position.purchases@, from as int) == Some(r.unwrap().0 as int),
            r is Some ==> r.unwrap().0 < self.position.purchases@.len(),
            r is Some ==> lot_request_day(self.position.purchases@[r.unwrap().0 as int]) == Some(r.unwrap().1),
            r is None ==> first_pending(self.position.purchases@, from as int) is None,
    {
        let lots = &self.position.purchases;
        let mut i: usize = from;
        while i < lots.len()
            invariant
                lots@ == self.position.purchases@,
                from <= i <= lots@.len(),
                first_pending(lots@, from as int) == first_pending(lots@, i as int),
            decreases lots@.len() - i,
        {
            let p = &lots[i];
            let needs_price = match p.price {
                Some(v) => v <= 0,
                None => true,
            };
            if needs_price && p.quantity > 0 {
                if let Some(d) = &p.date {
                    if let Some(day) = parse_purchase_date(d.as_str()) {
                        assert(lot_request_day(lots@[i as int]) == Some(day));
                        assert(first_pending(lots@, i as int) == Some(i as int));
                        return Some((i, day));
                    }
                }
            }
            assert(lot_request_day(lots@[i as int]) is None);
            i = i + 1;
        }
        None
    }

    /// Moves on to the lots from `from` on, then to the name.
    fn after_lots(&mut self, from: usize) -> (r: Step)
        requires
            old(self).wf(),
            from <= old(self).position.purchases@.len(),
        ensures
            final(self).wf(),
            final(self).position == old(self).position,
            final(self).ticker == old(self).ticker,
            final(self).now == old(self).now,
            final(self).phase == phase_after_lots(old(self).position, from as int),
            step_for(final(self).phase, final(self).ticker@, final(self).now, r),
    {
        match self.next_pending(from) {
            Some((i, day)) => {
                self.phase = Phase::AwaitLot(i, day);
            },
            None => {
                if self.position.name.is_none() {
                    self.phase = Phase::AwaitName;
                } else {
                    self.phase = Phase::Resolved;
                }
            },
        }
        self.current_step()
    }

    /// Takes the latest-quote answer. A failure that the cache cannot cover
    /// fails the resolution.
    pub fn on_latest(&mut self, caches: &mut QuoteCaches, fetched: Result<QuoteResponse, ProviderError>) -> (r: Step)
        requires
            old(self).wf(),
            old(self).phase is AwaitLatest,
            old(caches).wf(),
        ensures
            final(self).wf(),
            final(caches).wf(),
            final(caches).previous_close == old(caches).previous_close,
            final(caches).historic == old(caches).historic,
            final(caches).names == old(caches).names,
            ({
                let (m, served) = fetch_step(old(caches).latest@, old(self).ticker@, outcome_view(fetched));
                &&& final(caches).latest@ == m
                &&& match served {
                    Ok(answer) => final(self).phase is AwaitWindow && final(self).position == (PortfolioPosition {
                        last_spot: spot_after(old(self).position.last_spot, answer),
                        ..old(self).position
                    }),
                    Err(e) => final(self).phase == Phase::Failed(e) && final(self).position == old(self).position,
                }
            }),
            final(self).ticker == old(self).ticker,
            final(self).now == old(self).now,
            step_for(final(self).phase, final(self).ticker@, final(self).now, r),
    {
        let key = self.ticker.clone();
        match caches.latest.get_or_fetch(key, fetched) {
            Ok(answer) => {
                match answer.last_close() {
                    Some(c) => self.position.update_price(clamp_to_field(c)),
                    None => {},
                }
                self.phase = Phase::AwaitWindow;
            },
            Err(e) => {
                self.phase = Phase::Failed(e);
            },
        }
        self.current_step()
    }

    /// Takes the trailing-window answer; an answer without quotes counts as
    /// a failed fetch. The previous close is best effort.
    pub fn on_window(&mut self, caches: &mut QuoteCaches, fetched: Result<QuoteResponse, ProviderError>) -> (r: Step)
        requires
            old(self).wf(),
            old(self).phase is AwaitWindow,
            old(caches).wf(),
        ensures
            final(self).wf(),
            final(caches).wf(),
            final(caches).latest == old(caches).latest,
            final(caches).historic == old(caches).historic,
            final(caches).names == old(caches).names,
            ({
                let (m, served) = fetch_step(old(caches).previous_close@, old(self).ticker@, window_outcome(outcome_view(fetched)));
                &&& final(caches).previous_close@ == m
                &&& final(self).position == match served {
                    Ok(p) => PortfolioPosition {
                        previous_close: Some(clamp_field(p as int) as i64),
                        ..old(self).position
                    },
                    Err(_) => old(self).position,
                }
            }),
            final(self).phase == phase_after_lots(final(self).position, 0),
            final(self).position.balance() == old(self).position.balance(),
            final(self).ticker == old(self).ticker,
            final(self).now == old(self).now,
            step_for(final(self).phase, final(self).ticker@, final(self).now, r),
    {
        proof {
            reveal(PortfolioPosition::balance);
        }
        let outcome: Result<i64, ProviderError> = match fetched {
            Ok(answer) => match &answer.quotes {
                None => Err(ProviderError::NoQuotes),
                Some(q) => match previous_close_from(q) {
                    Some(p) => Ok(p),
                    None => Err(ProviderError::NoResult),
                },
            },
            Err(e) => Err(e),
        };
        let key = self.ticker.clone();
        match caches.previous_close.get_or_fetch(key, outcome) {
            Ok(p) => {
                self.position.previous_close = Some(clamp_to_field(p));
            },
            Err(_) => {},
        }
        self.after_lots(0)
    }

    /// Takes the quotes that follow a lot's purchase date and fills the lot's
    /// price from the most recent close, clamped to zero or more.
    pub fn on_lot_quotes(&mut self, caches: &mut QuoteCaches, fetched: Result<QuoteResponse, ProviderError>) -> (r: Step)
        requires
            old(self).wf(),
            old(self).phase is AwaitLot,
            old(caches).wf(),
        ensures
            final(self).wf(),
            final(caches).wf(),
            final(caches).latest == old(caches).latest,
            final(caches).previous_close == old(caches).previous_close,
            final(caches).names == old(caches).names,
            ({
                let (i, day) = match old(self).phase {
                    Phase::AwaitLot(i, day) => (i as int, day),
                    _ => (0, 0),
                };
                let lots = old(self).position.purchases@;
                let (m, served) = fetch_step(old(caches).historic@, (old(self).ticker@, day), outcome_view(fetched));
                let close = match served {
                    Ok(answer) => last_close_of(answer),
                    Err(_) => None,
                };
                &&& final(caches).historic@ == m
                &&& final(self).position.purchases@ == match close {
                    Some(c) => lots.update(i, Purchase { price: Some(clamp_price(c as int) as i64), ..lots[i] }),
                    None => lots,
                }
                &&& final(self).position == (PortfolioPosition {
                    purchases: final(self).position.purchases,
                    ..old(self).position
                })
                &&& final(self).phase == phase_after_lots(final(self).position, i + 1)
            }),
            final(self).position.balance() == old(self).position.balance(),
            final(self).ticker == old(self).ticker,
            final(self).now == old(self).now,
            step_for(final(self).phase, final(self).ticker@, final(self).now, r),
    {
        let (i, day) = match self.phase {
            Phase::AwaitLot(i, day) => (i, day),
            _ => (0, 0),
        };
        let key = (self.ticker.clone(), day);
        let close = match caches.historic.get_or_fetch(key, fetched) {
            Ok(answer) => answer.last_close(),
            Err(_) => None,
        };
        match close {
            Some(c) => {
                let price = if c < 0 {
                    0
                } else {
                    clamp_to_field(c)
                };
                let old_lot = self.position.purchases[i].duplicate();
                let lot = Purchase { price: Some(price), ..old_lot };
                let ghost before = self.position.purchases@;
                self.position.purchases.set(i, lot);
                proof {
                    reveal(PortfolioPosition::balance);
                    crate::position::lemma_sum_quantity_update(before, i as int, lot);
                    assert forall|j: int| 0 <= j < self.position.purchases@.len() implies (
                        #[trigger] self.position.purchases@[j]).wf() by {
                        if j != i {
                            assert(self.position.purchases@[j] == before[j]);
                        }
                    }
                }
            },
            None => {},
        }
        self.phase = Phase::Resolved;
        self.after_lots(i + 1)
    }

    /// Takes the name-search answer: `Ok(None)` when the search found
    /// nothing, which counts as a failed fetch. The name is best effort.
    pub fn on_name(&mut self, caches: &mut QuoteCaches, fetched: Result<Option<String>, ProviderError>) -> (r: Step)
        requires
            old(self).wf(),
            old(self).phase is AwaitName,
            old(caches).wf(),
        ensures
            final(self).wf(),
            final(caches).wf(),
            final(caches).latest == old(caches).latest,
            final(caches).previous_close == old(caches).previous_close,
            final(caches).historic == old(caches).historic,
            ({
                let (m, served) = fetch_step(old(caches).names@, old(self).ticker@, name_outcome(fetched));
                &&& final(caches).names@ == m
                &&& match served {
                    Ok(n) => {
                        &&& final(self).position.name matches Some(s) && s@ == n
                        &&& final(self).position == (PortfolioPosition {
                            name: final(self).position.name,
                            ..old(self).position
                        })
                    },
                    Err(_) => final(self).position == old(self).position,
                }
            }),
            final(self).phase is Resolved,
            final(self).position.balance() == old(self).position.balance(),
            final(self).ticker == old(self).ticker,
            final(self).now == old(self).now,
            r is Done,
    {
        proof {
            reveal(PortfolioPosition::balance);
        }
        let outcome: Result<String, ProviderError> = match fetched {
            Ok(None) => Err(ProviderError::NoResult),
            Ok(Some(n)) => Ok(n),
            Err(e) => Err(e),
        };
        let key = self.ticker.clone();
        match caches.names.get_or_fetch(key, outcome) {
            Ok(n) => {
                self.position.name = Some(n);
            },
            Err(_) => {},
        }
        self.phase = Phase::Resolved;
        Step::Done
    }

    /// The priced position, or the failure that stopped resolution.
    pub fn finish(self) -> (r: Result<PortfolioPosition, ProviderError>)
        requires
            self.phase is Resolved || self.phase is Failed,
        ensures
            self.phase is Resolved ==> r == Ok::<PortfolioPosition, ProviderError>(self.position),
            self.phase matches Phase::Failed(e) ==> r == Err::<PortfolioPosition, ProviderError>(e),
    {
        match self.phase {
            Phase::Failed(e) => Err(e),
            _ => Ok(self.position),
        }
    }
}

/// Calls a resolution still has to make, at most.
pub open spec fn steps_left(res: Resolution) -> int {
    let n = res.position.purchases@.len() as int;
    match res.phase {
        Phase::AwaitLatest => n + 3,
        Phase::AwaitWindow => n + 2,
        Phase::AwaitLot(i, _) => n - i + 1,
        Phase::AwaitName => 1,
        _ => 0,
    }
}

proof fn lemma_first_pending_range(lots: Seq<Purchase>, from: int)
    requires
        from >= 0,
    ensures
        first_pending(lots, from) matches Some(j) ==> from <= j < lots.len()
            && lot_request_day(lots[j]) is Some,
    decreases lots.len() - from,
{
    if from < lots.len() && lot_request_day(lots[from]) is None {
        lemma_first_pending_range(lots, from + 1);
    }
}

/// Balance of a declared position once resolved with the given latest
/// quotes.
pub open spec fn resolved_balance(declared: PortfolioPosition, latest: Option<Seq<Quote>>) -> int {
    (PortfolioPosition { last_spot: spot_after(declared.last_spot, latest), ..declared }).balance()
}

/// Resolves a position while the provider cannot be reached: every call
/// fails with `error`, and what the caches remember is served. A ticker
/// position resolves exactly when its latest quotes are cached, at the
/// balance those quotes give; cash resolves unchanged.
pub fn resolve_unreachable(
    caches: &mut QuoteCaches,
    position: PortfolioPosition,
    now: i64,
    error: &ProviderError,
) -> (r: Result<PortfolioPosition, ProviderError>)
    requires
        old(caches).wf(),
        position.wf(),
    ensures
        final(caches).wf(),
        final(caches).latest@ == old(caches).latest@,
        position.ticker is None ==> r == Ok::<PortfolioPosition, ProviderError>(position),
        position.ticker matches Some(t) ==> {
            &&& old(caches).latest@.contains_key(t@) ==> (r matches Ok(p)
                && p.balance() == resolved_balance(position, old(caches).latest@[t@]))
            &&& !old(caches).latest@.contains_key(t@) ==> r == Err::<PortfolioPosition, ProviderError>(*error)
        },
{
    let ghost declared = position;
    let ghost m0 = caches.latest@;
    let (mut res, mut step) = Resolution::start(position, now);
    loop
        invariant
            res.wf(),
            caches.wf(),
            caches.latest@ == m0,
            res.now == now,
            step_for(res.phase, res.ticker@, res.now, step),
            declared.ticker is None ==> res.phase is Resolved && res.position == declared,
            declared.ticker matches Some(t) ==> {
                &&& res.ticker@ == t@
                &&& res.phase is AwaitLatest ==> res.position == declared
                &&& res.phase matches Phase::Failed(e) ==> e == *error && !m0.contains_key(t@)
                &&& !(res.phase is AwaitLatest) && !(res.phase is Failed) ==> m0.contains_key(t@)
                    && res.position.balance() == resolved_balance(declared, m0[t@])
            },
        ensures
            step is Done,
        decreases steps_left(res),
    {
        let ghost before = res;
        match step {
            Step::Done => break,
            Step::FetchLatest { .. } => {
                step = res.on_latest(caches, Err(error.duplicate()));
            },
            Step::FetchWindow { .. } => {
                if matches!(res.phase, Phase::AwaitWindow) {
                    step = res.on_window(caches, Err(error.duplicate()));
                    proof {
                        lemma_first_pending_range(res.position.purchases@, 0);
                    }
                } else {
                    let ghost i = match before.phase {
                        Phase::AwaitLot(i, _) => i as int,
                        _ => 0,
                    };
                    step = res.on_lot_quotes(caches, Err(error.duplicate()));
                    proof {
                        lemma_first_pending_range(res.position.purchases@, i + 1);
                    }
                }
            },
            Step::SearchName { .. } => {
                step = res.on_name(caches, Err(error.duplicate()));
            },
        }
    }
    res.finish()
}

/// Resolving the same declared position twice while the provider cannot be
/// reached, against caches that hold its latest quotes, gives the same
/// balance both times: the first resolution leaves those quotes as they were.
pub proof fn lemma_unreachable_twice(
    declared: PortfolioPosition,
    latest: Map<Seq<char>, Option<Seq<Quote>>>,
    after_first: Map<Seq<char>, Option<Seq<Quote>>>,
    first: PortfolioPosition,
    second: PortfolioPosition,
)
    requires
        declared.ticker matches Some(t) && latest.contains_key(t@),
        after_first == latest,
        first.balance() == resolved_balance(declared, latest[declared.ticker.unwrap()@]),
        second.balance() == resolved_balance(declared, after_first[declared.ticker.unwrap()@]),
    ensures
        first.balance() == second.balance(),
{
}

} // verus!
