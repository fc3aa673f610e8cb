use portfolio_rs::cache::{FallbackCache, QuoteCaches};
use portfolio_rs::fixed::SCALE;
use portfolio_rs::portfolio::Portfolio;
use portfolio_rs::position::{PortfolioPosition, Purchase};
use portfolio_rs::quote::{ProviderError, Quote, QuoteResponse};
use portfolio_rs::refresh::{collect_resolutions, network_status, NetworkStatus};
use portfolio_rs::resolver::{resolve_unreachable, Resolution, Step};

const U: i64 = SCALE;
const NOW: i64 = 1_700_000_000;

fn quotes(closes: &[i64]) -> QuoteResponse {
    let v: Vec<Quote> = closes
        .iter()
        .enumerate()
        .map(|(i, c)| Quote { timestamp: i as i64, close: *c })
        .collect();
    QuoteResponse::new(Some(v))
}

fn network() -> ProviderError {
    ProviderError::Network("unreachable".to_string())
}

fn stock(ticker: &str, amount: i64) -> PortfolioPosition {
    PortfolioPosition::new(None, Some(ticker.to_string()), "Stock".to_string(), amount, vec![])
}

fn cash(amount: i64) -> PortfolioPosition {
    PortfolioPosition::new(None, None, "Cash".to_string(), amount, vec![])
}

#[test]
fn cache_serves_remembered_value_on_failure() {
    let mut cache: FallbackCache<String, i64> = FallbackCache::new();
    assert_eq!(cache.get_or_fetch("AAPL".to_string(), Ok::<i64, String>(42)), Ok(42));
    assert_eq!(cache.get_or_fetch("AAPL".to_string(), Err("down".to_string())), Ok(42));
    assert_eq!(cache.get_or_fetch("MSFT".to_string(), Err::<i64, String>("down".to_string())), Err("down".to_string()));
    assert_eq!(cache.get_or_fetch("AAPL".to_string(), Ok::<i64, String>(43)), Ok(43));
    assert_eq!(cache.lookup(&"AAPL".to_string()), Some(43));
    assert_eq!(cache.len(), 1);
}

#[test]
fn historic_cache_is_keyed_by_day() {
    let mut cache: FallbackCache<(String, i64), i64> = FallbackCache::new();
    cache.store(("X".to_string(), 1), 10);
    cache.store(("X".to_string(), 2), 20);
    assert_eq!(cache.lookup(&("X".to_string(), 1)), Some(10));
    assert_eq!(cache.lookup(&("X".to_string(), 2)), Some(20));
    assert_eq!(cache.lookup(&("Y".to_string(), 1)), None);
}

/// Runs a resolution, answering each call from the given closures.
fn resolve(
    caches: &mut QuoteCaches,
    position: PortfolioPosition,
    latest: &dyn Fn() -> Result<QuoteResponse, ProviderError>,
    window: &dyn Fn(i64, i64) -> Result<QuoteResponse, ProviderError>,
    name: &dyn Fn() -> Result<Option<String>, ProviderError>,
) -> Result<PortfolioPosition, ProviderError> {
    let (mut res, mut step) = Resolution::start(position, NOW);
    loop {
        step = match step {
            Step::Done => return res.finish(),
            Step::FetchLatest { .. } => res.on_latest(caches, latest()),
            Step::FetchWindow { start, end, .. } => {
                if end == NOW {
                    res.on_window(caches, window(start, end))
                } else {
                    res.on_lot_quotes(caches, window(start, end))
                }
            }
            Step::SearchName { .. } => res.on_name(caches, name()),
        }
    }
}

#[test]
fn cash_resolves_without_calls() {
    let mut caches = QuoteCaches::new();
    let (res, step) = Resolution::start(cash(5 * U), NOW);
    assert!(matches!(step, Step::Done));
    let p = res.finish().unwrap();
    assert_eq!(p.get_balance(), 5 * U as i128);
    assert_eq!(caches.latest.len(), 0);
    let again = resolve(&mut caches, cash(5 * U), &|| Err(network()), &|_, _| Err(network()), &|| Err(network()));
    assert_eq!(again.unwrap().get_balance(), 5 * U as i128);
}

#[test]
fn resolution_fills_spot_previous_close_lots_and_name() {
    let mut caches = QuoteCaches::new();
    let lots = vec![
        Purchase { date: Some("2024-01-15".to_string()), quantity: 2 * U, price: None, fees: None },
        Purchase { date: Some("garbage".to_string()), quantity: U, price: None, fees: None },
        Purchase { date: Some("2024-01-16".to_string()), quantity: U, price: Some(7 * U), fees: None },
    ];
    let position = PortfolioPosition::new(None, Some("AAPL".to_string()), "Stock".to_string(), 0, lots);
    let p = resolve(
        &mut caches,
        position,
        &|| Ok(quotes(&[100 * U, 110 * U])),
        &|start, end| {
            if end == NOW {
                assert_eq!(start, NOW - 7 * 86_400);
                Ok(quotes(&[90 * U, 95 * U, 99 * U]))
            } else {
                assert_eq!(start, 1_705_276_800);
                assert_eq!(end, 1_705_276_800 + 3 * 86_400);
                Ok(quotes(&[50 * U, -3]))
            }
        },
        &|| Ok(Some("Apple Inc.".to_string())),
    )
    .unwrap();
    assert_eq!(p.market_price(), 110 * U);
    assert_eq!(p.get_previous_close(), Some(95 * U));
    assert_eq!(p.purchases[0].price, Some(0));
    assert_eq!(p.purchases[1].price, None);
    assert_eq!(p.purchases[2].price, Some(7 * U));
    assert_eq!(p.get_name(), "Apple Inc.");
    assert_eq!(p.get_amount(), 4 * U as i128);
    assert_eq!(p.get_balance(), 440 * U as i128);
}

#[test]
fn latest_failure_without_cache_fails_resolution() {
    let mut caches = QuoteCaches::new();
    let r = resolve(&mut caches, stock("ZZZ", U), &|| Err(ProviderError::NotFound), &|_, _| Err(network()), &|| Err(network()));
    assert!(matches!(r, Err(ProviderError::NotFound)));
}

#[test]
fn best_effort_steps_do_not_fail_resolution() {
    let mut caches = QuoteCaches::new();
    let p = resolve(&mut caches, stock("AAPL", 2 * U), &|| Ok(quotes(&[10 * U])), &|_, _| Err(network()), &|| Ok(None)).unwrap();
    assert_eq!(p.get_previous_close(), None);
    assert_eq!(p.get_name_option(), None);
    assert_eq!(p.get_name(), "AAPL");
    assert_eq!(p.get_balance(), 20 * U as i128);
}

#[test]
fn single_quote_window_serves_as_previous_close() {
    let mut caches = QuoteCaches::new();
    let p = resolve(&mut caches, stock("AAPL", U), &|| Ok(quotes(&[10 * U])), &|_, _| Ok(quotes(&[8 * U])), &|| Ok(None)).unwrap();
    assert_eq!(p.get_previous_close(), Some(8 * U));
    assert_eq!(p.daily_variation_percent(), Some(25 * U as i128));
}

#[test]
fn warm_cache_gives_same_balance_twice() {
    let mut caches = QuoteCaches::new();
    let first = resolve(&mut caches, stock("AAPL", 3 * U), &|| Ok(quotes(&[10 * U, 12 * U])), &|_, _| Ok(quotes(&[11 * U, 12 * U])), &|| Ok(Some("Apple".to_string()))).unwrap();
    assert_eq!(first.get_balance(), 36 * U as i128);
    let a = resolve(&mut caches, stock("AAPL", 3 * U), &|| Err(network()), &|_, _| Err(network()), &|| Err(network())).unwrap();
    let b = resolve(&mut caches, stock("AAPL", 3 * U), &|| Err(network()), &|_, _| Err(network()), &|| Err(network())).unwrap();
    assert_eq!(a.get_balance(), 36 * U as i128);
    assert_eq!(a.get_balance(), b.get_balance());
    assert_eq!(a.get_previous_close(), Some(11 * U));
    assert_eq!(b.get_name(), "Apple");
}

#[test]
fn historic_value_tolerates_bad_request() {
    let mut pf = Portfolio::new();
    pf.add_position(stock("A", 2 * U));
    pf.add_position(stock("B", 3 * U));
    pf.add_position(stock("C", 5 * U));
    pf.add_position(cash(100 * U));
    let served = vec![
        Ok(quotes(&[10 * U])),
        Ok(quotes(&[1 * U, 20 * U])),
        Err(ProviderError::BadRequest),
        Err(ProviderError::NoResult),
    ];
    assert_eq!(pf.get_historic_total_value(&served), Ok((2 * 10 + 3 * 20 + 100) as i128 * U as i128));
    assert_eq!(pf.get_historic_securities_value(&served), Ok(80 * U as i128));
}

#[test]
fn historic_value_fails_on_total_loss() {
    let mut pf = Portfolio::new();
    pf.add_position(stock("A", 2 * U));
    pf.add_position(stock("B", 3 * U));
    pf.add_position(cash(0));
    let served = vec![Err(network()), Ok(QuoteResponse::new(Some(vec![]))), Err(network())];
    assert_eq!(
        pf.historic_value(&served, false),
        Err("Error getting historic price data for A: unreachable; Error getting last quote for B: no quotes".to_string())
    );
}

#[test]
fn historic_value_with_only_bad_requests_is_zero() {
    let mut pf = Portfolio::new();
    pf.add_position(stock("A", 2 * U));
    let served = vec![Err(ProviderError::BadRequest)];
    assert_eq!(pf.historic_value(&served, false), Ok(0));
}

#[test]
fn connectivity_from_counts() {
    assert_eq!(network_status(3, 0), NetworkStatus::Connected);
    assert_eq!(network_status(0, 3), NetworkStatus::Disconnected);
    assert_eq!(network_status(2, 1), NetworkStatus::Partial);
    assert_eq!(network_status(0, 0), NetworkStatus::Connected);
}

#[test]
fn collected_resolutions_keep_declared_order() {
    let all_fail = vec![Err(network()), Err(network()), Err(network())];
    let (pf, status) = collect_resolutions(all_fail);
    assert_eq!(pf.positions.len(), 0);
    assert_eq!(status, NetworkStatus::Disconnected);

    let all_ok = vec![Ok(stock("A", U)), Ok(stock("B", U)), Ok(cash(U))];
    let (pf, status) = collect_resolutions(all_ok);
    assert_eq!(status, NetworkStatus::Connected);
    assert_eq!(pf.positions[0].get_name(), "A");
    assert_eq!(pf.positions[1].get_name(), "B");

    let one_fails = vec![Ok(stock("A", U)), Err(network()), Ok(stock("C", U))];
    let (pf, status) = collect_resolutions(one_fails);
    assert_eq!(status, NetworkStatus::Partial);
    assert_eq!(pf.positions.len(), 2);
    assert_eq!(pf.positions[1].get_name(), "C");
}

#[test]
fn weekly_series_samples_histories() {
    let mut a = PortfolioPosition::new(
        None,
        Some("A".to_string()),
        "Stock".to_string(),
        0,
        vec![Purchase { date: Some("2024-01-01".to_string()), quantity: U, price: Some(10 * U), fees: None }],
    );
    a.update_price(40 * U);
    let mut pf = Portfolio::new();
    pf.add_position(a);
    pf.add_position(cash(5 * U));
    let start = 1_704_067_200;
    let now = start + 3 * 604_800;
    let histories = vec![Some(vec![
        Quote { timestamp: 0, close: 10 * U },
        Quote { timestamp: 1, close: 20 * U },
        Quote { timestamp: 2, close: 30 * U },
    ]), None];
    assert_eq!(pf.earliest_purchase_date(), Some(start));
    let series = pf.weekly_series(&histories, now);
    assert_eq!(series.len(), 4);
    assert_eq!(series[0], (0, 15 * U as i128));
    assert_eq!(series[1], (1, 25 * U as i128));
    assert_eq!(series[2], (2, 25 * U as i128));
    assert_eq!(series[3], (3, 45 * U as i128));
}

#[test]
fn weekly_series_needs_a_purchase_date() {
    let mut pf = Portfolio::new();
    pf.add_position(cash(5 * U));
    assert_eq!(pf.weekly_series(&vec![None], NOW), vec![]);
}

#[test]
fn empty_name_search_falls_back_to_cached_name() {
    let mut caches = QuoteCaches::new();
    let first = resolve(&mut caches, stock("AAPL", U), &|| Ok(quotes(&[10 * U])), &|_, _| Err(network()), &|| Ok(Some("Apple".to_string()))).unwrap();
    assert_eq!(first.get_name(), "Apple");
    let second = resolve(&mut caches, stock("AAPL", U), &|| Ok(quotes(&[10 * U])), &|_, _| Err(network()), &|| Ok(None)).unwrap();
    assert_eq!(second.get_name_option(), Some("Apple"));
}

#[test]
fn empty_window_falls_back_to_cached_previous_close() {
    let mut caches = QuoteCaches::new();
    let first = resolve(&mut caches, stock("AAPL", U), &|| Ok(quotes(&[10 * U])), &|_, _| Ok(quotes(&[8 * U, 9 * U])), &|| Ok(None)).unwrap();
    assert_eq!(first.get_previous_close(), Some(8 * U));
    let second = resolve(&mut caches, stock("AAPL", U), &|| Ok(quotes(&[10 * U])), &|_, _| Ok(quotes(&[])), &|| Ok(None)).unwrap();
    assert_eq!(second.get_previous_close(), Some(8 * U));
}

#[test]
fn unreachable_provider_serves_cache() {
    let mut caches = QuoteCaches::new();
    assert!(matches!(resolve_unreachable(&mut caches, stock("AAPL", 2 * U), NOW, &network()), Err(ProviderError::Network(_))));
    resolve(&mut caches, stock("AAPL", 2 * U), &|| Ok(quotes(&[7 * U])), &|_, _| Err(network()), &|| Ok(Some("Apple".to_string()))).unwrap();
    let a = resolve_unreachable(&mut caches, stock("AAPL", 2 * U), NOW, &network()).unwrap();
    let b = resolve_unreachable(&mut caches, stock("AAPL", 2 * U), NOW, &network()).unwrap();
    assert_eq!(a.get_balance(), 14 * U as i128);
    assert_eq!(a.get_balance(), b.get_balance());
    assert_eq!(b.get_name(), "Apple");
    let c = resolve_unreachable(&mut caches, cash(3 * U), NOW, &network()).unwrap();
    assert_eq!(c.get_balance(), 3 * U as i128);
}
