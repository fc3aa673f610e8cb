use portfolio_rs::dates::parse_purchase_date;
use portfolio_rs::fixed::{floor_div, SCALE};
use portfolio_rs::portfolio::Portfolio;
use portfolio_rs::position::{PortfolioPosition, Purchase};

const U: i64 = SCALE;

fn lot(quantity: i64, price: Option<i64>, fees: Option<i64>) -> Purchase {
    Purchase { date: None, quantity, price, fees }
}

fn cash(amount: i64) -> PortfolioPosition {
    PortfolioPosition::new(None, None, "Cash".to_string(), amount, vec![])
}

fn stock(ticker: &str, class: &str, amount: i64, spot: i64, lots: Vec<Purchase>) -> PortfolioPosition {
    let mut p = PortfolioPosition::new(None, Some(ticker.to_string()), class.to_string(), amount, lots);
    p.update_price(spot);
    p
}

#[test]
fn cash_balance_is_amount() {
    let mut p = cash(1234 * U + 500_000);
    assert_eq!(p.get_balance(), (1234 * U + 500_000) as i128);
    p.update_price(99 * U);
    assert_eq!(p.get_balance(), (1234 * U + 500_000) as i128);
    assert_eq!(p.get_name(), "Unknown");
}

#[test]
fn lots_override_declared_amount() {
    let p = stock("AAPL", "Stock", 7 * U, 2 * U, vec![lot(3 * U, Some(10 * U), None), lot(U / 2, None, None)]);
    assert_eq!(p.get_amount(), (3 * U + U / 2) as i128);
    assert_eq!(p.get_balance(), (7 * U) as i128);
    let q = stock("AAPL", "Stock", 7 * U, 2 * U, vec![]);
    assert_eq!(q.get_amount(), (7 * U) as i128);
    assert_eq!(q.get_balance(), (14 * U) as i128);
    assert_eq!(q.get_name(), "AAPL");
}

#[test]
fn average_cost_of_one_lot() {
    let p = stock("X", "Stock", 0, 0, vec![lot(10 * U, Some(100 * U), Some(5 * U))]);
    assert_eq!(p.average_cost(), Some(100 * U as i128 + 500_000));
    assert_eq!(p.total_invested(), Some(1005 * U as i128));
}

#[test]
fn average_cost_without_complete_lots() {
    let p = stock("X", "Stock", 0, 0, vec![lot(10 * U, None, None), lot(2 * U, Some(0), Some(U))]);
    assert_eq!(p.average_cost(), None);
    assert_eq!(p.total_invested(), None);
    assert_eq!(p.pnl(), None);
    assert_eq!(p.historic_variation_percent(), None);
    let empty = stock("X", "Stock", 3 * U, 0, vec![]);
    assert_eq!(empty.average_cost(), None);
}

#[test]
fn pnl_and_variations() {
    let mut p = stock("X", "Stock", 0, 120 * U, vec![lot(10 * U, Some(100 * U), None)]);
    assert_eq!(p.pnl(), Some(200 * U as i128));
    assert_eq!(p.historic_variation_percent(), Some(20 * U as i128));
    assert_eq!(p.daily_variation_percent(), None);
    p.previous_close = Some(100 * U);
    assert_eq!(p.daily_variation_percent(), Some(20 * U as i128));
    p.previous_close = Some(0);
    assert_eq!(p.daily_variation_percent(), None);
}

#[test]
fn floor_division_rounds_down() {
    assert_eq!(floor_div(7, 2), 3);
    assert_eq!(floor_div(-7, 2), -4);
    assert_eq!(floor_div(-6, 2), -3);
}

#[test]
fn allocation_sums_per_position_shares() {
    let mut pf = Portfolio::new();
    pf.add_position(cash(100 * U));
    pf.add_position(stock("A", "Stock", 1 * U, 100 * U, vec![]));
    pf.add_position(stock("B", "Stock", 1 * U, 100 * U, vec![]));
    assert_eq!(pf.get_total_value(), 300 * U as i128);
    let alloc = pf.get_allocation();
    assert_eq!(alloc.len(), 2);
    assert_eq!(alloc[0].0, "Cash");
    assert_eq!(alloc[1].0, "Stock");
    // each third rounds down on its own
    assert_eq!(alloc[0].1, 33_333_333);
    assert_eq!(alloc[1].1, 66_666_666);
    let sum: i128 = alloc.iter().map(|e| e.1).sum();
    assert!(sum <= 100 * U as i128 && sum > 100 * U as i128 - 3);
}

#[test]
fn purchase_dates_in_three_layouts() {
    assert_eq!(parse_purchase_date("2024-01-15"), Some(1_705_276_800));
    assert_eq!(parse_purchase_date(" 2024/01/15 "), Some(1_705_276_800));
    assert_eq!(parse_purchase_date("15-01-2024"), Some(1_705_276_800));
    assert_eq!(parse_purchase_date("2024-02-30"), None);
    assert_eq!(parse_purchase_date("yesterday"), None);
}

#[test]
fn invested_known_for_priced_lot_of_zero_cost() {
    let p = stock("X", "Stock", 0, 5 * U, vec![lot(0, Some(100 * U), None)]);
    assert_eq!(p.total_invested(), Some(0));
    assert_eq!(p.pnl(), Some(0));
    assert_eq!(p.historic_variation_percent(), None);
    assert_eq!(p.average_cost(), None);
}

#[test]
fn allocation_with_negative_total() {
    let mut pf = Portfolio::new();
    pf.add_position(cash(-300 * U));
    pf.add_position(stock("A", "Stock", U, 100 * U, vec![]));
    assert_eq!(pf.get_total_value(), -200 * U as i128);
    let alloc = pf.get_allocation();
    assert_eq!(alloc[0], ("Cash".to_string(), 150 * U as i128));
    assert_eq!(alloc[1], ("Stock".to_string(), -50 * U as i128));
}
