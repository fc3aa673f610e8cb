use portfolio_rs::dashboard::{App, AppMode, DisabledComponents, EditField, Tab, Trend};
use portfolio_rs::fixed::SCALE;
use portfolio_rs::portfolio::Portfolio;
use portfolio_rs::position::{PortfolioPosition, Purchase};
use portfolio_rs::summary::{is_cash_position, percent_change};

const U: i64 = SCALE;

fn priced(ticker: &str, amount: i64, spot: i64, prev: Option<i64>, lots: Vec<Purchase>) -> PortfolioPosition {
    let mut p = PortfolioPosition::new(None, Some(ticker.to_string()), "Stock".to_string(), amount, lots);
    p.update_price(spot);
    p.previous_close = prev;
    p
}

fn cash(class: &str, amount: i64) -> PortfolioPosition {
    PortfolioPosition::new(Some("Wallet".to_string()), None, class.to_string(), amount, vec![])
}

#[test]
fn overview_splits_cash_and_securities() {
    let mut pf = Portfolio::new();
    pf.add_position(cash("CASH", 50 * U));
    pf.add_position(cash("Savings", 30 * U));
    pf.add_position(priced(
        "A",
        0,
        12 * U,
        Some(10 * U),
        vec![Purchase { date: None, quantity: 10 * U, price: Some(8 * U), fees: Some(U) }],
    ));
    assert!(is_cash_position(&pf.positions[0]));
    assert!(!is_cash_position(&pf.positions[1]));
    let o = pf.overview();
    assert_eq!(o.total_value, 200 * U as i128);
    assert_eq!(o.cash_value, 50 * U as i128);
    assert_eq!(o.securities_value, 150 * U as i128);
    assert_eq!(o.total_invested, 81 * U as i128);
    assert_eq!(o.total_pnl, 39 * U as i128);
    assert_eq!(o.day_pnl, 20 * U as i128);
    assert_eq!(o.day_percent, 11_111_111);
    assert_eq!(o.hist_percent, 146_913_580);
}

#[test]
fn percent_change_needs_positive_base() {
    assert_eq!(percent_change(110 * U as i128, 100 * U as i128), Some(10 * U as i128));
    assert_eq!(percent_change(90 * U as i128, 100 * U as i128), Some(-10 * U as i128));
    assert_eq!(percent_change(5, 0), None);
    assert_eq!(percent_change(5, -1), None);
    assert_eq!(percent_change(i128::MAX, 1), None);
}

#[test]
fn sort_by_value_is_descending_and_stable() {
    let mut pf = Portfolio::new();
    pf.add_position(priced("A", U, 5 * U, None, vec![]));
    pf.add_position(priced("B", U, 9 * U, None, vec![]));
    pf.add_position(priced("C", U, 5 * U, None, vec![]));
    pf.add_position(cash("Cash", 7 * U));
    pf.sort_positions_by_value_desc();
    let names: Vec<&str> = pf.positions.iter().map(|p| p.get_name()).collect();
    assert_eq!(names, vec!["B", "Wallet", "A", "C"]);
}

#[test]
fn app_navigation_and_trends() {
    let mut app = App::new("EUR".to_string(), "[]".to_string(), "p.json".to_string(), DisabledComponents::default());
    app.next_tab();
    assert_eq!(app.current_tab, Tab::Balances);
    app.previous_tab();
    assert_eq!(app.current_tab, Tab::Overview);
    app.select_next();
    assert_eq!(app.selected_position, 0);

    let mut pf = Portfolio::new();
    pf.add_position(priced("A", U, 10 * U, None, vec![]));
    pf.add_position(priced("B", 2 * U, 10 * U, None, vec![Purchase { date: None, quantity: U, price: None, fees: None }]));
    app.update_trends(&pf);
    assert_eq!(app.trend_of("A"), Some(Trend::Neutral));
    app.set_portfolio(pf);
    app.select_next();
    app.select_next();
    assert_eq!(app.selected_position, 1);

    let mut later = Portfolio::new();
    later.add_position(priced("A", U, 11 * U, None, vec![]));
    later.add_position(priced("B", U, 10 * U, None, vec![]));
    app.update_trends(&later);
    assert_eq!(app.trend_of("A"), Some(Trend::Up));
    assert_eq!(app.trend_of("B"), Some(Trend::Neutral));
    let mut again = Portfolio::new();
    again.add_position(priced("A", U, 11 * U + 5_000, None, vec![]));
    again.add_position(priced("B", U, 9 * U, None, vec![]));
    app.update_trends(&again);
    assert_eq!(app.trend_of("A"), Some(Trend::Up));
    assert_eq!(app.trend_of("B"), Some(Trend::Down));

    app.enter_edit_mode();
    assert_eq!(app.mode, AppMode::PurchaseList);
    app.select_next_purchase();
    assert_eq!(app.selected_purchase, 1);
    app.select_next_purchase();
    assert_eq!(app.selected_purchase, 1);
    app.enter_add_purchase_mode();
    app.get_current_input_mut().push_str("2024-01-15");
    app.next_edit_field();
    assert_eq!(app.edit_field, EditField::Quantity);
    app.get_current_input_mut().push('3');
    assert_eq!(app.get_current_input(), "3");
    assert_eq!(app.purchase_date_input, "2024-01-15");
    app.previous_edit_field();
    app.previous_edit_field();
    assert_eq!(app.edit_field, EditField::Price);
    app.exit_edit_mode();
    assert_eq!(app.mode, AppMode::Normal);
    assert_eq!(app.purchase_quantity_input, "");
}

use portfolio_rs::validation::{parse_decimal, validate_purchase, ValidationError};

#[test]
fn decimals_read_into_fixed_point() {
    assert_eq!(parse_decimal("12.5"), Some(12_500_000));
    assert_eq!(parse_decimal("-0.25"), Some(-250_000));
    assert_eq!(parse_decimal("+3"), Some(3_000_000));
    assert_eq!(parse_decimal(".5"), Some(500_000));
    assert_eq!(parse_decimal("7."), Some(7_000_000));
    assert_eq!(parse_decimal("0.12345678"), Some(123_456));
    assert_eq!(parse_decimal(""), None);
    assert_eq!(parse_decimal("."), None);
    assert_eq!(parse_decimal("1.2.3"), None);
    assert_eq!(parse_decimal("abc"), None);
    assert_eq!(parse_decimal("1000000000"), Some(1_000_000_000_000_000));
    assert_eq!(parse_decimal("1000000001"), None);
}

#[test]
fn purchase_form_rules() {
    assert_eq!(validate_purchase("", "1", "2"), Err(ValidationError::DateRequired));
    assert_eq!(validate_purchase("2024-01-15", "  ", "2"), Err(ValidationError::QuantityRequired));
    assert_eq!(
        validate_purchase("2024-01-15", "x1", "2"),
        Err(ValidationError::InvalidQuantity("x1".to_string()))
    );
    assert_eq!(validate_purchase("2024-01-15", "0", "2"), Err(ValidationError::NonPositiveQuantity(0)));
    assert_eq!(
        validate_purchase("2024-01-15", "1", "a"),
        Err(ValidationError::InvalidPrice("a".to_string()))
    );
    assert_eq!(validate_purchase("2024-01-15", "1", "-2"), Err(ValidationError::NegativePrice(-2_000_000)));
    assert_eq!(validate_purchase("2024-01-15", "1.5", ""), Ok((1_500_000, 0)));
    assert_eq!(validate_purchase("2024-01-15", "2", "10.25"), Ok((2_000_000, 10_250_000)));
}

use portfolio_rs::summary::rank_movers;

#[test]
fn movers_ranked_both_ways() {
    let mut pf = Portfolio::new();
    pf.add_position(priced("A", U, 11 * U, Some(10 * U), vec![]));
    pf.add_position(priced("B", U, 9 * U, Some(10 * U), vec![]));
    pf.add_position(priced("C", U, 10 * U, None, vec![]));
    pf.add_position(priced("D", 2 * U, 12 * U, Some(10 * U), vec![]));
    let movers = pf.day_movers();
    assert_eq!(movers.len(), 3);
    assert_eq!(movers[0].name, "A");
    assert_eq!(movers[0].percent, 10 * U as i128);
    assert_eq!(movers[0].day_pnl, U as i128);
    assert_eq!(movers[2].day_pnl, 4 * U as i128);
    let mut up = pf.day_movers();
    rank_movers(&mut up, true);
    let names: Vec<&str> = up.iter().map(|m| m.name.as_str()).collect();
    assert_eq!(names, vec!["D", "A", "B"]);
    let mut down = pf.day_movers();
    rank_movers(&mut down, false);
    let names: Vec<&str> = down.iter().map(|m| m.name.as_str()).collect();
    assert_eq!(names, vec!["B", "A", "D"]);
}

#[test]
fn invested_history_accumulates_by_week() {
    let start = 1_704_067_200; // 2024-01-01
    let lots = vec![
        Purchase { date: Some("2024-01-01".to_string()), quantity: 2 * U, price: Some(10 * U), fees: Some(U) },
        Purchase { date: Some("2024-01-10".to_string()), quantity: U, price: Some(5 * U), fees: None },
        Purchase { date: Some("2024-01-02".to_string()), quantity: U, price: None, fees: None },
    ];
    let mut pf = Portfolio::new();
    pf.add_position(priced("A", 0, 30 * U, None, lots));
    let now = start + 2 * 604_800 + 86_400;
    let points = pf.invested_history(now);
    assert_eq!(
        points,
        vec![(0, 20 * U as i128), (1, 20 * U as i128), (2, 25 * U as i128), (3, 120 * U as i128)]
    );
    let empty = Portfolio::new();
    assert_eq!(empty.invested_history(now), vec![]);
}

#[test]
fn performance_changes_against_references() {
    let mut pf = Portfolio::new();
    pf.add_position(priced("A", U, 100 * U, None, vec![]));
    pf.add_position(cash("Cash", 50 * U));
    assert_eq!(pf.securities_balance(), 100 * U as i128);
    let (ytd, mtd, recent) = pf.get_performance_data(110 * U as i128, 100 * U as i128, 0);
    assert_eq!(ytd, Some(10 * U as i128));
    assert_eq!(mtd, None);
    assert_eq!(recent, Some(10 * U as i128));
}

use portfolio_rs::dashboard::purchase_display_order;

#[test]
fn purchases_listed_newest_first() {
    let lot = |d: Option<&str>| Purchase { date: d.map(|s| s.to_string()), quantity: U, price: None, fees: None };
    let lots = vec![lot(Some("2023-05-01")), lot(None), lot(Some("2024-01-15")), lot(Some("2023-05-01"))];
    let order = purchase_display_order(&lots);
    assert_eq!(order[0], 2);
    assert_eq!(order[3], 1);
    let mut middle = vec![order[1], order[2]];
    middle.sort();
    assert_eq!(middle, vec![0, 3]);

    let mut app = App::new("EUR".to_string(), "[]".to_string(), "p.json".to_string(), DisabledComponents::default());
    let mut pf = Portfolio::new();
    pf.add_position(priced("A", 0, 10 * U, None, lots));
    app.set_portfolio(pf);
    app.enter_edit_mode();
    assert_eq!(app.enter_edit_purchase_mode(), None);
    app.select_next_purchase();
    assert_eq!(app.enter_edit_purchase_mode(), Some(2));
    assert_eq!(app.mode, AppMode::EditPurchase);
    assert_eq!(app.purchase_date_input, "2024-01-15");
}
