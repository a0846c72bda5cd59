use certus::types::Trade;

// Sizes are held in tenths of a unit and prices in hundredths of a point, so
// a profit comes out in thousandths.
fn size_units(size: f64) -> i64 {
    (size * 10.0).round() as i64
}

fn price_units(price: f64) -> u64 {
    (price * 100.0).round() as u64
}

fn pnl_points(trade: &Trade) -> Option<f64> {
    trade.pnl().map(|v| v as f64 / 1000.0)
}

fn make_trade(size: f64, entry: f64, exit: Option<f64>) -> Trade {
    Trade {
        id: 1,
        instrument: 1,
        strategy_id: 1,
        fills: Vec::new(),
        size: size_units(size),
        entry_price: price_units(entry),
        entry_index: 0,
        exit_price: exit.map(price_units),
        exit_index: exit.map(|_| 1),
    }
}

#[test]
fn test_trade_pnl_open_trade() {
    let trade = make_trade(100.0, 10.0, None);
    assert_eq!(pnl_points(&trade), None);
}

#[test]
fn test_trade_pnl_long_profit() {
    let trade = make_trade(100.0, 10.0, Some(12.0));
    assert_eq!(pnl_points(&trade), Some(200.0));
}

#[test]
fn test_trade_pnl_long_loss() {
    let trade = make_trade(100.0, 10.0, Some(8.0));
    assert_eq!(pnl_points(&trade), Some(-200.0));
}

#[test]
fn test_trade_pnl_short_profit() {
    let trade = make_trade(-100.0, 10.0, Some(8.0));
    assert_eq!(pnl_points(&trade), Some(200.0));
}

#[test]
fn test_trade_pnl_short_loss() {
    let trade = make_trade(-100.0, 10.0, Some(12.0));
    assert_eq!(pnl_points(&trade), Some(-200.0));
}

#[test]
fn test_trade_pnl_break_even() {
    let trade = make_trade(50.0, 15.0, Some(15.0));
    assert_eq!(pnl_points(&trade), Some(0.0));
}

#[test]
fn test_trade_pnl_long_fractional() {
    let trade = make_trade(10.5, 100.25, Some(101.5));
    assert_eq!(pnl_points(&trade), Some(10.5 * (101.50 - 100.25)));
}

#[test]
fn test_trade_pnl_short_fractional() {
    let trade = make_trade(-10.5, 101.5, Some(100.25));
    assert_eq!(pnl_points(&trade), Some(-10.5 * (100.25 - 101.50)));
}

#[test]
fn pnl_is_exact_in_units() {
    let trade = make_trade(-3.0, 20.0, Some(25.5));
    assert_eq!(trade.pnl(), Some(-30 * 550));
}
