use certus::data::{Bar, MarketData, Tick};
use certus::indicator::MovingAverage;

fn tick(price: u64) -> MarketData {
    MarketData::Tick(Tick { timestamp: 0, price, size: 1 })
}

#[test]
fn moving_average_fills_window_then_slides() {
    let mut ma = MovingAverage::new(3);
    assert_eq!(ma.period(), 3);
    assert!(!ma.is_ready());
    ma.update(tick(10));
    assert_eq!(ma.value(), 3);
    ma.update(tick(20));
    assert!(!ma.is_ready());
    ma.update(tick(30));
    assert!(ma.is_ready());
    assert_eq!(ma.value(), 20);
    ma.update(tick(40));
    assert!(ma.is_ready());
    assert_eq!(ma.value(), 30);
}

#[test]
fn moving_average_reads_bar_close() {
    let mut ma = MovingAverage::new(1);
    ma.update(MarketData::Bar(Bar { date: 0, open: 1, high: 9, low: 1, close: 7, volume: 5 }));
    assert_eq!(ma.value(), 7);
}
