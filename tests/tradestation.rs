use certus::data::{Bar, MarketData};
use certus::tradestation::{parse_hundredths, parse_whole, TradeStationCSVRowParser};
use chrono::NaiveDate;

fn row(fields: &[&str]) -> Vec<Vec<u8>> {
    fields.iter().map(|f| f.as_bytes().to_vec()).collect()
}

#[test]
fn hundredths_read_up_to_two_decimals() {
    assert_eq!(parse_hundredths(b"100"), Some(10000));
    assert_eq!(parse_hundredths(b"100."), Some(10000));
    assert_eq!(parse_hundredths(b"100.5"), Some(10050));
    assert_eq!(parse_hundredths(b"2058.25"), Some(205825));
    assert_eq!(parse_hundredths(b"0.07"), Some(7));
}

#[test]
fn hundredths_reject_other_text() {
    assert_eq!(parse_hundredths(b""), None);
    assert_eq!(parse_hundredths(b".5"), None);
    assert_eq!(parse_hundredths(b"1.234"), None);
    assert_eq!(parse_hundredths(b"-1"), None);
    assert_eq!(parse_hundredths(b"1,5"), None);
    assert_eq!(parse_hundredths(b"1.x"), None);
    assert_eq!(parse_hundredths(b" 1"), None);
}

#[test]
fn hundredths_stop_at_u64_max() {
    assert_eq!(parse_hundredths(b"184467440737095516.15"), Some(u64::MAX));
    assert_eq!(parse_hundredths(b"184467440737095516.16"), None);
    assert_eq!(parse_hundredths(b"99999999999999999999"), None);
}

#[test]
fn whole_numbers() {
    assert_eq!(parse_whole(b"1234"), Some(1234));
    assert_eq!(parse_whole(b"18446744073709551615"), Some(u64::MAX));
    assert_eq!(parse_whole(b"18446744073709551616"), None);
    assert_eq!(parse_whole(b"12.0"), None);
    assert_eq!(parse_whole(b""), None);
}

#[test]
fn parses_a_tradestation_row() {
    let parser = TradeStationCSVRowParser::new();
    let fields = row(&["01/02/2015", "09:01", "2058.25", "2059.00", "2057.75", "2058.50", "12", "34", "1500"]);
    let expected_date = NaiveDate::from_ymd_opt(2015, 1, 2).unwrap().and_hms_opt(9, 1, 0).unwrap();
    assert_eq!(
        parser.parse_row(&fields),
        Some(MarketData::Bar(Bar {
            date: expected_date.and_utc().timestamp(),
            open: 205825,
            high: 205900,
            low: 205775,
            close: 205850,
            volume: 1500,
        }))
    );
}

#[test]
fn malformed_rows_are_rejected() {
    let parser = TradeStationCSVRowParser::new();
    let short = row(&["01/02/2015", "09:01", "1", "1", "1", "1", "0", "0"]);
    assert_eq!(parser.parse_row(&short), None);
    let bad_date = row(&["2015-01-02", "09:01", "1", "1", "1", "1", "0", "0", "1"]);
    assert_eq!(parser.parse_row(&bad_date), None);
    let bad_time = row(&["01/02/2015", "25:01", "1", "1", "1", "1", "0", "0", "1"]);
    assert_eq!(parser.parse_row(&bad_time), None);
    let bad_price = row(&["01/02/2015", "09:01", "1", "x", "1", "1", "0", "0", "1"]);
    assert_eq!(parser.parse_row(&bad_price), None);
}

#[test]
fn bar_from_fields_takes_the_given_date() {
    let parser = TradeStationCSVRowParser::new();
    let fields = row(&["", "", "1.5", "2", "1", "1.25", "", "", "7"]);
    assert_eq!(
        parser.bar_from_fields(Some(60), &fields),
        Some(MarketData::Bar(Bar { date: 60, open: 150, high: 200, low: 100, close: 125, volume: 7 }))
    );
    assert_eq!(parser.bar_from_fields(None, &fields), None);
}
