use certus::consolidation::HistoricBarConsolidationModel;
use certus::data::{Bar, MarketData};
use chrono::{NaiveDate, NaiveDateTime};

// Prices are held in hundredths of a point, volumes in whole units and dates
// in seconds since 1970-01-01T00:00:00.
fn seconds(date: NaiveDateTime) -> i64 {
    date.and_utc().timestamp()
}

fn price_units(price: f64) -> u64 {
    (price * 100.0).round() as u64
}

fn points(price: u64) -> f64 {
    price as f64 / 100.0
}

fn create_bar(date: NaiveDateTime, open: f64, high: f64, low: f64, close: f64, volume: f64) -> MarketData {
    MarketData::Bar(Bar {
        date: seconds(date),
        open: price_units(open),
        high: price_units(high),
        low: price_units(low),
        close: price_units(close),
        volume: volume as u64,
    })
}

#[test]
fn test_normal_consolidation_1_to_5_min() {
    let model = HistoricBarConsolidationModel::new(1, 5);
    let data = vec![
        create_bar(NaiveDate::from_ymd_opt(2023,1,1).unwrap().and_hms_opt(9,0,0).unwrap(), 100.0, 101.0, 99.0, 100.5, 1000.0),
        create_bar(NaiveDate::from_ymd_opt(2023,1,1).unwrap().and_hms_opt(9,1,0).unwrap(), 100.5, 102.0, 100.0, 101.5, 1100.0),
        create_bar(NaiveDate::from_ymd_opt(2023,1,1).unwrap().and_hms_opt(9,2,0).unwrap(), 101.5, 103.0, 101.0, 102.5, 1200.0),
        create_bar(NaiveDate::from_ymd_opt(2023,1,1).unwrap().and_hms_opt(9,3,0).unwrap(), 102.5, 104.0, 102.0, 103.5, 1300.0),
        create_bar(NaiveDate::from_ymd_opt(2023,1,1).unwrap().and_hms_opt(9,4,0).unwrap(), 103.5, 105.0, 103.0, 104.5, 1400.0),
    ];
    let consolidated = model.consolidate_bars(&data);
    assert_eq!(consolidated.len(), 1);
    if let MarketData::Bar(bar) = &consolidated[0] {
        assert_eq!(bar.date, seconds(NaiveDate::from_ymd_opt(2023,1,1).unwrap().and_hms_opt(9,0,0).unwrap()));
        assert_eq!(points(bar.open), 100.0);
        assert_eq!(points(bar.high), 105.0);
        assert_eq!(points(bar.low), 99.0);
        assert_eq!(points(bar.close), 104.5);
        assert_eq!(bar.volume as f64, 6000.0);
    }
}

#[test]
fn test_consolidation_with_missing_bars() {
    let model = HistoricBarConsolidationModel::new(1, 5);
    // Missing 9:1 and 9:3
    let data = vec![
        create_bar(NaiveDate::from_ymd_opt(2023,1,1).unwrap().and_hms_opt(9,0,0).unwrap(), 100.0, 101.0, 99.0, 100.5, 1000.0),
        create_bar(NaiveDate::from_ymd_opt(2023,1,1).unwrap().and_hms_opt(9,2,0).unwrap(), 101.5, 103.0, 101.0, 102.5, 1200.0),
        create_bar(NaiveDate::from_ymd_opt(2023,1,1).unwrap().and_hms_opt(9,4,0).unwrap(), 103.5, 105.0, 103.0, 104.5, 1400.0),
    ];
    let consolidated = model.consolidate_bars(&data);
    assert_eq!(consolidated.len(), 1);
    if let MarketData::Bar(bar) = &consolidated[0] {
        assert_eq!(bar.date, seconds(NaiveDate::from_ymd_opt(2023,1,1).unwrap().and_hms_opt(9,0,0).unwrap()));
        assert_eq!(points(bar.open), 100.0);
        assert_eq!(points(bar.high), 105.0);
        assert_eq!(points(bar.low), 99.0);
        assert_eq!(points(bar.close), 104.5);
        assert_eq!(bar.volume as f64, 3600.0);
    }
}

#[test]
fn test_consolidation_late_start() {
    let model = HistoricBarConsolidationModel::new(1, 5);
    // Starts at 9:2, not 9:0
    let data = vec![
        create_bar(NaiveDate::from_ymd_opt(2023,1,1).unwrap().and_hms_opt(9,2,0).unwrap(), 101.5, 103.0, 101.0, 102.5, 1200.0),
        create_bar(NaiveDate::from_ymd_opt(2023,1,1).unwrap().and_hms_opt(9,3,0).unwrap(), 102.5, 104.0, 102.0, 103.5, 1300.0),
        create_bar(NaiveDate::from_ymd_opt(2023,1,1).unwrap().and_hms_opt(9,4,0).unwrap(), 103.5, 105.0, 103.0, 104.5, 1400.0),
        create_bar(NaiveDate::from_ymd_opt(2023,1,1).unwrap().and_hms_opt(9,5,0).unwrap(), 104.5, 106.0, 104.0, 105.5, 1500.0),
        create_bar(NaiveDate::from_ymd_opt(2023,1,1).unwrap().and_hms_opt(9,6,0).unwrap(), 105.5, 107.0, 105.0, 106.5, 1600.0),
    ];
    let consolidated = model.consolidate_bars(&data);
    assert_eq!(consolidated.len(), 2); // Buckets at 9:0 and 9:5
    if let MarketData::Bar(bar) = &consolidated[0] {
        assert_eq!(bar.date, seconds(NaiveDate::from_ymd_opt(2023,1,1).unwrap().and_hms_opt(9,0,0).unwrap()));
        assert_eq!(points(bar.open), 101.5);
        assert_eq!(points(bar.high), 105.0);
        assert_eq!(points(bar.low), 101.0);
        assert_eq!(points(bar.close), 104.5);
        assert_eq!(bar.volume as f64, 3900.0);
    }
    if let MarketData::Bar(bar) = &consolidated[1] {
        assert_eq!(bar.date, seconds(NaiveDate::from_ymd_opt(2023,1,1).unwrap().and_hms_opt(9,5,0).unwrap()));
        assert_eq!(points(bar.open), 104.5);
        assert_eq!(points(bar.high), 107.0);
        assert_eq!(points(bar.low), 104.0);
        assert_eq!(points(bar.close), 106.5);
        assert_eq!(bar.volume as f64, 3100.0);
    }
}

#[test]
fn test_consolidation_multiple_buckets() {
    let model = HistoricBarConsolidationModel::new(1, 5);
    let data = vec![
        // First bucket 9:0-9:4
        create_bar(NaiveDate::from_ymd_opt(2023,1,1).unwrap().and_hms_opt(9,0,0).unwrap(), 100.0, 101.0, 99.0, 100.5, 1000.0),
        create_bar(NaiveDate::from_ymd_opt(2023,1,1).unwrap().and_hms_opt(9,1,0).unwrap(), 100.5, 102.0, 100.0, 101.5, 1100.0),
        create_bar(NaiveDate::from_ymd_opt(2023,1,1).unwrap().and_hms_opt(9,2,0).unwrap(), 101.5, 103.0, 101.0, 102.5, 1200.0),
        create_bar(NaiveDate::from_ymd_opt(2023,1,1).unwrap().and_hms_opt(9,3,0).unwrap(), 102.5, 104.0, 102.0, 103.5, 1300.0),
        create_bar(NaiveDate::from_ymd_opt(2023,1,1).unwrap().and_hms_opt(9,4,0).unwrap(), 103.5, 105.0, 103.0, 104.5, 1400.0),
        // Second bucket 9:5-9:9
        create_bar(NaiveDate::from_ymd_opt(2023,1,1).unwrap().and_hms_opt(9,5,0).unwrap(), 104.5, 106.0, 104.0, 105.5, 1500.0),
        create_bar(NaiveDate::from_ymd_opt(2023,1,1).unwrap().and_hms_opt(9,6,0).unwrap(), 105.5, 107.0, 105.0, 106.5, 1600.0),
    ];
    let consolidated = model.consolidate_bars(&data);
    assert_eq!(consolidated.len(), 2);
    // First bar
    if let MarketData::Bar(bar) = &consolidated[0] {
        assert_eq!(bar.date, seconds(NaiveDate::from_ymd_opt(2023,1,1).unwrap().and_hms_opt(9,0,0).unwrap()));
        assert_eq!(points(bar.open), 100.0);
        assert_eq!(points(bar.close), 104.5);
    }
    // Second bar
    if let MarketData::Bar(bar) = &consolidated[1] {
        assert_eq!(bar.date, seconds(NaiveDate::from_ymd_opt(2023,1,1).unwrap().and_hms_opt(9,5,0).unwrap()));
        assert_eq!(points(bar.open), 104.5);
        assert_eq!(points(bar.close), 106.5);
    }
}

#[test]
fn test_consolidation_empty_data() {
    let model = HistoricBarConsolidationModel::new(1, 5);
    let data: Vec<MarketData> = vec![];
    let consolidated = model.consolidate_bars(&data);
    assert_eq!(consolidated.len(), 0);
}

#[test]
fn test_consolidation_single_bar() {
    let model = HistoricBarConsolidationModel::new(1, 5);
    let data = vec![
        create_bar(NaiveDate::from_ymd_opt(2023,1,1).unwrap().and_hms_opt(9,0,0).unwrap(), 100.0, 101.0, 99.0, 100.5, 1000.0),
    ];
    let consolidated = model.consolidate_bars(&data);
    assert_eq!(consolidated.len(), 1);
    if let MarketData::Bar(bar) = &consolidated[0] {
        assert_eq!(bar.date, seconds(NaiveDate::from_ymd_opt(2023,1,1).unwrap().and_hms_opt(9,0,0).unwrap()));
        assert_eq!(points(bar.open), 100.0);
        assert_eq!(points(bar.high), 101.0);
        assert_eq!(points(bar.low), 99.0);
        assert_eq!(points(bar.close), 100.5);
        assert_eq!(bar.volume as f64, 1000.0);
    }
}

#[test]
fn test_consolidation_unordered_bars() {
    let model = HistoricBarConsolidationModel::new(1, 5);
    let data = vec![
        create_bar(NaiveDate::from_ymd_opt(2023,1,1).unwrap().and_hms_opt(9,4,0).unwrap(), 103.5, 105.0, 103.0, 104.5, 1400.0),
        create_bar(NaiveDate::from_ymd_opt(2023,1,1).unwrap().and_hms_opt(9,0,0).unwrap(), 100.0, 101.0, 99.0, 100.5, 1000.0),
        create_bar(NaiveDate::from_ymd_opt(2023,1,1).unwrap().and_hms_opt(9,2,0).unwrap(), 101.5, 103.0, 101.0, 102.5, 1200.0),
    ];
    let consolidated = model.consolidate_bars(&data);
    assert_eq!(consolidated.len(), 1);
    if let MarketData::Bar(bar) = &consolidated[0] {
        assert_eq!(bar.date, seconds(NaiveDate::from_ymd_opt(2023,1,1).unwrap().and_hms_opt(9,0,0).unwrap()));
        assert_eq!(points(bar.open), 100.0); // First in sorted order
        assert_eq!(points(bar.close), 104.5); // Last in sorted order
    }
}

#[test]
fn test_consolidation_different_timeframes() {
    let model = HistoricBarConsolidationModel::new(5, 15); // 5-min to 15-min
    let data = vec![
        // First 15-min bucket: 9:0 to 9:14
        create_bar(NaiveDate::from_ymd_opt(2023,1,1).unwrap().and_hms_opt(9,0,0).unwrap(), 100.0, 101.0, 99.0, 100.5, 1000.0),
        create_bar(NaiveDate::from_ymd_opt(2023,1,1).unwrap().and_hms_opt(9,5,0).unwrap(), 100.5, 102.0, 100.0, 101.5, 1100.0),
        create_bar(NaiveDate::from_ymd_opt(2023,1,1).unwrap().and_hms_opt(9,10,0).unwrap(), 101.5, 103.0, 101.0, 102.5, 1200.0),
    ];
    let consolidated = model.consolidate_bars(&data);
    assert_eq!(consolidated.len(), 1);
    if let MarketData::Bar(bar) = &consolidated[0] {
        assert_eq!(bar.date, seconds(NaiveDate::from_ymd_opt(2023,1,1).unwrap().and_hms_opt(9,0,0).unwrap()));
        assert_eq!(points(bar.open), 100.0);
        assert_eq!(points(bar.high), 103.0);
        assert_eq!(points(bar.low), 99.0);
        assert_eq!(points(bar.close), 102.5);
        assert_eq!(bar.volume as f64, 3300.0);
    }
}

#[test]
fn bucket_start_rounds_minutes_down_and_clears_seconds() {
    let model = HistoricBarConsolidationModel::new(5, 15);
    let date = NaiveDate::from_ymd_opt(2023, 1, 1).unwrap().and_hms_opt(9, 29, 41).unwrap();
    let start = NaiveDate::from_ymd_opt(2023, 1, 1).unwrap().and_hms_opt(9, 15, 0).unwrap();
    assert_eq!(model.bucket_start(seconds(date)), seconds(start));
    let early = NaiveDate::from_ymd_opt(1969, 12, 31).unwrap().and_hms_opt(23, 59, 59).unwrap();
    let early_start = NaiveDate::from_ymd_opt(1969, 12, 31).unwrap().and_hms_opt(23, 45, 0).unwrap();
    assert_eq!(model.bucket_start(seconds(early)), seconds(early_start));
}

#[test]
fn equal_dates_keep_first_open_and_last_close() {
    let model = HistoricBarConsolidationModel::new(1, 5);
    let t = NaiveDate::from_ymd_opt(2023, 1, 1).unwrap().and_hms_opt(9, 1, 0).unwrap();
    let data = vec![create_bar(t, 1.0, 2.0, 0.5, 1.5, 10.0), create_bar(t, 3.0, 4.0, 2.5, 3.5, 20.0)];
    let consolidated = model.consolidate_bars(&data);
    assert_eq!(consolidated.len(), 1);
    match consolidated[0] {
        MarketData::Bar(bar) => {
            assert_eq!(points(bar.open), 1.0);
            assert_eq!(points(bar.close), 3.5);
            assert_eq!(points(bar.high), 4.0);
            assert_eq!(points(bar.low), 0.5);
            assert_eq!(bar.volume, 30);
        }
        MarketData::Tick(_) => panic!("expected a bar"),
    }
}

#[test]
fn buckets_come_out_in_time_order() {
    let model = HistoricBarConsolidationModel::new(1, 5);
    let day = NaiveDate::from_ymd_opt(2023, 1, 1).unwrap();
    let data = vec![
        create_bar(day.and_hms_opt(10, 7, 0).unwrap(), 1.0, 1.0, 1.0, 1.0, 1.0),
        create_bar(day.and_hms_opt(9, 2, 0).unwrap(), 2.0, 2.0, 2.0, 2.0, 1.0),
        create_bar(day.and_hms_opt(9, 58, 0).unwrap(), 3.0, 3.0, 3.0, 3.0, 1.0),
    ];
    let consolidated = model.consolidate_bars(&data);
    let dates: Vec<i64> = consolidated
        .iter()
        .map(|d| match d {
            MarketData::Bar(b) => b.date,
            MarketData::Tick(t) => t.timestamp,
        })
        .collect();
    assert_eq!(
        dates,
        vec![
            seconds(day.and_hms_opt(9, 0, 0).unwrap()),
            seconds(day.and_hms_opt(9, 55, 0).unwrap()),
            seconds(day.and_hms_opt(10, 5, 0).unwrap()),
        ]
    );
}
