use avin::data_file_bar::DataFileBar;
use avin::market::DataError;
use avin::market::MarketData;
use avin::market::IID;
use avin::time::UtcDateTime;
use polars::prelude::Column;
use polars::prelude::DataFrame;
use polars::prelude::NamedFrom;

fn sber() -> IID {
    IID::new("MOEX", "SHARE", "SBER", "BBG004730N88")
}

fn bars(ts: &[i64]) -> DataFrame {
    let n = ts.len();
    let prices: Vec<f64> = (0..n).map(|i| 100.0 + i as f64).collect();
    let volumes: Vec<u64> = (0..n).map(|i| 10 * i as u64).collect();
    DataFrame::new(vec![
        Column::new("ts_nanos".into(), ts.to_vec()),
        Column::new("open".into(), prices.clone()),
        Column::new("high".into(), prices.clone()),
        Column::new("low".into(), prices.clone()),
        Column::new("close".into(), prices),
        Column::new("volume".into(), volumes),
    ])
    .unwrap()
}

fn times_of(df: &DataFrame) -> Vec<i64> {
    df.column("ts_nanos").unwrap().i64().unwrap().into_iter().map(|t| t.unwrap()).collect()
}

#[test]
fn time_from_timestamp_and_year() {
    let t = UtcDateTime::from_timestamp(1690873200, 0).unwrap();
    assert_eq!(t.year(), 2023);
    assert_eq!(t.timestamp(), 1690873200);
    assert_eq!(t.timestamp_subsec_nanos(), 0);
    assert_eq!(t.timestamp_nanos_opt(), Some(1690873200_000_000_000));
    let before_epoch = UtcDateTime::from_timestamp(-1, 0).unwrap();
    assert_eq!(before_epoch.year(), 1969);
    assert!(UtcDateTime::from_timestamp(0, 2_000_000_000).is_none());
    assert!(UtcDateTime::from_timestamp(0, 1_500_000_000).is_none());
    assert!(UtcDateTime::from_timestamp(59, 1_500_000_000).is_some());
    assert!(UtcDateTime::from_timestamp(i64::MAX, 0).is_none());
}

#[test]
fn time_range_edges() {
    let first = UtcDateTime::from_timestamp(-8334601228800, 0).unwrap();
    assert_eq!(first.year(), -262143);
    assert!(UtcDateTime::from_timestamp(-8334601228801, 999_999_999).is_none());
    let last = UtcDateTime::from_timestamp(8210266876799, 999_999_999).unwrap();
    assert_eq!(last.year(), 262142);
    assert!(UtcDateTime::from_timestamp(8210266876800, 0).is_none());
    assert!(UtcDateTime::with_ymd_and_hms(-262143, 1, 1, 0, 0, 0).is_some());
    assert!(UtcDateTime::with_ymd_and_hms(-262144, 12, 31, 23, 59, 59).is_none());
    assert!(UtcDateTime::with_ymd_and_hms(262142, 12, 31, 23, 59, 59).is_some());
}

#[test]
fn time_nanos_out_of_range() {
    let far = UtcDateTime::with_ymd_and_hms(2300, 1, 1, 0, 0, 0).unwrap();
    assert_eq!(far.timestamp_nanos_opt(), None);
    assert_eq!(far.year(), 2300);
    let early = UtcDateTime::with_ymd_and_hms(1600, 1, 1, 0, 0, 0).unwrap();
    assert_eq!(early.timestamp_nanos_opt(), None);
}

#[test]
fn time_with_ymd_and_hms() {
    let t = UtcDateTime::with_ymd_and_hms(2023, 8, 1, 7, 0, 0).unwrap();
    assert_eq!(t.timestamp(), 1690873200);
    assert_eq!(UtcDateTime::with_ymd_and_hms(2024, 12, 31, 23, 59, 59).unwrap().timestamp(), 1735689599);
    assert!(UtcDateTime::with_ymd_and_hms(2023, 2, 29, 0, 0, 0).is_none());
    assert!(UtcDateTime::with_ymd_and_hms(2024, 2, 29, 0, 0, 0).is_some());
    assert!(UtcDateTime::with_ymd_and_hms(2023, 13, 1, 0, 0, 0).is_none());
    assert!(UtcDateTime::with_ymd_and_hms(2023, 1, 1, 24, 0, 0).is_none());
    assert!(UtcDateTime::with_ymd_and_hms(300000, 1, 1, 0, 0, 0).is_none());
}

#[test]
fn data_file_path_text() {
    let p = DataFileBar::file_path(&sber(), &MarketData::BAR_1H, 2023);
    assert_eq!(p, "MOEX/SHARE/SBER/BAR_1H/2023.pqt");
    let f = DataFileBar::new(&sber(), MarketData::BAR_D, bars(&[]), 2024).unwrap();
    assert_eq!(f.path(), "MOEX/SHARE/SBER/BAR_D/2024.pqt");
    assert_eq!(f.year, 2024);
    assert_eq!(f.market_data, MarketData::BAR_D);
}

#[test]
fn data_file_load_outcomes() {
    match DataFileBar::load(&sber(), &MarketData::BAR_10M, 2023, None) {
        Err(DataError::NotFound(m)) => assert_eq!(m, "MOEX_SHARE_SBER BAR_10M"),
        _ => panic!("expected NotFound"),
    }
    match DataFileBar::load(&sber(), &MarketData::BAR_10M, 2023, Some(Err("broken".to_string()))) {
        Err(DataError::ReadError(m)) => assert_eq!(m, "read MOEX/SHARE/SBER/BAR_10M/2023.pqt - broken"),
        _ => panic!("expected ReadError"),
    }
    let df = DataFileBar::load(&sber(), &MarketData::BAR_10M, 2023, Some(Ok(bars(&[5, 6])))).unwrap();
    assert_eq!(times_of(&df), vec![5, 6]);
}

#[test]
fn data_file_year_of_file() {
    assert_eq!(DataFileBar::year_of_file("2023.pqt"), Some(2023));
    assert_eq!(DataFileBar::year_of_file(" 2024 .pqt"), Some(2024));
    assert_eq!(DataFileBar::year_of_file("notes.txt"), None);
    assert_eq!(DataFileBar::year_of_file("2023"), Some(2023));
    assert_eq!(DataFileBar::year_of_file("-5.pqt"), Some(-5));
}

#[test]
fn data_file_name_gives_year_back() {
    for year in [1990, 2023, 0, -44, i32::MAX] {
        let path = DataFileBar::file_path(&sber(), &MarketData::BAR_M, year);
        let name = path.rsplit('/').next().unwrap();
        assert_eq!(DataFileBar::year_of_file(name), Some(year));
    }
}

#[test]
fn data_file_request_all() {
    let files = vec![("2022.pqt".to_string(), bars(&[1])), ("2023.pqt".to_string(), bars(&[2, 3]))];
    let all = DataFileBar::request_all(&sber(), &MarketData::BAR_D, files).unwrap();
    assert_eq!(all.len(), 2);
    assert_eq!(all[0].year, 2022);
    assert_eq!(all[1].year, 2023);
    assert_eq!(times_of(&all[1].data), vec![2, 3]);
    assert_eq!(all[1].iid.ticker(), "SBER");
    assert!(DataFileBar::request_all(&sber(), &MarketData::BAR_D, vec![]).unwrap().is_empty());
}
