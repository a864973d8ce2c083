use avin::market::Category;
use avin::market::DataError;
use avin::market::IidCache;
use avin::market::MarketData;
use avin::market::Source;
use avin::market::IID;
use avin::data_file_bar::DataFileBar;
use avin::frame::has_bar_layout;
use avin::manager::Manager;
use avin::time::UtcDateTime;
use polars::prelude::Column;
use polars::prelude::DataFrame;
use polars::prelude::NamedFrom;

fn cache() -> IidCache {
    IidCache::new(
        Source::TINKOFF,
        Category::SHARE,
        vec![
            IID::new("MOEX", "SHARE", "GAZP", "BBG004730RP0"),
            IID::new("MOEX", "SHARE", "SBER", "BBG004730N88"),
        ],
    )
}

fn sber() -> IID {
    IID::new("MOEX", "SHARE", "SBER", "BBG004730N88")
}

fn bars(ts: &[i64]) -> DataFrame {
    let n = ts.len();
    let prices: Vec<f64> = (0..n).map(|i| 100.0 + i as f64).collect();
    let volumes: Vec<u64> = (0..n).map(|i| i as u64).collect();
    DataFrame::new(vec![
        Column::new("ts_nanos".into(), ts.to_vec()),
        Column::new("open".into(), prices.clone()),
        Column::new("high".into(), prices.clone()),
        Column::new("low".into(), prices.clone()),
        Column::new("close".into(), prices),
        Column::new("volume".into(), volumes),
    ])
    .unwrap()
}

fn times_of(df: &DataFrame) -> Vec<i64> {
    df.column("ts_nanos").unwrap().i64().unwrap().into_iter().map(|t| t.unwrap()).collect()
}

fn volumes_of(df: &DataFrame) -> Vec<u64> {
    df.column("volume").unwrap().u64().unwrap().into_iter().map(|v| v.unwrap()).collect()
}

fn ns(y: i32, mo: u32, d: u32, h: u32, mi: u32) -> i64 {
    UtcDateTime::with_ymd_and_hms(y, mo, d, h, mi, 0).unwrap().timestamp_nanos_opt().unwrap()
}

fn utc(y: i32, mo: u32, d: u32, h: u32, mi: u32) -> UtcDateTime {
    UtcDateTime::with_ymd_and_hms(y, mo, d, h, mi, 0).unwrap()
}

/// Requests bars of SBER from stored years, each year's bars given by their
/// opening times; checks the first and the last bar returned.
fn check_request(
    data: MarketData,
    begin: UtcDateTime,
    end: UtcDateTime,
    stored: &[(i32, Vec<i64>)],
    expected_last: i64,
) {
    let instr = Manager::find("moex_share_sber", &cache()).unwrap();
    let mut years = Vec::new();
    for year in Manager::request_years(&begin, &end) {
        match stored.iter().find(|(y, _)| *y == year) {
            Some((_, ts)) => years.push(Ok(bars(ts))),
            None => years.push(Err(DataError::NotFound("none".to_string()))),
        }
    }
    let df = Manager::request(&instr, &data, &begin, &end, years).unwrap();
    let times = times_of(&df);
    assert_eq!(*times.first().unwrap(), begin.timestamp_nanos_opt().unwrap());
    assert_eq!(*times.last().unwrap(), expected_last);
}

fn at(secs: i64) -> UtcDateTime {
    UtcDateTime::from_timestamp(secs, 0).unwrap()
}

const S: i64 = 1_000_000_000;

#[test]
fn manager_find_by_query() {
    let c = cache();
    assert_eq!(Manager::find("moex_share_sber", &c).unwrap().figi(), "BBG004730N88");
    assert_eq!(Manager::find("MOEX_Share_gazp", &c).unwrap().ticker(), "GAZP");
    assert_eq!(Manager::find("moex_share_vtbr", &c).unwrap_err(), "instrument not found");
    assert_eq!(Manager::find("moex_sber", &c).unwrap_err(), "Invalid IID");
    assert_eq!(Manager::find("a_b_c_d", &c).unwrap_err(), "Invalid IID");
}

#[test]
fn manager_find_supported() {
    let c = cache();
    assert!(Manager::find_supported("spb_share_sber", &c).is_none());
    assert!(Manager::find_supported("moex_bond_sber", &c).is_none());
    assert_eq!(Manager::find_supported("x_y", &c).unwrap().unwrap_err(), "Invalid IID");
    assert_eq!(Manager::find_supported("moex_share_sber", &c).unwrap().unwrap().ticker(), "SBER");
}

#[test]
fn manager_find_figi() {
    let c = cache();
    assert_eq!(Manager::find_figi("BBG004730RP0", &c).unwrap().ticker(), "GAZP");
    assert_eq!(Manager::find_figi("bbg004730rp0", &c).unwrap_err(), "instrument not found");
}

#[test]
fn manager_years() {
    assert_eq!(Manager::years(2021, 2024), vec![2021, 2022, 2023, 2024]);
    assert_eq!(Manager::years(2024, 2024), vec![2024]);
    assert!(Manager::years(2025, 2024).is_empty());
    let begin = UtcDateTime::with_ymd_and_hms(2023, 12, 31, 23, 0, 0).unwrap();
    let end = UtcDateTime::with_ymd_and_hms(2025, 1, 1, 0, 0, 0).unwrap();
    assert_eq!(Manager::request_years(&begin, &end), vec![2023, 2024, 2025]);
    assert!(Manager::request_years(&end, &begin).is_empty());
}

#[test]
fn manager_request_filters_window() {
    let years = vec![
        Ok(bars(&[10 * S, 20 * S])),
        Err(DataError::NotFound("none".to_string())),
        Ok(bars(&[30 * S, 40 * S, 50 * S])),
    ];
    let df = Manager::request(&sber(), &MarketData::BAR_1H, &at(20), &at(50), years).unwrap();
    assert_eq!(times_of(&df), vec![20 * S, 30 * S, 40 * S]);
}

#[test]
fn manager_request_not_found() {
    let years = vec![Ok(bars(&[10 * S])), Err(DataError::NotFound("none".to_string()))];
    match Manager::request(&sber(), &MarketData::BAR_D, &at(20), &at(30), years) {
        Err(DataError::NotFound(m)) => assert_eq!(m, "MOEX_SHARE_SBER BAR_D"),
        _ => panic!("expected NotFound"),
    }
    match Manager::request(&sber(), &MarketData::BAR_W, &at(0), &at(30), vec![]) {
        Err(DataError::NotFound(m)) => assert_eq!(m, "MOEX_SHARE_SBER BAR_W"),
        _ => panic!("expected NotFound"),
    }
}

#[test]
fn manager_request_keeps_volumes() {
    let years = vec![Ok(bars(&[10 * S, 20 * S, 30 * S]))];
    let df = Manager::request(&sber(), &MarketData::BAR_1H, &at(15), &at(40), years).unwrap();
    assert_eq!(times_of(&df), vec![20 * S, 30 * S]);
    assert_eq!(volumes_of(&df), vec![1, 2]);
}

#[test]
fn manager_layout_check() {
    assert!(has_bar_layout(&bars(&[1])));
    let other = DataFrame::new(vec![Column::new("price".into(), vec![1i64, 2])]).unwrap();
    assert!(!has_bar_layout(&other));
}

#[test]
fn manager_request_windows_side_by_side() {
    let years = || vec![Ok(bars(&[10 * S, 20 * S, 30 * S, 40 * S]))];
    let a = Manager::request(&sber(), &MarketData::BAR_1H, &at(0), &at(30), years()).unwrap();
    let b = Manager::request(&sber(), &MarketData::BAR_1H, &at(30), &at(50), years()).unwrap();
    let all = Manager::request(&sber(), &MarketData::BAR_1H, &at(0), &at(50), years()).unwrap();
    let mut joined = times_of(&a);
    joined.extend(times_of(&b));
    assert_eq!(joined, times_of(&all));
}

#[test]
fn manager_request_begin_before_nanos_range() {
    let begin = UtcDateTime::with_ymd_and_hms(1600, 1, 1, 0, 0, 0).unwrap();
    let years = vec![Ok(bars(&[-5 * S, 5 * S]))];
    let df = Manager::request(&sber(), &MarketData::BAR_D, &begin, &at(30), years).unwrap();
    assert_eq!(times_of(&df), vec![5 * S]);
}

#[test]
fn manager_year_bounds() {
    let (b, e) = Manager::year_bounds(2023);
    assert_eq!(b.timestamp(), 1672531200);
    assert_eq!(e.timestamp(), 1704067199);
}

#[test]
fn manager_year_files() {
    let f = Manager::year_file(&sber(), &MarketData::BAR_D, bars(&[S]), 2023).unwrap();
    assert_eq!(f.year, 2023);
    assert!(Manager::year_file(&sber(), &MarketData::BAR_D, bars(&[]), 2023).is_none());
    assert_eq!(
        Manager::one_year_file(&sber(), &MarketData::BAR_D, bars(&[]), 2023).err(),
        Some("   - no data for {year}")
    );
    assert!(Manager::one_year_file(&sber(), &MarketData::BAR_D, bars(&[S]), 2023).is_ok());
}

#[test]
fn manager_request_missing_year_changes_nothing() {
    let with_gap = vec![
        Err(DataError::NotFound("none".to_string())),
        Ok(bars(&[10 * S, 20 * S])),
        Err(DataError::NotFound("none".to_string())),
        Ok(bars(&[30 * S])),
    ];
    let without = vec![Ok(bars(&[10 * S, 20 * S])), Ok(bars(&[30 * S]))];
    let a = Manager::request(&sber(), &MarketData::BAR_1H, &at(0), &at(100), with_gap).unwrap();
    let b = Manager::request(&sber(), &MarketData::BAR_1H, &at(0), &at(100), without).unwrap();
    assert_eq!(times_of(&a), times_of(&b));
    assert_eq!(times_of(&a), vec![10 * S, 20 * S, 30 * S]);
}

// Times in Moscow (UTC+3) in the requests below are given in UTC.

#[test]
fn request_10m() {
    let stored: Vec<i64> = (0..24).map(|k| ns(2023, 8, 1, 6, 0) + k * 600 * S).collect();
    let begin = utc(2023, 8, 1, 7, 0);
    let end = utc(2023, 8, 1, 8, 0);
    check_request(MarketData::BAR_10M, begin, end, &[(2023, stored)], ns(2023, 8, 1, 7, 50));
}

#[test]
fn request_1h() {
    let stored: Vec<i64> = (0..24).map(|k| ns(2023, 8, 1, 0, 0) + k * 3600 * S).collect();
    let begin = utc(2023, 8, 1, 7, 0);
    let end = utc(2023, 8, 1, 10, 0);
    check_request(MarketData::BAR_1H, begin, end, &[(2023, stored)], ns(2023, 8, 1, 9, 0));
}

#[test]
fn request_d() {
    let stored: Vec<i64> = (0..90).map(|k| ns(2023, 6, 30, 21, 0) + k * 86400 * S).collect();
    let begin = utc(2023, 7, 31, 21, 0);
    let end = utc(2023, 8, 31, 21, 0);
    check_request(MarketData::BAR_D, begin, end, &[(2023, stored)], ns(2023, 8, 30, 21, 0));
}

#[test]
fn request_w() {
    let week = 7 * 86400 * S;
    let y2023: Vec<i64> = vec![ns(2023, 12, 24, 21, 0), ns(2023, 12, 31, 21, 0)];
    let y2024: Vec<i64> = (0..52).map(|k| ns(2024, 1, 7, 21, 0) + k * week).collect();
    let begin = utc(2023, 12, 31, 21, 0);
    let end = utc(2024, 12, 31, 21, 0);
    check_request(
        MarketData::BAR_W,
        begin,
        end,
        &[(2023, y2023), (2024, y2024)],
        ns(2024, 12, 29, 21, 0),
    );
}

#[test]
fn request_m() {
    let y2023: Vec<i64> = vec![ns(2023, 11, 30, 21, 0), ns(2023, 12, 31, 21, 0)];
    let ends = [(1, 31), (2, 29), (3, 31), (4, 30), (5, 31), (6, 30), (7, 31), (8, 31), (9, 30), (10, 31), (11, 30), (12, 31)];
    let y2024: Vec<i64> = ends.iter().map(|(m, d)| ns(2024, *m, *d, 21, 0)).collect();
    let begin = utc(2023, 12, 31, 21, 0);
    let end = utc(2024, 12, 31, 21, 0);
    check_request(
        MarketData::BAR_M,
        begin,
        end,
        &[(2023, y2023), (2024, y2024)],
        ns(2024, 11, 30, 21, 0),
    );
}

#[test]
fn manager_find_ignores_ascii_case() {
    let c = cache();
    for s in ["moex_Share_sBer", "moex_share_vtbr", "moex_sber"] {
        let a = Manager::find(s, &c).map(|i| i.to_text());
        let b = Manager::find(&s.to_uppercase(), &c).map(|i| i.to_text());
        let d = Manager::find(&s.to_lowercase(), &c).map(|i| i.to_text());
        assert_eq!(a, b);
        assert_eq!(a, d);
    }
}

/// Loads, for each year of a request, that year's stored bars.
fn load_years(begin: &UtcDateTime, end: &UtcDateTime, stored: &[(i32, Vec<i64>)]) -> Vec<Result<DataFrame, DataError>> {
    let mut years = Vec::new();
    for year in Manager::request_years(begin, end) {
        match stored.iter().find(|(y, _)| *y == year) {
            Some((_, ts)) => years.push(Ok(bars(ts))),
            None => years.push(Err(DataError::NotFound("none".to_string()))),
        }
    }
    years
}

#[test]
fn manager_request_split_across_years() {
    let stored = vec![
        (2022, vec![ns(2022, 6, 1, 0, 0), ns(2022, 12, 31, 23, 0)]),
        (2023, vec![ns(2023, 1, 1, 0, 0), ns(2023, 3, 1, 0, 0), ns(2023, 9, 1, 0, 0)]),
        (2024, vec![ns(2024, 2, 1, 0, 0), ns(2024, 7, 1, 0, 0)]),
    ];
    let begin = utc(2022, 7, 1, 0, 0);
    let mid = utc(2023, 3, 1, 0, 0);
    let end = utc(2024, 3, 1, 0, 0);
    let first = load_years(&begin, &mid, &stored);
    let second = load_years(&mid, &end, &stored);
    let whole = load_years(&begin, &end, &stored);
    assert_eq!(first.len(), 2);
    assert_eq!(second.len(), 2);
    assert_eq!(whole.len(), 3);
    let a = Manager::request(&sber(), &MarketData::BAR_D, &begin, &mid, first).unwrap();
    let b = Manager::request(&sber(), &MarketData::BAR_D, &mid, &end, second).unwrap();
    let all = Manager::request(&sber(), &MarketData::BAR_D, &begin, &end, whole).unwrap();
    assert_eq!(times_of(&a), vec![ns(2022, 12, 31, 23, 0), ns(2023, 1, 1, 0, 0)]);
    assert_eq!(times_of(&b), vec![ns(2023, 3, 1, 0, 0), ns(2023, 9, 1, 0, 0), ns(2024, 2, 1, 0, 0)]);
    let mut joined = times_of(&a);
    joined.extend(times_of(&b));
    assert_eq!(joined, times_of(&all));
}

#[test]
fn manager_request_early_begin_loads_as_epoch() {
    let stored = vec![
        (1969, vec![-10 * S]),
        (1970, vec![5 * S, 20 * S]),
    ];
    let early = UtcDateTime::with_ymd_and_hms(1600, 1, 1, 0, 0, 0).unwrap();
    let epoch = at(0);
    let end = at(30);
    let from_early = load_years(&early, &end, &stored);
    assert_eq!(from_early.len(), 371);
    let a = Manager::request(&sber(), &MarketData::BAR_D, &early, &end, from_early).unwrap();
    let b = Manager::request(&sber(), &MarketData::BAR_D, &epoch, &end, load_years(&epoch, &end, &stored)).unwrap();
    assert_eq!(times_of(&a), vec![5 * S, 20 * S]);
    assert_eq!(times_of(&a), times_of(&b));
}

#[test]
fn manager_files_to_convert() {
    assert_eq!(Manager::has_files_to_convert(&vec![]), Err("   - no data files"));
    let f = DataFileBar::new(&sber(), MarketData::BAR_1M, bars(&[S]), 2023).unwrap();
    assert_eq!(Manager::has_files_to_convert(&vec![f]), Ok(()));
}
