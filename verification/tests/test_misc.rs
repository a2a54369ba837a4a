use scrapper::download::CoveragePeriod;
use scrapper::input::{check_granularity, get_flag, ts_factor_of};
use scrapper::scheduler::{record_result, ProcessResult};
use scrapper::utils::asset_file::AssetFile;
use scrapper::utils::errors::ScrapperError;
use scrapper::utils::manifest::{Manifest, TimePeriod};
use scrapper::utils::month_year::{months_between, MonthYear};
use scrapper::utils::process_data::{end_date_from, ProcessData};
use scrapper::utils::start_dates::StartDates;

#[test]
fn test_ts_factor_table() {
    assert_eq!(ts_factor_of("1s"), Some(1_000));
    assert_eq!(ts_factor_of("1m"), Some(60_000));
    assert_eq!(ts_factor_of("15m"), Some(15 * 60_000));
    assert_eq!(ts_factor_of("1h"), Some(60 * 60_000));
    assert_eq!(ts_factor_of("12h"), Some(12 * 60 * 60_000));
    assert_eq!(ts_factor_of("1d"), Some(24 * 60 * 60_000));
    assert_eq!(ts_factor_of("1w"), None);
    assert_eq!(ts_factor_of(""), None);
}

#[test]
fn test_check_granularity() {
    assert!(check_granularity("1m"));
    assert!(!check_granularity("2d"));
}

#[test]
fn test_locator_rejects_unknown_granularity() {
    // An unsupported granularity fails locator construction before any
    // network or file work could happen.
    let r = AssetFile::new("BTC", "7x", MonthYear::new(3, 2024));
    assert!(matches!(r, Err(ScrapperError::ConfigError(_))));
    let ok = AssetFile::new("BTC", "1h", MonthYear::new(3, 2024)).unwrap();
    assert_eq!(ok.get_ts_factor(), 3_600_000);
}

#[test]
fn test_locator_paths() {
    let af = AssetFile::new("BTC", "1h", MonthYear::new(3, 2024)).unwrap();
    assert_eq!(af.get_file_name(), "BTCUSDT-1h-2024-03");
    assert_eq!(af.get_full_file_name(".zip"), "BTCUSDT-1h-2024-03.zip");
    assert_eq!(af.get_download_directory(), "./binance_data/downloads/1h/BTCUSDT/");
    assert_eq!(af.get_extract_directory(), "./binance_data/output/1h/");
    assert_eq!(af.get_result_file_path(), "./binance_data/output/1h/BTCUSDT.bin");
    assert_eq!(
        af.get_download_url(".zip.CHECKSUM"),
        "https://data.binance.vision/data/spot/monthly/klines/BTCUSDT/1h/BTCUSDT-1h-2024-03.zip.CHECKSUM"
    );
}

#[test]
fn test_get_flag() {
    let args: Vec<String> = vec![
        "scrapper".to_string(),
        "granularity".to_string(),
        "1h".to_string(),
        "asset".to_string(),
        "BTC".to_string(),
    ];
    assert_eq!(get_flag(&args, "granularity", "1m"), "1h");
    assert_eq!(get_flag(&args, "asset", "everything"), "BTC");
    assert_eq!(get_flag(&args, "missing", "fallback"), "fallback");
    let last: Vec<String> = vec!["granularity".to_string()];
    assert_eq!(get_flag(&last, "granularity", "1m"), "1m");
}

#[test]
fn test_month_string_padding() {
    assert_eq!(MonthYear::new(3, 2024).get_month_string(), "03");
    assert_eq!(MonthYear::new(12, 2023).get_month_string(), "12");
}

#[test]
fn test_month_ordering_and_prev() {
    let jan = MonthYear::new(1, 2024);
    let dec = MonthYear::new(12, 2023);
    assert!(dec.le(&jan));
    assert!(!jan.le(&dec));
    let prev = jan.prev();
    assert_eq!(prev.get_month(), 12);
    assert_eq!(prev.get_year(), 2023);
}

#[test]
fn test_months_between_wraps_year() {
    let months = months_between(&MonthYear::new(11, 2023), &MonthYear::new(2, 2024));
    let pairs: Vec<(u8, i32)> = months.iter().map(|m| (m.get_month(), m.get_year())).collect();
    assert_eq!(pairs, vec![(11, 2023), (12, 2023), (1, 2024), (2, 2024)]);
}

#[test]
fn test_end_date_two_months_back() {
    assert_eq!(end_date_from(2024, 5), MonthYear::new(3, 2024));
    assert_eq!(end_date_from(2024, 2), MonthYear::new(12, 2023));
    assert_eq!(end_date_from(2024, 1), MonthYear::new(11, 2023));
    assert_eq!(end_date_from(2024, 3), MonthYear::new(1, 2024));
}

#[test]
fn test_process_data_roundtrip() {
    let mut pd = ProcessData::new("1h", "BTC", None);
    assert_eq!(pd.get_asset(), "BTC");
    assert_eq!(pd.get_granularity(), "1h");
    assert_eq!(pd.get_start(), None);
    let end = pd.get_end();
    assert!(1 <= end.get_month() && end.get_month() <= 12);
    pd.set_start(MonthYear::new(7, 2020));
    assert_eq!(pd.get_start(), Some(MonthYear::new(7, 2020)));
}

#[test]
fn test_start_dates_get_and_set() {
    let mut sd = StartDates::new();
    assert_eq!(sd.get_start_date("BTC"), None);
    sd.set_start_date("BTC", MonthYear::new(7, 2017));
    sd.set_start_date("ETH", MonthYear::new(8, 2017));
    sd.set_start_date("BTC", MonthYear::new(9, 2019));
    assert_eq!(sd.get_start_date("BTC"), Some(MonthYear::new(9, 2019)));
    assert_eq!(sd.get_start_date("ETH"), Some(MonthYear::new(8, 2017)));
}

#[test]
fn test_error_messages() {
    assert_eq!(
        ScrapperError::NoOnlineData.message(),
        "No data available on Binance servers"
    );
    assert_eq!(
        ScrapperError::IntegrityError("bad".to_string()).message(),
        "Integrity error: bad"
    );
    assert_eq!(
        ScrapperError::NetworkError("timeout".to_string()).message(),
        "Network error: timeout"
    );
}

#[test]
fn test_record_result_success_and_failure() {
    let mut manifest = Manifest::new("1h");
    let mut start_dates = StartDates::new();
    let mut failures: Vec<(String, ScrapperError)> = Vec::new();

    let ok = ProcessResult {
        down_times: vec![TimePeriod::new(1, 3), TimePeriod::new(1, 3), TimePeriod::new(5, 9)],
        time_period: TimePeriod::new(1, 9),
        start_date: Some(MonthYear::new(7, 2017)),
    };
    record_result(&mut manifest, &mut start_dates, &mut failures, "BTC", Ok(ok));
    assert!(failures.is_empty());
    assert_eq!(
        *manifest.get_down_times(),
        vec![TimePeriod { start: 1, end: 3 }, TimePeriod { start: 5, end: 9 }]
    );
    assert_eq!(manifest.get_assets()[0].0, "BTC");
    assert_eq!(manifest.get_assets()[0].1, TimePeriod { start: 1, end: 9 });
    assert_eq!(start_dates.get_start_date("BTC"), Some(MonthYear::new(7, 2017)));

    record_result(
        &mut manifest,
        &mut start_dates,
        &mut failures,
        "ETH",
        Err(ScrapperError::NoOnlineData),
    );
    assert_eq!(failures.len(), 1);
    assert_eq!(failures[0].0, "ETH");
    assert_eq!(manifest.get_assets().len(), 1);
}

#[test]
fn test_coverage_period_fields() {
    let c = CoveragePeriod { start: MonthYear::new(1, 2024), end: MonthYear::new(3, 2024) };
    assert_eq!(c.start, MonthYear::new(1, 2024));
    assert_eq!(c.end, MonthYear::new(3, 2024));
}
