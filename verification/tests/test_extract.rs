use std::io::Write;
use scrapper::extract::{extract_asset, extract_file, is_multiple_of_granularity, post_treatment};
use scrapper::utils::errors::ScrapperError;
use scrapper::utils::manifest::TimePeriod;

fn one_entry_zip(content: &[u8]) -> Vec<u8> {
    let mut writer = zip::ZipWriter::new(std::io::Cursor::new(Vec::new()));
    writer
        .start_file("data.csv", zip::write::FileOptions::default())
        .unwrap();
    writer.write_all(content).unwrap();
    writer.finish().unwrap().into_inner()
}

#[test]
fn test_post_treatment_even_spacing_no_gaps() {
    let ts: Vec<u64> = vec![1000, 1100, 1200, 1300, 1400];
    let (gaps, period) = post_treatment(100, &ts).unwrap();
    assert!(gaps.is_empty());
    assert_eq!(period, TimePeriod::new(1000, 1400));
}

#[test]
fn test_post_treatment_single_gap_width() {
    // One missing stretch of width 300 between 1100 and 1400.
    let ts: Vec<u64> = vec![1000, 1100, 1400, 1500];
    let (gaps, period) = post_treatment(100, &ts).unwrap();
    assert_eq!(gaps, vec![TimePeriod { start: 1100, end: 1400 }]);
    assert_eq!(period, TimePeriod::new(1000, 1500));
}

#[test]
fn test_post_treatment_misaligned_timestamp_is_gap() {
    let ts: Vec<u64> = vec![1000, 1050];
    let (gaps, _) = post_treatment(100, &ts).unwrap();
    assert_eq!(gaps, vec![TimePeriod { start: 1000, end: 1050 }]);
}

#[test]
fn test_post_treatment_decreasing_fails() {
    let ts: Vec<u64> = vec![100, 200, 150];
    let r = post_treatment(100, &ts);
    assert!(matches!(r, Err(ScrapperError::IntegrityError(_))));
}

#[test]
fn test_post_treatment_empty_fails() {
    let ts: Vec<u64> = vec![];
    assert!(matches!(
        post_treatment(100, &ts),
        Err(ScrapperError::IntegrityError(_))
    ));
}

#[test]
fn test_is_multiple_of_granularity() {
    assert!(is_multiple_of_granularity(60_000, 60_000));
    assert!(is_multiple_of_granularity(0, 60_000));
    assert!(!is_multiple_of_granularity(60_001, 60_000));
}

#[test]
fn test_extract_file_reads_timestamps() {
    let archive = one_entry_zip(
        b"1000,1.5,2.0,0.5,1.8,100.0,x,y\r\n1100,1.8,2.1,1.0,2.0,90.5,x,y\r\n",
    );
    let ts = extract_file(&archive).unwrap();
    assert_eq!(ts, vec![1000, 1100]);
}

#[test]
fn test_extract_file_rejects_two_entries() {
    let mut writer = zip::ZipWriter::new(std::io::Cursor::new(Vec::new()));
    writer
        .start_file("a.csv", zip::write::FileOptions::default())
        .unwrap();
    writer.write_all(b"1000,1,1,1,1,1\n").unwrap();
    writer
        .start_file("b.csv", zip::write::FileOptions::default())
        .unwrap();
    writer.write_all(b"2000,1,1,1,1,1\n").unwrap();
    let archive = writer.finish().unwrap().into_inner();
    assert!(matches!(
        extract_file(&archive),
        Err(ScrapperError::ZipError(_))
    ));
}

#[test]
fn test_extract_file_rejects_garbage_bytes() {
    let garbage = b"this is not an archive".to_vec();
    assert!(matches!(
        extract_file(&garbage),
        Err(ScrapperError::ZipError(_))
    ));
}

#[test]
fn test_extract_file_rejects_short_row() {
    let archive = one_entry_zip(b"1000,1.5,2.0\n");
    assert!(matches!(
        extract_file(&archive),
        Err(ScrapperError::CsvError(_))
    ));
}

#[test]
fn test_extract_file_rejects_bad_timestamp() {
    let archive = one_entry_zip(b"10x0,1.5,2.0,0.5,1.8,100.0\n");
    assert!(matches!(
        extract_file(&archive),
        Err(ScrapperError::ParseError(_))
    ));
}

#[test]
fn test_extract_file_rejects_bad_float_column() {
    let archive = one_entry_zip(b"1000,1.5,2.0,0.5,oops,100.0\n");
    assert!(matches!(
        extract_file(&archive),
        Err(ScrapperError::ParseError(_))
    ));
}

#[test]
fn test_extract_asset_merges_months_and_reports_gaps() {
    let first = one_entry_zip(b"1000,1.0,1.0,1.0,1.0,1.0\n1100,1.0,1.0,1.0,1.0,1.0\n");
    let second = one_entry_zip(b"1500,1.0,1.0,1.0,1.0,1.0\n1600,1.0,1.0,1.0,1.0,1.0\n");
    let (gaps, period) = extract_asset(100, &vec![first, second]).unwrap();
    assert_eq!(gaps, vec![TimePeriod { start: 1100, end: 1500 }]);
    assert_eq!(period, TimePeriod::new(1000, 1600));
}

#[test]
fn test_extract_asset_fails_on_out_of_order_months() {
    let first = one_entry_zip(b"2000,1.0,1.0,1.0,1.0,1.0\n");
    let second = one_entry_zip(b"1000,1.0,1.0,1.0,1.0,1.0\n");
    assert!(matches!(
        extract_asset(100, &vec![first, second]),
        Err(ScrapperError::IntegrityError(_))
    ));
}

#[test]
fn test_extract_asset_empty_run_fails() {
    assert!(matches!(
        extract_asset(100, &Vec::new()),
        Err(ScrapperError::IntegrityError(_))
    ));
}

#[test]
fn test_extract_file_rejects_overflowing_timestamp() {
    let archive = one_entry_zip(b"99999999999999999999999,1.0,1.0,1.0,1.0,1.0\n");
    assert!(matches!(
        extract_file(&archive),
        Err(ScrapperError::ParseError(_))
    ));
}

#[test]
fn test_extract_file_accepts_exponent_and_signed_floats() {
    let archive = one_entry_zip(b"1000,-1.5e3,2.,.5,+1.8E-2,100\n");
    let ts = extract_file(&archive).unwrap();
    assert_eq!(ts, vec![1000]);
}
