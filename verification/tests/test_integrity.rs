use scrapper::utils::integrity::{
    calculate_checksum, check_zip_integrity, get_minutes_in_month, verify_integrity,
    IntegrityOutcome,
};

#[test]
fn test_get_minutes_in_month_january() {
    assert_eq!(get_minutes_in_month(1, 2024), Some(44640));
}

#[test]
fn test_get_minutes_in_month_february_leap_year() {
    assert_eq!(get_minutes_in_month(2, 2020), Some(41760));
}

#[test]
fn test_get_minutes_in_month_february_non_leap_year() {
    assert_eq!(get_minutes_in_month(2, 2021), Some(40320));
}

#[test]
fn test_get_minutes_in_month_march() {
    assert_eq!(get_minutes_in_month(3, 2024), Some(44640));
}

#[test]
fn test_get_minutes_in_month_invalid_month() {
    assert_eq!(get_minutes_in_month(13, 2024), None);
}

// SHA-256("abc"), a widely published reference value.
const ABC_DIGEST: &str = "ba7816bf8f01cfea414140de5dae2223b00361a396177a9cb410ff61f20015ad";

#[test]
fn test_calculate_checksum_reference_value() {
    let digest = calculate_checksum(&b"abc".to_vec());
    assert_eq!(digest, ABC_DIGEST.as_bytes().to_vec());
}

#[test]
fn test_verify_match() {
    let archive = b"abc".to_vec();
    let checksum_file = format!("{}  BTCUSDT-1h-2024-03.zip\n", ABC_DIGEST).into_bytes();
    assert_eq!(
        verify_integrity(Some(&archive), Some(&checksum_file)),
        IntegrityOutcome::Match
    );
    assert!(check_zip_integrity(Some(&archive), Some(&checksum_file)).is_ok());
}

#[test]
fn test_verify_match_leading_whitespace() {
    let archive = b"abc".to_vec();
    let checksum_file = format!("\n\t {}", ABC_DIGEST).into_bytes();
    assert_eq!(
        verify_integrity(Some(&archive), Some(&checksum_file)),
        IntegrityOutcome::Match
    );
}

#[test]
fn test_verify_mismatch() {
    let archive = b"abcd".to_vec();
    let checksum_file = format!("{} x", ABC_DIGEST).into_bytes();
    assert_eq!(
        verify_integrity(Some(&archive), Some(&checksum_file)),
        IntegrityOutcome::Mismatch
    );
    assert!(check_zip_integrity(Some(&archive), Some(&checksum_file)).is_err());
}

#[test]
fn test_verify_unavailable_missing_file() {
    let archive = b"abc".to_vec();
    let checksum_file = format!("{}", ABC_DIGEST).into_bytes();
    assert_eq!(
        verify_integrity(None, Some(&checksum_file)),
        IntegrityOutcome::Unavailable
    );
    assert_eq!(
        verify_integrity(Some(&archive), None),
        IntegrityOutcome::Unavailable
    );
}

#[test]
fn test_verify_unavailable_empty_checksum_file() {
    let archive = b"abc".to_vec();
    let blank = b" \n\t ".to_vec();
    assert_eq!(
        verify_integrity(Some(&archive), Some(&blank)),
        IntegrityOutcome::Unavailable
    );
}

#[test]
fn test_case_sensitive_comparison() {
    let archive = b"abc".to_vec();
    let upper = ABC_DIGEST.to_uppercase().into_bytes();
    assert_eq!(
        verify_integrity(Some(&archive), Some(&upper)),
        IntegrityOutcome::Mismatch
    );
}

#[test]
fn test_get_minutes_in_month_february_four_hundred_rule() {
    // 1900 was no leap year, 2000 was.
    assert_eq!(get_minutes_in_month(2, 1900), Some(40320));
    assert_eq!(get_minutes_in_month(2, 2000), Some(41760));
}
