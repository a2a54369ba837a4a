use scrapper::download::{
    classify_status, ensure_action, ensure_step, walk_step, CoveragePeriod, EnsureAction,
    EnsureEvent, EnsureOutcome, EnsureState, FetchOutcome, MonthOutcome, WalkState, WalkStatus,
};
use scrapper::utils::integrity::IntegrityOutcome;
use scrapper::utils::month_year::MonthYear;

const BIRTH_YEAR: i32 = 2017;

#[test]
fn test_classify_status() {
    assert_eq!(classify_status(200), FetchOutcome::Success);
    assert_eq!(classify_status(299), FetchOutcome::Success);
    assert_eq!(classify_status(404), FetchOutcome::NotFound);
    assert_eq!(classify_status(500), FetchOutcome::TransientError);
    assert_eq!(classify_status(301), FetchOutcome::TransientError);
}

#[test]
fn test_cached_archive_needs_no_fetch() {
    // A cached archive that verifies ends the protocol immediately;
    // the finished protocol asks for nothing further, so no fetch
    // action is ever issued.
    let s = ensure_step(
        &EnsureState::CheckCache,
        &EnsureEvent::Verified(IntegrityOutcome::Match),
    );
    assert_eq!(s, EnsureState::Done(EnsureOutcome::Ready));
    assert_eq!(ensure_action(&s), EnsureAction::Stop);
}

#[test]
fn test_escalation_is_bounded_to_one_retry() {
    let mut s = EnsureState::CheckCache;
    s = ensure_step(&s, &EnsureEvent::Verified(IntegrityOutcome::Unavailable));
    assert_eq!(s, EnsureState::FetchPlain);
    assert_eq!(ensure_action(&s), EnsureAction::Fetch { overwrite: false });
    s = ensure_step(&s, &EnsureEvent::Fetched(FetchOutcome::Success));
    assert_eq!(s, EnsureState::VerifyPlain);
    s = ensure_step(&s, &EnsureEvent::Verified(IntegrityOutcome::Mismatch));
    assert_eq!(s, EnsureState::FetchForce);
    assert_eq!(ensure_action(&s), EnsureAction::Fetch { overwrite: true });
    s = ensure_step(&s, &EnsureEvent::Fetched(FetchOutcome::Success));
    assert_eq!(s, EnsureState::VerifyForce);
    s = ensure_step(&s, &EnsureEvent::Verified(IntegrityOutcome::Mismatch));
    assert_eq!(s, EnsureState::Done(EnsureOutcome::IntegrityFailure));
    // The protocol is over for good: further events change nothing.
    let after = ensure_step(&s, &EnsureEvent::Fetched(FetchOutcome::Success));
    assert_eq!(after, s);
}

#[test]
fn test_not_found_during_fetch_is_no_data() {
    let s = ensure_step(
        &EnsureState::FetchPlain,
        &EnsureEvent::Fetched(FetchOutcome::NotFound),
    );
    assert_eq!(s, EnsureState::Done(EnsureOutcome::NoData));
}

#[test]
fn test_transient_error_fails_the_archive() {
    let s = ensure_step(
        &EnsureState::FetchForce,
        &EnsureEvent::Fetched(FetchOutcome::TransientError),
    );
    assert_eq!(s, EnsureState::Done(EnsureOutcome::NetworkFailure));
}

#[test]
fn test_walk_three_months_then_not_found() {
    // Archives exist for March, February and January 2024; the store
    // answers 404 one month earlier.
    let m = MonthYear::new(3, 2024);
    let mut st = WalkState { current: m, end: m, earliest: None };
    for _ in 0..3 {
        match walk_step(&st, &MonthOutcome::Processed, BIRTH_YEAR) {
            WalkStatus::Scanning(next) => st = next,
            other => panic!("walk ended early: {:?}", other),
        }
    }
    let done = walk_step(&st, &MonthOutcome::NoData, BIRTH_YEAR);
    assert_eq!(
        done,
        WalkStatus::Completed(Some(CoveragePeriod {
            start: MonthYear::new(1, 2024),
            end: m,
        }))
    );
}

#[test]
fn test_walk_not_found_at_first_month_means_no_data() {
    let m = MonthYear::new(3, 2024);
    let st = WalkState { current: m, end: m, earliest: None };
    assert_eq!(
        walk_step(&st, &MonthOutcome::NoData, BIRTH_YEAR),
        WalkStatus::Completed(None)
    );
}

#[test]
fn test_walk_failure_stops_the_asset() {
    let m = MonthYear::new(3, 2024);
    let st = WalkState { current: m, end: m, earliest: None };
    assert_eq!(
        walk_step(&st, &MonthOutcome::Failed, BIRTH_YEAR),
        WalkStatus::Failed
    );
}

#[test]
fn test_walk_wraps_year_boundary() {
    let m = MonthYear::new(1, 2024);
    let st = WalkState { current: m, end: m, earliest: None };
    match walk_step(&st, &MonthOutcome::Processed, BIRTH_YEAR) {
        WalkStatus::Scanning(next) => {
            assert_eq!(next.current.get_month(), 12);
            assert_eq!(next.current.get_year(), 2023);
            assert_eq!(next.earliest, Some(m));
        }
        other => panic!("walk ended early: {:?}", other),
    }
}

#[test]
fn test_walk_stops_at_birth_month() {
    let m = MonthYear::new(1, BIRTH_YEAR);
    let end = MonthYear::new(3, BIRTH_YEAR);
    let st = WalkState { current: m, end, earliest: Some(MonthYear::new(2, BIRTH_YEAR)) };
    assert_eq!(
        walk_step(&st, &MonthOutcome::Processed, BIRTH_YEAR),
        WalkStatus::Completed(Some(CoveragePeriod { start: m, end }))
    );
}
