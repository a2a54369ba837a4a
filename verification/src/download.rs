//! The download protocol, as decision logic.
//!
//! Two state machines live here. `ensure_step` drives one archive's
//! download-and-verify protocol: a cached archive that verifies is
//! accepted with no fetch at all; otherwise the archive and its
//! checksum file are fetched, re-verified, and on a mismatch fetched
//! once more with the local copies deleted first. A failure after that
//! single escalation is final. `walk_step` drives one asset's walk
//! backward through the months until the store reports no more data,
//! an error surfaces, or the platform's birth month is reached.
//!
//! The fetching and the file handling themselves are the caller's: it
//! performs the action the current state asks for and feeds the
//! outcome back in.

use vstd::prelude::*;
use crate::utils::integrity::IntegrityOutcome;
use crate::utils::month_year::MonthYear;

verus! {

/// How one fetch round (archive plus checksum file) went.
#[derive(Clone, Copy, Debug, PartialEq, Eq, Structural)]
pub enum FetchOutcome {
    /// Both objects were retrieved and written.
    Success,
    /// The store answered 404 for one of them: no more data.
    NotFound,
    /// A transport failure or any other non-success status.
    TransientError,
}

/// Classifies one HTTP status: 404 is the normal no-more-data signal,
/// any other non-2xx status is a transient failure.
pub fn classify_status(status: u16) -> (r: FetchOutcome)
    ensures
        200 <= status < 300 ==> r == FetchOutcome::Success,
        status == 404 ==> r == FetchOutcome::NotFound,
        !(200 <= status < 300) && status != 404 ==> r == FetchOutcome::TransientError,
{
    if 200 <= status && status < 300 {
        FetchOutcome::Success
    } else if status == 404 {
        FetchOutcome::NotFound
    } else {
        FetchOutcome::TransientError
    }
}

/// Where one archive's download-and-verify protocol stands.
#[derive(Clone, Copy, Debug, PartialEq, Eq, Structural)]
pub enum EnsureState {
    /// Check whether a cached copy already verifies.
    CheckCache,
    /// Fetch archive and checksum file, keeping existing files.
    FetchPlain,
    /// Re-verify after the plain fetch.
    VerifyPlain,
    /// Escalation: delete local copies, fetch both again.
    FetchForce,
    /// Last verification after the forced fetch.
    VerifyForce,
    /// The protocol is over.
    Done(EnsureOutcome),
}

/// How one archive's download ended.
#[derive(Clone, Copy, Debug, PartialEq, Eq, Structural)]
pub enum EnsureOutcome {
    /// A verified archive sits in the local cache.
    Ready,
    /// The store has no such archive: the walk's terminal signal.
    NoData,
    /// A fetch failed in transport.
    NetworkFailure,
    /// The checksum still does not match after the one escalation.
    IntegrityFailure,
}

/// What the caller must do next for a given state.
#[derive(Clone, Copy, Debug, PartialEq, Eq, Structural)]
pub enum EnsureAction {
    /// Verify the cached archive against its checksum file.
    Verify,
    /// Fetch the archive and its checksum file; `overwrite` says
    /// whether existing local copies must be deleted first.
    Fetch { overwrite: bool },
    /// Nothing: the protocol is over.
    Stop,
}

/// What happened as a response to an `EnsureAction`.
#[derive(Clone, Copy, Debug, PartialEq, Eq, Structural)]
pub enum EnsureEvent {
    Verified(IntegrityOutcome),
    Fetched(FetchOutcome),
}

/// The action each state asks of the caller.
pub open spec fn spec_ensure_action(state: EnsureState) -> EnsureAction {
    match state {
        EnsureState::CheckCache => EnsureAction::Verify,
        EnsureState::FetchPlain => EnsureAction::Fetch { overwrite: false },
        EnsureState::VerifyPlain => EnsureAction::Verify,
        EnsureState::FetchForce => EnsureAction::Fetch { overwrite: true },
        EnsureState::VerifyForce => EnsureAction::Verify,
        EnsureState::Done(_) => EnsureAction::Stop,
    }
}

/// The transition table of the protocol. An event of the wrong kind
/// for the state leaves the state unchanged; a finished protocol stays
/// finished.
pub open spec fn spec_ensure_step(state: EnsureState, event: EnsureEvent) -> EnsureState {
    match (state, event) {
        (EnsureState::CheckCache, EnsureEvent::Verified(v)) => if v == IntegrityOutcome::Match {
            EnsureState::Done(EnsureOutcome::Ready)
        } else {
            EnsureState::FetchPlain
        },
        (EnsureState::FetchPlain, EnsureEvent::Fetched(f)) => match f {
            FetchOutcome::Success => EnsureState::VerifyPlain,
            FetchOutcome::NotFound => EnsureState::Done(EnsureOutcome::NoData),
            FetchOutcome::TransientError => EnsureState::Done(EnsureOutcome::NetworkFailure),
        },
        (EnsureState::VerifyPlain, EnsureEvent::Verified(v)) => if v == IntegrityOutcome::Match {
            EnsureState::Done(EnsureOutcome::Ready)
        } else {
            EnsureState::FetchForce
        },
        (EnsureState::FetchForce, EnsureEvent::Fetched(f)) => match f {
            FetchOutcome::Success => EnsureState::VerifyForce,
            FetchOutcome::NotFound => EnsureState::Done(EnsureOutcome::NoData),
            FetchOutcome::TransientError => EnsureState::Done(EnsureOutcome::NetworkFailure),
        },
        (EnsureState::VerifyForce, EnsureEvent::Verified(v)) => if v == IntegrityOutcome::Match {
            EnsureState::Done(EnsureOutcome::Ready)
        } else {
            EnsureState::Done(EnsureOutcome::IntegrityFailure)
        },
        _ => state,
    }
}

/// The action the caller must perform in `state`.
pub fn ensure_action(state: &EnsureState) -> (r: EnsureAction)
    ensures
        r == spec_ensure_action(*state),
{
    match state {
        EnsureState::CheckCache => EnsureAction::Verify,
        EnsureState::FetchPlain => EnsureAction::Fetch { overwrite: false },
        EnsureState::VerifyPlain => EnsureAction::Verify,
        EnsureState::FetchForce => EnsureAction::Fetch { overwrite: true },
        EnsureState::VerifyForce => EnsureAction::Verify,
        EnsureState::Done(_) => EnsureAction::Stop,
    }
}

/// Advances one archive's protocol on the outcome the caller reports.
pub fn ensure_step(state: &EnsureState, event: &EnsureEvent) -> (r: EnsureState)
    ensures
        r == spec_ensure_step(*state, *event),
{
    match (state, event) {
        (EnsureState::CheckCache, EnsureEvent::Verified(v)) => {
            if *v == IntegrityOutcome::Match {
                EnsureState::Done(EnsureOutcome::Ready)
            } else {
                EnsureState::FetchPlain
            }
        },
        (EnsureState::FetchPlain, EnsureEvent::Fetched(f)) => match f {
            FetchOutcome::Success => EnsureState::VerifyPlain,
            FetchOutcome::NotFound => EnsureState::Done(EnsureOutcome::NoData),
            FetchOutcome::TransientError => EnsureState::Done(EnsureOutcome::NetworkFailure),
        },
        (EnsureState::VerifyPlain, EnsureEvent::Verified(v)) => {
            if *v == IntegrityOutcome::Match {
                EnsureState::Done(EnsureOutcome::Ready)
            } else {
                EnsureState::FetchForce
            }
        },
        (EnsureState::FetchForce, EnsureEvent::Fetched(f)) => match f {
            FetchOutcome::Success => EnsureState::VerifyForce,
            FetchOutcome::NotFound => EnsureState::Done(EnsureOutcome::NoData),
            FetchOutcome::TransientError => EnsureState::Done(EnsureOutcome::NetworkFailure),
        },
        (EnsureState::VerifyForce, EnsureEvent::Verified(v)) => {
            if *v == IntegrityOutcome::Match {
                EnsureState::Done(EnsureOutcome::Ready)
            } else {
                EnsureState::Done(EnsureOutcome::IntegrityFailure)
            }
        },
        _ => *state,
    }
}

/// The inclusive month range an asset was successfully ingested for.
#[derive(Clone, Copy, Debug, PartialEq, Eq, Structural)]
pub struct CoveragePeriod {
    /// The earliest month whose archive was processed.
    pub start: MonthYear,
    /// The latest month attempted: the fixed end of the walk.
    pub end: MonthYear,
}

/// One asset's walk backward through the months.
#[derive(Clone, Copy, Debug, PartialEq, Eq, Structural)]
pub struct WalkState {
    /// The month about to be attempted.
    pub current: MonthYear,
    /// The fixed latest month, where the walk began.
    pub end: MonthYear,
    /// The earliest month processed so far, if any.
    pub earliest: Option<MonthYear>,
}

/// How downloading and extracting one month's archive went.
#[derive(Clone, Copy, Debug, PartialEq, Eq, Structural)]
pub enum MonthOutcome {
    /// The archive was downloaded, verified and extracted.
    Processed,
    /// The store has no archive for this month.
    NoData,
    /// Download or extraction failed for good.
    Failed,
}

/// Where one asset's pipeline stands.
#[derive(Clone, Copy, Debug, PartialEq, Eq, Structural)]
pub enum WalkStatus {
    /// Still walking; the state says which month comes next.
    Scanning(WalkState),
    /// The walk ended normally. `None` means the store had no data for
    /// the asset at all.
    Completed(Option<CoveragePeriod>),
    /// The walk ended on an error for this asset.
    Failed,
}

/// The pipeline's transition on one month's outcome. No data at the
/// very first month means the asset has no data at all; no data later
/// closes the coverage at the earliest processed month. A processed
/// month at the platform's birth month ends the walk; otherwise the
/// walk steps one month back.
pub open spec fn spec_walk_step(st: WalkState, outcome: MonthOutcome, birth_year: i32) -> WalkStatus {
    match outcome {
        MonthOutcome::Failed => WalkStatus::Failed,
        MonthOutcome::NoData => match st.earliest {
            Option::None => WalkStatus::Completed(Option::None),
            Option::Some(e) => WalkStatus::Completed(
                Option::Some(CoveragePeriod { start: e, end: st.end }),
            ),
        },
        MonthOutcome::Processed => {
            if st.current.year == birth_year && st.current.month == 1 {
                WalkStatus::Completed(
                    Option::Some(CoveragePeriod { start: st.current, end: st.end }),
                )
            } else {
                WalkStatus::Scanning(
                    WalkState {
                        current: st.current.spec_prev(),
                        end: st.end,
                        earliest: Option::Some(st.current),
                    },
                )
            }
        },
    }
}

/// Advances one asset's walk on the outcome of the month at hand.
pub fn walk_step(st: &WalkState, outcome: &MonthOutcome, birth_year: i32) -> (r: WalkStatus)
    requires
        st.current.wf(),
        st.current.year >= birth_year,
        birth_year > i32::MIN,
    ensures
        r == spec_walk_step(*st, *outcome, birth_year),
        r matches WalkStatus::Scanning(n) ==> n.current.wf() && n.current.year >= birth_year - 1,
{
    match outcome {
        MonthOutcome::Failed => WalkStatus::Failed,
        MonthOutcome::NoData => match st.earliest {
            Option::None => WalkStatus::Completed(Option::None),
            Option::Some(e) => WalkStatus::Completed(
                Option::Some(CoveragePeriod { start: e, end: st.end }),
            ),
        },
        MonthOutcome::Processed => {
            if st.current.get_year() == birth_year && st.current.get_month() == 1 {
                WalkStatus::Completed(
                    Option::Some(CoveragePeriod { start: st.current, end: st.end }),
                )
            } else {
                WalkStatus::Scanning(
                    WalkState {
                        current: st.current.prev(),
                        end: st.end,
                        earliest: Option::Some(st.current),
                    },
                )
            }
        },
    }
}

/// The walk folded over a whole sequence of monthly outcomes.
pub open spec fn spec_walk_run(st: WalkState, outcomes: Seq<MonthOutcome>, birth_year: i32) -> WalkStatus
    decreases outcomes.len(),
{
    if outcomes.len() == 0 {
        WalkStatus::Scanning(st)
    } else {
        match spec_walk_step(st, outcomes[0], birth_year) {
            WalkStatus::Scanning(next) => spec_walk_run(next, outcomes.drop_first(), birth_year),
            done => done,
        }
    }
}

/// The fresh walk for an asset whose latest month is `end`.
pub open spec fn spec_walk_start(end: MonthYear) -> WalkState {
    WalkState { current: end, end: end, earliest: Option::None }
}

/// What holds of every reachable walk state: the walk never runs past
/// its fixed end, never before the birth year, and the earliest month
/// recorded so far sits between the current month and the end.
pub open spec fn walk_state_inv(st: WalkState, end: MonthYear, birth_year: i32) -> bool {
    &&& st.end == end
    &&& st.current.wf()
    &&& birth_year <= st.current.year
    &&& st.current.spec_le(end)
    &&& match st.earliest {
        Option::None => true,
        Option::Some(e) => st.current.spec_le(e) && e.spec_le(end) && e.wf(),
    }
}

proof fn lemma_walk_run_coverage(
    st: WalkState,
    events: Seq<MonthOutcome>,
    birth_year: i32,
    end: MonthYear,
)
    requires
        birth_year > i32::MIN,
        walk_state_inv(st, end, birth_year),
    ensures
        spec_walk_run(st, events, birth_year) matches WalkStatus::Completed(Some(c)) ==> {
            &&& c.start.wf()
            &&& c.start.spec_le(c.end)
            &&& c.end == end
        },
    decreases events.len(),
{
    if events.len() > 0 {
        match spec_walk_step(st, events[0], birth_year) {
            WalkStatus::Scanning(next) => {
                assert(walk_state_inv(next, end, birth_year)) by {
                    assert(next.current == st.current.spec_prev());
                    assert(st.current.spec_prev().spec_le(st.current));
                }
                lemma_walk_run_coverage(next, events.drop_first(), birth_year, end);
            },
            _ => {},
        }
    }
}

/// Law: however a walk that began at `end` plays out, a completed
/// coverage period runs forward in time and closes at `end`.
pub proof fn lemma_walk_coverage_ordered(end: MonthYear, events: Seq<MonthOutcome>, birth_year: i32)
    requires
        end.wf(),
        birth_year > i32::MIN,
        birth_year <= end.year,
    ensures
        spec_walk_run(spec_walk_start(end), events, birth_year) matches WalkStatus::Completed(
            Some(c),
        ) ==> {
            &&& c.start.wf()
            &&& c.start.spec_le(c.end)
            &&& c.end == end
        },
{
    lemma_walk_run_coverage(spec_walk_start(end), events, birth_year, end);
}

/// Law: an asset whose archives exist for the three months up to `m`
/// and whose store answers "not found" one month earlier completes
/// with coverage from two months before `m` up to `m`.
pub proof fn lemma_three_months_then_not_found(m: MonthYear, birth_year: i32)
    requires
        m.wf(),
        birth_year > i32::MIN,
        m.spec_prev().spec_prev().year >= birth_year,
        !(m.year == birth_year && m.month == 1),
        !(m.spec_prev().year == birth_year && m.spec_prev().month == 1),
    ensures
        spec_walk_run(
            spec_walk_start(m),
            seq![
                MonthOutcome::Processed,
                MonthOutcome::Processed,
                MonthOutcome::Processed,
                MonthOutcome::NoData,
            ],
            birth_year,
        ) == WalkStatus::Completed(
            Option::Some(CoveragePeriod { start: m.spec_prev().spec_prev(), end: m }),
        ),
{
    let b = birth_year;
    let events = seq![
        MonthOutcome::Processed,
        MonthOutcome::Processed,
        MonthOutcome::Processed,
        MonthOutcome::NoData,
    ];
    let e1 = seq![MonthOutcome::Processed, MonthOutcome::Processed, MonthOutcome::NoData];
    let e2 = seq![MonthOutcome::Processed, MonthOutcome::NoData];
    let e3 = seq![MonthOutcome::NoData];
    assert(events.drop_first() =~= e1);
    assert(e1.drop_first() =~= e2);
    assert(e2.drop_first() =~= e3);
    let st0 = spec_walk_start(m);
    let st1 = WalkState { current: m.spec_prev(), end: m, earliest: Option::Some(m) };
    let m2 = m.spec_prev().spec_prev();
    let st2 = WalkState { current: m2, end: m, earliest: Option::Some(m.spec_prev()) };
    assert(spec_walk_step(st0, events[0], b) == WalkStatus::Scanning(st1));
    assert(spec_walk_run(st0, events, b) == spec_walk_run(st1, e1, b));
    assert(spec_walk_step(st1, e1[0], b) == WalkStatus::Scanning(st2));
    assert(spec_walk_run(st1, e1, b) == spec_walk_run(st2, e2, b));
    if m2.year == b && m2.month == 1 {
        assert(spec_walk_step(st2, e2[0], b) == WalkStatus::Completed(
            Option::Some(CoveragePeriod { start: m2, end: m }),
        ));
        assert(spec_walk_run(st2, e2, b) == WalkStatus::Completed(
            Option::Some(CoveragePeriod { start: m2, end: m }),
        ));
    } else {
        let st3 = WalkState { current: m2.spec_prev(), end: m, earliest: Option::Some(m2) };
        assert(spec_walk_step(st2, e2[0], b) == WalkStatus::Scanning(st3));
        assert(spec_walk_run(st2, e2, b) == spec_walk_run(st3, e3, b));
        assert(spec_walk_step(st3, e3[0], b) == WalkStatus::Completed(
            Option::Some(CoveragePeriod { start: m2, end: m }),
        ));
        assert(spec_walk_run(st3, e3, b) == WalkStatus::Completed(
            Option::Some(CoveragePeriod { start: m2, end: m }),
        ));
    }
}

/// Law: a cached archive that already verifies ends the protocol at
/// once, and the finished protocol never asks for a fetch — so no
/// network call is made at all.
pub proof fn lemma_cached_archive_no_fetch()
    ensures
        spec_ensure_step(
            EnsureState::CheckCache,
            EnsureEvent::Verified(IntegrityOutcome::Match),
        ) == EnsureState::Done(EnsureOutcome::Ready),
        spec_ensure_action(EnsureState::CheckCache) == EnsureAction::Verify,
        forall|o: EnsureOutcome|
            spec_ensure_action(EnsureState::Done(o)) == EnsureAction::Stop,
        forall|o: EnsureOutcome, e: EnsureEvent|
            spec_ensure_step(EnsureState::Done(o), e) == EnsureState::Done(o),
{
}

} // verus!
