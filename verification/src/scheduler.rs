//! Aggregation of per-asset outcomes into the manifest.
//!
//! Pipelines for different assets run independently and finish in any
//! order; each outcome is folded into the run's aggregate state as it
//! arrives. A completed asset contributes its coverage period, its
//! down times and possibly a new start date; a failed asset lands in
//! the failure list and touches nothing else.

use vstd::prelude::*;
use crate::utils::assoc::assoc_get;
use crate::utils::errors::ScrapperError;
use crate::utils::manifest::{Manifest, TimePeriod};
use crate::utils::month_year::MonthYear;
use crate::utils::start_dates::StartDates;

verus! {

/// What one asset's pipeline hands back when it completes.
pub struct ProcessResult {
    /// The down-time intervals found across all extracted months.
    pub down_times: Vec<TimePeriod>,
    /// The covered period, first to last extracted timestamp.
    pub time_period: TimePeriod,
    /// The asset's earliest month, when the walk found one.
    pub start_date: Option<MonthYear>,
}

/// One interval added to the list unless an identical one is there.
pub open spec fn spec_add_down(dts: Seq<TimePeriod>, p: TimePeriod) -> Seq<TimePeriod> {
    if dts.contains(p) {
        dts
    } else {
        dts.push(p)
    }
}

/// All of `ps` added in order, each unless already present.
pub open spec fn spec_add_all(dts: Seq<TimePeriod>, ps: Seq<TimePeriod>) -> Seq<TimePeriod>
    decreases ps.len(),
{
    if ps.len() == 0 {
        dts
    } else {
        spec_add_all(spec_add_down(dts, ps[0]), ps.drop_first())
    }
}

/// Folds one asset's outcome into the run's aggregate state. A failure
/// is recorded and changes nothing else; a completed result binds the
/// asset's coverage period, adds its down times, and records its start
/// date when one was found.
pub fn record_result(
    manifest: &mut Manifest,
    start_dates: &mut StartDates,
    failures: &mut Vec<(String, ScrapperError)>,
    asset: &str,
    result: Result<ProcessResult, ScrapperError>,
)
    ensures
        match result {
            Err(e) => {
                &&& final(failures)@.len() == old(failures)@.len() + 1
                &&& final(failures)@.last().0@ == asset@
                &&& final(failures)@.drop_last() == old(failures)@
                &&& *final(manifest) == *old(manifest)
                &&& *final(start_dates) == *old(start_dates)
            },
            Ok(res) => {
                &&& final(failures)@ == old(failures)@
                &&& assoc_get(final(manifest).assets@, asset@) == Option::Some(res.time_period)
                &&& forall|key: Seq<char>|
                    key != asset@ ==> assoc_get(final(manifest).assets@, key) == assoc_get(
                        old(manifest).assets@,
                        key,
                    )
                &&& final(manifest).down_times@ == spec_add_all(
                    old(manifest).down_times@,
                    res.down_times@,
                )
                &&& final(manifest).granularity@ == old(manifest).granularity@
                &&& (match res.start_date {
                    Option::Some(start) => assoc_get(final(start_dates).start_dates@, asset@)
                        == Option::Some(start) && forall|key: Seq<char>|
                        key != asset@ ==> assoc_get(final(start_dates).start_dates@, key)
                            == assoc_get(old(start_dates).start_dates@, key),
                    Option::None => *final(start_dates) == *old(start_dates),
                })
            },
        },
{
    match result {
        Err(e) => {
            failures.push((asset.to_owned(), e));
        },
        Ok(res) => {
            manifest.add_asset(asset, res.time_period);
            if let Some(start) = res.start_date {
                start_dates.set_start_date(asset, start);
            }
            let ghost base = manifest.down_times@;
            let ghost entry_assets = manifest.assets@;
            let ghost entry_gran = manifest.granularity@;
            let ghost all = res.down_times@;
            let mut i: usize = 0;
            proof {
                assert(all.skip(0) =~= all);
            }
            while i < res.down_times.len()
                invariant
                    i <= all.len(),
                    res.down_times@ == all,
                    spec_add_all(manifest.down_times@, all.skip(i as int)) == spec_add_all(
                        base,
                        all,
                    ),
                    manifest.assets@ == entry_assets,
                    manifest.granularity@ == entry_gran,
                decreases all.len() - i,
            {
                let ghost rest = all.skip(i as int);
                proof {
                    assert(rest[0] == all[i as int]);
                }
                manifest.add_down_time(res.down_times[i]);
                i += 1;
                proof {
                    assert(rest.drop_first() =~= all.skip(i as int));
                }
            }
            proof {
                assert(all.skip(all.len() as int) =~= Seq::<TimePeriod>::empty());
            }
        },
    }
}

} // verus!
