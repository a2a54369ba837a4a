//! Per-asset run data: the asset, the granularity, the fixed end month
//! of the walk and the start month recorded once the walk is done.
//!
//! The end month is "two months before now": the platform publishes a
//! month's archive only some time after the month closed, so the walk
//! starts at the latest month sure to exist.

use vstd::prelude::*;
use chrono::Datelike;
use crate::utils::month_year::MonthYear;

verus! {

/// Relies on chrono's `Local::now` with `Datelike::year` and
/// `Datelike::month`: the month is 1 to 12, and chrono's years stay
/// within about plus or minus 262000.
#[verifier::external_body]
fn now_year_month() -> (r: (i32, u32))
    ensures
        1 <= r.1 <= 12,
        -262144 <= r.0 <= 262143,
{
    let now = chrono::Local::now();
    (now.year(), now.month())
}

/// The month two months before the given one.
pub open spec fn spec_end_date(year: int, month: int) -> MonthYear {
    if month <= 2 {
        MonthYear {
            month: if month == 2 {
                12
            } else {
                11
            },
            year: (year - 1) as i32,
        }
    } else {
        MonthYear { month: (month - 2) as u8, year: year as i32 }
    }
}

/// Two months before the given month, wrapping over the year boundary.
pub fn end_date_from(year: i32, month: u32) -> (r: MonthYear)
    requires
        1 <= month <= 12,
        year > i32::MIN,
    ensures
        r == spec_end_date(year as int, month as int),
        r.wf(),
{
    if month <= 2 {
        let new_month: u8 = if month == 2 {
            12
        } else {
            11
        };
        MonthYear::new(new_month, year - 1)
    } else {
        MonthYear::new((month - 2) as u8, year)
    }
}

/// The walk's fixed end month, two months before the current date.
pub fn get_end_date() -> (r: MonthYear)
    ensures
        r.wf(),
{
    let (year, month) = now_year_month();
    end_date_from(year, month)
}

/// What one asset's pipeline works on.
#[derive(Clone)]
pub struct ProcessData {
    pub granularity: String,
    pub asset: String,
    pub start: Option<MonthYear>,
    pub end: MonthYear,
}

impl ProcessData {
    pub fn new(granularity: &str, asset: &str, start: Option<MonthYear>) -> (r: ProcessData)
        ensures
            r.granularity@ == granularity@,
            r.asset@ == asset@,
            r.start == start,
            r.end.wf(),
    {
        let end = get_end_date();
        ProcessData { granularity: granularity.to_owned(), asset: asset.to_owned(), start, end }
    }

    pub fn get_start(&self) -> (r: Option<MonthYear>)
        ensures
            r == self.start,
    {
        self.start
    }

    pub fn set_start(&mut self, start: MonthYear)
        ensures
            final(self).start == Option::Some(start),
            final(self).granularity == old(self).granularity,
            final(self).asset == old(self).asset,
            final(self).end == old(self).end,
    {
        self.start = Some(start);
    }

    pub fn get_end(&self) -> (r: MonthYear)
        ensures
            r == self.end,
    {
        self.end
    }

    pub fn get_asset(&self) -> (r: String)
        ensures
            r@ == self.asset@,
    {
        self.asset.clone()
    }

    pub fn get_granularity(&self) -> (r: String)
        ensures
            r@ == self.granularity@,
    {
        self.granularity.clone()
    }
}

} // verus!
