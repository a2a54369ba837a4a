//! A calendar month: the unit in which archives are published.

use vstd::prelude::*;
use crate::utils::text::dec_chars;

verus! {

/// One month of one year. Archives are addressed by such a value, and
/// an asset's coverage is an inclusive range of them.
#[derive(Clone, Copy, Debug, PartialEq, Eq, Structural)]
pub struct MonthYear {
    pub month: u8,
    pub year: i32,
}

impl MonthYear {
    /// Month numbers run from 1 (January) to 12 (December).
    pub open spec fn wf(self) -> bool {
        1 <= self.month <= 12
    }

    /// Total order by year, then month.
    pub open spec fn spec_le(self, other: MonthYear) -> bool {
        self.year < other.year || (self.year == other.year && self.month <= other.month)
    }

    /// The month right before `self` in calendar order.
    pub open spec fn spec_prev(self) -> MonthYear {
        if self.month == 1 {
            MonthYear { month: 12, year: (self.year - 1) as i32 }
        } else {
            MonthYear { month: (self.month - 1) as u8, year: self.year }
        }
    }

    /// The two-character month number used in file names: "01" to "12".
    pub open spec fn spec_month_chars(self) -> Seq<char> {
        if self.month < 10 {
            seq!['0'] + dec_chars(self.month as nat)
        } else {
            dec_chars(self.month as nat)
        }
    }

    pub fn new(month: u8, year: i32) -> (r: MonthYear)
        requires
            1 <= month <= 12,
        ensures
            r == (MonthYear { month, year }),
            r.wf(),
    {
        MonthYear { month, year }
    }

    pub fn get_month(&self) -> (r: u8)
        ensures
            r == self.month,
    {
        self.month
    }

    pub fn get_year(&self) -> (r: i32)
        ensures
            r == self.year,
    {
        self.year
    }

    /// The month number padded to two digits, as it appears in archive names.
    pub fn get_month_string(&self) -> (r: String)
        requires
            self.wf(),
        ensures
            r@ == self.spec_month_chars(),
    {
        let mut s = if self.month < 10 {
            String::from_str("0")
        } else {
            String::new()
        };
        proof {
            reveal_strlit("0");
        }
        s.append(crate::utils::text::u64_to_string(self.month as u64).as_str());
        proof {
            if self.month >= 10 {
                assert(s@ =~= self.spec_month_chars());
            } else {
                assert(s@ =~= self.spec_month_chars());
            }
        }
        s
    }

    /// Whether `self` comes no later than `other` in calendar order.
    pub fn le(&self, other: &MonthYear) -> (r: bool)
        ensures
            r == self.spec_le(*other),
    {
        self.year < other.year || (self.year == other.year && self.month <= other.month)
    }

    /// The month right after `self` in calendar order.
    pub open spec fn spec_next(self) -> MonthYear {
        if self.month == 12 {
            MonthYear { month: 1, year: (self.year + 1) as i32 }
        } else {
            MonthYear { month: (self.month + 1) as u8, year: self.year }
        }
    }

    /// Steps one month back, wrapping over year boundaries.
    pub fn prev(&self) -> (r: MonthYear)
        requires
            self.wf(),
            self.year > i32::MIN,
        ensures
            r == self.spec_prev(),
            r.wf(),
    {
        if self.month == 1 {
            MonthYear { month: 12, year: self.year - 1 }
        } else {
            MonthYear { month: self.month - 1, year: self.year }
        }
    }
}

/// Law: stepping a month back and forward are inverse, away from the
/// numeric edges of the year type.
pub proof fn lemma_prev_next_inverse(m: MonthYear)
    requires
        m.wf(),
        i32::MIN < m.year < i32::MAX,
    ensures
        m.spec_prev().spec_next() == m,
        m.spec_next().spec_prev() == m,
{
}

/// The months from `start` to `end`, both inclusive, in calendar
/// order.
pub fn months_between(start: &MonthYear, end: &MonthYear) -> (r: Vec<MonthYear>)
    requires
        start.wf(),
        end.wf(),
        start.spec_le(*end),
        end.year < i32::MAX,
    ensures
        r@.len() > 0,
        r@[0] == *start,
        r@[r@.len() - 1] == *end,
        forall|i: int| 0 <= i < r@.len() - 1 ==> (#[trigger] r@[i + 1]) == r@[i].spec_next(),
        forall|i: int| 0 <= i < r@.len() ==> (#[trigger] r@[i]).wf(),
{
    let mut r: Vec<MonthYear> = Vec::new();
    let mut cur = *start;
    r.push(cur);
    while cur.month != end.month || cur.year != end.year
        invariant
            start.wf(),
            end.wf(),
            end.year < i32::MAX,
            cur.wf(),
            cur.spec_le(*end),
            r@.len() > 0,
            r@[0] == *start,
            r@[r@.len() - 1] == cur,
            forall|i: int| 0 <= i < r@.len() - 1 ==> (#[trigger] r@[i + 1]) == r@[i].spec_next(),
            forall|i: int| 0 <= i < r@.len() ==> (#[trigger] r@[i]).wf(),
        decreases (end.year - cur.year) * 12 + end.month - cur.month,
    {
        cur = if cur.month == 12 {
            MonthYear { month: 1, year: cur.year + 1 }
        } else {
            MonthYear { month: cur.month + 1, year: cur.year }
        };
        r.push(cur);
    }
    r
}

} // verus!
