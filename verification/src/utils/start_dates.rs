//! The per-asset start dates remembered between runs: once an asset's
//! earliest month is known, later runs need not walk past it again.
//! Loading and saving the backing file is the caller's business.

use vstd::prelude::*;
use crate::utils::assoc::{assoc_get, lemma_assoc_get_update, lemma_assoc_get_push};
use crate::utils::month_year::MonthYear;
use crate::utils::text::str_eq;

verus! {

/// The known start month of each asset.
pub struct StartDates {
    pub start_dates: Vec<(String, MonthYear)>,
}

impl StartDates {
    pub fn new() -> (r: StartDates)
        ensures
            r.start_dates@ == Seq::<(String, MonthYear)>::empty(),
    {
        StartDates { start_dates: Vec::new() }
    }

    /// The start month recorded for `asset`, if any.
    pub fn get_start_date(&self, asset: &str) -> (r: Option<MonthYear>)
        ensures
            r == assoc_get(self.start_dates@, asset@),
    {
        let mut i: usize = 0;
        proof {
            assert(self.start_dates@.skip(0) =~= self.start_dates@);
        }
        while i < self.start_dates.len()
            invariant
                i <= self.start_dates@.len(),
                assoc_get(self.start_dates@.skip(i as int), asset@) == assoc_get(
                    self.start_dates@,
                    asset@,
                ),
            decreases self.start_dates@.len() - i,
        {
            let ghost rest = self.start_dates@.skip(i as int);
            proof {
                assert(rest[0] == self.start_dates@[i as int]);
            }
            if str_eq(self.start_dates[i].0.as_str(), asset) {
                return Some(self.start_dates[i].1);
            }
            i += 1;
            proof {
                assert(rest.drop_first() =~= self.start_dates@.skip(i as int));
            }
        }
        proof {
            assert(self.start_dates@.skip(self.start_dates@.len() as int) =~= Seq::<(
                String,
                MonthYear,
            )>::empty());
        }
        None
    }

    /// Binds `asset` to `month_year`, replacing any earlier binding.
    pub fn set_start_date(&mut self, asset: &str, month_year: MonthYear)
        ensures
            assoc_get(final(self).start_dates@, asset@) == Option::Some(month_year),
            forall|key: Seq<char>| key != asset@ ==> assoc_get(final(self).start_dates@, key)
                == assoc_get(old(self).start_dates@, key),
    {
        let mut i: usize = 0;
        while i < self.start_dates.len()
            invariant
                i <= self.start_dates@.len(),
                forall|k: int| 0 <= k < i ==> (#[trigger] self.start_dates@[k]).0@ != asset@,
                *self == *old(self),
            decreases self.start_dates@.len() - i,
        {
            if str_eq(self.start_dates[i].0.as_str(), asset) {
                self.start_dates[i].1 = month_year;
                proof {
                    lemma_assoc_get_update(
                        old(self).start_dates@,
                        self.start_dates@,
                        i as int,
                        asset@,
                    );
                }
                return ;
            }
            i += 1;
        }
        let entry = (asset.to_owned(), month_year);
        proof {
            lemma_assoc_get_push(old(self).start_dates@, (entry.0, entry.1), asset@);
        }
        self.start_dates.push(entry);
    }
}

} // verus!
