//! Run settings: the granularity table and command-line flag lookup.
//!
//! Granularity labels map to the fixed millisecond delta between two
//! consecutive records ("ts factor"); an unknown label is a
//! configuration error, caught before anything is fetched.

use vstd::prelude::*;
use crate::utils::text::str_eq;

verus! {

/// The settings one run works under.
pub struct Settings {
    pub granularity: String,
    pub assets: Vec<String>,
}

/// The millisecond delta between two records of the given granularity;
/// `None` for a label the platform does not publish.
pub open spec fn spec_ts_factor(g: Seq<char>) -> Option<u64> {
    if g == "1s"@ {
        Option::Some(1000)
    } else if g == "1m"@ {
        Option::Some(60000)
    } else if g == "3m"@ {
        Option::Some(180000)
    } else if g == "5m"@ {
        Option::Some(300000)
    } else if g == "15m"@ {
        Option::Some(900000)
    } else if g == "30m"@ {
        Option::Some(1800000)
    } else if g == "1h"@ {
        Option::Some(3600000)
    } else if g == "2h"@ {
        Option::Some(7200000)
    } else if g == "4h"@ {
        Option::Some(14400000)
    } else if g == "6h"@ {
        Option::Some(21600000)
    } else if g == "8h"@ {
        Option::Some(28800000)
    } else if g == "12h"@ {
        Option::Some(43200000)
    } else if g == "1d"@ {
        Option::Some(86400000)
    } else {
        Option::None
    }
}

/// Looks the granularity label up in the platform's table.
pub fn ts_factor_of(granularity: &str) -> (r: Option<u64>)
    ensures
        r == spec_ts_factor(granularity@),
{
    if str_eq(granularity, "1s") {
        Option::Some(1000)
    } else if str_eq(granularity, "1m") {
        Option::Some(60000)
    } else if str_eq(granularity, "3m") {
        Option::Some(180000)
    } else if str_eq(granularity, "5m") {
        Option::Some(300000)
    } else if str_eq(granularity, "15m") {
        Option::Some(900000)
    } else if str_eq(granularity, "30m") {
        Option::Some(1800000)
    } else if str_eq(granularity, "1h") {
        Option::Some(3600000)
    } else if str_eq(granularity, "2h") {
        Option::Some(7200000)
    } else if str_eq(granularity, "4h") {
        Option::Some(14400000)
    } else if str_eq(granularity, "6h") {
        Option::Some(21600000)
    } else if str_eq(granularity, "8h") {
        Option::Some(28800000)
    } else if str_eq(granularity, "12h") {
        Option::Some(43200000)
    } else if str_eq(granularity, "1d") {
        Option::Some(86400000)
    } else {
        Option::None
    }
}

/// Whether the label names a supported granularity.
pub fn check_granularity(granularity: &str) -> (r: bool)
    ensures
        r == (spec_ts_factor(granularity@) is Some),
{
    ts_factor_of(granularity).is_some()
}

/// The value following the first occurrence of `name`, or `default`
/// when `name` is absent or stands last.
pub open spec fn spec_flag_value(args: Seq<String>, name: Seq<char>, default: Seq<char>) -> Seq<
    char,
>
    decreases args.len(),
{
    if args.len() == 0 {
        default
    } else if args[0]@ == name {
        if args.len() >= 2 {
            args[1]@
        } else {
            default
        }
    } else {
        spec_flag_value(args.drop_first(), name, default)
    }
}

/// Reads one command-line flag: the argument right after the first one
/// equal to `name`, or `default`.
pub fn get_flag(args: &Vec<String>, name: &str, default: &str) -> (r: String)
    ensures
        r@ == spec_flag_value(args@, name@, default@),
{
    let mut i: usize = 0;
    proof {
        assert(args@.skip(0) =~= args@);
    }
    while i < args.len()
        invariant
            i <= args@.len(),
            spec_flag_value(args@.skip(i as int), name@, default@) == spec_flag_value(
                args@,
                name@,
                default@,
            ),
        decreases args@.len() - i,
    {
        let ghost rest = args@.skip(i as int);
        if str_eq(args[i].as_str(), name) {
            proof {
                assert(rest[0] == args@[i as int]);
                if rest.len() >= 2 {
                    assert(rest[1] == args@[i + 1]);
                }
            }
            if i + 1 < args.len() {
                return args[i + 1].clone();
            } else {
                return name_default(default);
            }
        }
        i += 1;
        proof {
            assert(rest.drop_first() =~= args@.skip(i as int));
        }
    }
    proof {
        assert(args@.skip(args@.len() as int) =~= Seq::<String>::empty());
    }
    name_default(default)
}

fn name_default(default: &str) -> (r: String)
    ensures
        r@ == default@,
{
    default.to_owned()
}

} // verus!
