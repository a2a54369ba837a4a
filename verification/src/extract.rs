//! Extraction of the per-archive time series: parsing rows, enforcing
//! timestamp order, and detecting coverage gaps.
//!
//! A month's records must be non-decreasing in time. Between two
//! consecutive records, a down-time interval is reported when the step
//! exceeds the granularity's millisecond factor, or when the later
//! timestamp is not aligned on that factor.

use vstd::prelude::*;
use crate::utils::errors::ScrapperError;
use crate::utils::manifest::TimePeriod;

verus! {

/// Timestamps never go backwards within one extracted series.
pub open spec fn ts_nondecreasing(ts: Seq<u64>) -> bool {
    forall|i: int| 0 <= i < ts.len() - 1 ==> #[trigger] ts[i] <= ts[i + 1]
}

/// Whether the step from `last` to `cur` opens a down-time interval:
/// either the step is wider than one sampling interval, or `cur` sits
/// off the sampling grid.
pub open spec fn step_is_gap(last: u64, cur: u64, factor: u64) -> bool {
    cur - last > factor || cur % factor != 0
}

/// The down-time intervals found walking `ts` with `last` as the
/// timestamp seen right before it.
pub open spec fn gaps_from(last: u64, ts: Seq<u64>, factor: u64) -> Seq<TimePeriod>
    decreases ts.len(),
{
    if ts.len() == 0 {
        Seq::empty()
    } else {
        let rest = gaps_from(ts[0], ts.drop_first(), factor);
        if step_is_gap(last, ts[0], factor) {
            seq![TimePeriod { start: last, end: ts[0] }] + rest
        } else {
            rest
        }
    }
}

/// The down-time intervals of a whole series: the first record seeds
/// the walk and never opens an interval by itself.
pub open spec fn gaps_spec(ts: Seq<u64>, factor: u64) -> Seq<TimePeriod> {
    if ts.len() == 0 {
        Seq::empty()
    } else {
        gaps_from(ts[0], ts.drop_first(), factor)
    }
}

/// Every reported down-time interval runs forward in time.
pub proof fn lemma_gaps_from_wf(last: u64, ts: Seq<u64>, factor: u64)
    requires
        ts.len() > 0 ==> last <= ts[0],
        forall|i: int| #![trigger ts[i]] 0 <= i < ts.len() - 1 ==> ts[i] <= ts[i + 1],
    ensures
        forall|k: int|
            0 <= k < gaps_from(last, ts, factor).len() ==> (#[trigger] gaps_from(
                last,
                ts,
                factor,
            )[k]).wf(),
    decreases ts.len(),
{
    if ts.len() > 0 {
        assert forall|i: int| #![trigger ts.drop_first()[i]] 0 <= i < ts.drop_first().len()
            - 1 implies ts.drop_first()[i] <= ts.drop_first()[i + 1] by {
            assert(ts.drop_first()[i] == ts[i + 1]);
            assert(ts.drop_first()[i + 1] == ts[i + 2]);
        }
        lemma_gaps_from_wf(ts[0], ts.drop_first(), factor);
        let g = gaps_from(last, ts, factor);
        let rest = gaps_from(ts[0], ts.drop_first(), factor);
        assert forall|k: int| 0 <= k < g.len() implies (#[trigger] g[k]).wf() by {
            if step_is_gap(last, ts[0], factor) {
                if k > 0 {
                    assert(g[k] == rest[k - 1]);
                }
            } else {
                assert(g[k] == rest[k]);
            }
        }
    }
}

/// Law: every interval reported for a non-decreasing series is well
/// formed.
pub proof fn lemma_gaps_spec_wf(ts: Seq<u64>, factor: u64)
    requires
        ts_nondecreasing(ts),
    ensures
        forall|k: int|
            0 <= k < gaps_spec(ts, factor).len() ==> (#[trigger] gaps_spec(ts, factor)[k]).wf(),
{
    if ts.len() > 0 {
        assert forall|i: int| #![trigger ts.drop_first()[i]] 0 <= i < ts.drop_first().len()
            - 1 implies ts.drop_first()[i] <= ts.drop_first()[i + 1] by {
            assert(ts.drop_first()[i] == ts[i + 1]);
            assert(ts.drop_first()[i + 1] == ts[i + 2]);
        }
        lemma_gaps_from_wf(ts[0], ts.drop_first(), factor);
    }
}

proof fn lemma_step_aligned(last: u64, cur: u64, factor: u64)
    requires
        factor > 0,
        last % factor == 0,
        cur == last + factor,
    ensures
        cur % factor == 0,
        !step_is_gap(last, cur, factor),
{
    vstd::arithmetic::div_mod::lemma_add_mod_noop(last as int, factor as int, factor as int);
    vstd::arithmetic::div_mod::lemma_mod_self_0(factor as int);
    vstd::arithmetic::div_mod::lemma_small_mod(0, factor as nat);
}

proof fn lemma_gaps_from_even(last: u64, ts: Seq<u64>, factor: u64)
    requires
        factor > 0,
        last % factor == 0,
        ts.len() > 0 ==> ts[0] == last + factor,
        forall|i: int| #![trigger ts[i]] 0 <= i < ts.len() - 1 ==> ts[i + 1] == ts[i] + factor,
    ensures
        gaps_from(last, ts, factor) == Seq::<TimePeriod>::empty(),
    decreases ts.len(),
{
    if ts.len() > 0 {
        lemma_step_aligned(last, ts[0], factor);
        assert forall|i: int| #![trigger ts.drop_first()[i]] 0 <= i < ts.drop_first().len()
            - 1 implies ts.drop_first()[i + 1] == ts.drop_first()[i] + factor by {
            assert(ts.drop_first()[i] == ts[i + 1]);
            assert(ts.drop_first()[i + 1] == ts[i + 2]);
        }
        if ts.drop_first().len() > 0 {
            assert(ts.drop_first()[0] == ts[1]);
            assert(ts[1] == ts[0] + factor);
        }
        lemma_gaps_from_even(ts[0], ts.drop_first(), factor);
    }
}

/// Law: a series of evenly spaced records on the sampling grid has no
/// down time at all.
pub proof fn lemma_even_spacing_no_gaps(ts: Seq<u64>, factor: u64)
    requires
        factor > 0,
        ts.len() > 0,
        ts[0] % factor == 0,
        forall|i: int| #![trigger ts[i]] 0 <= i < ts.len() - 1 ==> ts[i + 1] == ts[i] + factor,
    ensures
        gaps_spec(ts, factor) == Seq::<TimePeriod>::empty(),
{
    assert forall|i: int| #![trigger ts.drop_first()[i]] 0 <= i < ts.drop_first().len()
        - 1 implies ts.drop_first()[i + 1] == ts.drop_first()[i] + factor by {
        assert(ts.drop_first()[i] == ts[i + 1]);
        assert(ts.drop_first()[i + 1] == ts[i + 2]);
    }
    if ts.drop_first().len() > 0 {
        assert(ts.drop_first()[0] == ts[1]);
        assert(ts[1] == ts[0] + factor);
    }
    lemma_gaps_from_even(ts[0], ts.drop_first(), factor);
}

proof fn lemma_gaps_from_break(last: u64, ts: Seq<u64>, factor: u64, p: int)
    requires
        factor > 0,
        last % factor == 0,
        ts.len() > 0,
        0 <= p < ts.len(),
        p == 0 ==> ts[0] > last + factor && ts[0] % factor == 0,
        p > 0 ==> ts[0] == last + factor,
        forall|i: int| #![trigger ts[i]] 1 <= i < ts.len() && i != p ==> ts[i] == ts[i - 1] + factor,
        p > 0 ==> ts[p] > ts[p - 1] + factor && ts[p] % factor == 0,
    ensures
        gaps_from(last, ts, factor) == seq![
            TimePeriod {
                start: if p == 0 {
                    last
                } else {
                    ts[p - 1]
                },
                end: ts[p],
            },
        ],
    decreases ts.len(),
{
    let rest = ts.drop_first();
    if p == 0 {
        assert(step_is_gap(last, ts[0], factor));
        assert forall|i: int| #![trigger rest[i]] 0 <= i < rest.len() - 1 implies rest[i + 1]
            == rest[i] + factor by {
            assert(rest[i] == ts[i + 1]);
            assert(rest[i + 1] == ts[i + 2]);
        }
        if rest.len() > 0 {
            assert(ts[1] == ts[0] + factor);
        }
        lemma_gaps_from_even(ts[0], rest, factor);
        assert(gaps_from(last, ts, factor) =~= seq![TimePeriod { start: last, end: ts[0] }]);
    } else {
        lemma_step_aligned(last, ts[0], factor);
        assert forall|i: int| #![trigger rest[i]] 1 <= i < rest.len() && i != p - 1 implies rest[i]
            == rest[i - 1] + factor by {
            assert(rest[i] == ts[i + 1]);
            assert(rest[i - 1] == ts[i as int]);
        }
        if p == 1 {
            assert(ts[1] > ts[0] + factor && ts[1] % factor == 0);
            assert(rest[0] > ts[0] + factor);
        } else {
            assert(ts[1] == ts[0] + factor);
            assert(rest[p - 1] > rest[p - 2] + factor && rest[p - 1] % factor == 0);
        }
        lemma_gaps_from_break(ts[0], rest, factor, p - 1);
        if p > 1 {
            assert(rest[p - 2] == ts[p - 1]);
        }
    }
}

/// Law: a series evenly spaced on the grid except for one wide step
/// reports exactly one down-time interval, spanning that step.
pub proof fn lemma_single_break_one_gap(ts: Seq<u64>, factor: u64, p: int)
    requires
        factor > 0,
        0 <= p < ts.len() - 1,
        ts[0] % factor == 0,
        forall|i: int| #![trigger ts[i]] 0 <= i < ts.len() - 1 && i != p ==> ts[i + 1] == ts[i] + factor,
        ts[p + 1] > ts[p] + factor,
        ts[p + 1] % factor == 0,
    ensures
        gaps_spec(ts, factor) == seq![TimePeriod { start: ts[p], end: ts[p + 1] }],
{
    let rest = ts.drop_first();
    assert forall|i: int| #![trigger rest[i]] 1 <= i < rest.len() && i != p implies rest[i]
        == rest[i - 1] + factor by {
        assert(rest[i] == ts[i + 1]);
        assert(rest[i - 1] == ts[i as int]);
    }
    if p == 0 {
        assert(rest[0] == ts[1]);
        assert(ts[1] > ts[0] + factor && ts[1] % factor == 0);
    } else {
        assert(ts[1] == ts[0] + factor);
        assert(rest[0] == ts[1]);
        assert(rest[p] == ts[p + 1] && rest[p - 1] == ts[p]);
    }
    lemma_gaps_from_break(ts[0], rest, factor, p);
    if p > 0 {
        assert(rest[p - 1] == ts[p]);
    }
}

/// An ASCII decimal digit.
pub open spec fn is_digit(b: u8) -> bool {
    48 <= b <= 57
}

/// All bytes are decimal digits.
pub open spec fn all_digits(s: Seq<u8>) -> bool {
    forall|k: int| 0 <= k < s.len() ==> is_digit(#[trigger] s[k])
}

/// The number the digit string denotes.
pub open spec fn dec_value(s: Seq<u8>) -> nat
    decreases s.len(),
{
    if s.len() == 0 {
        0
    } else {
        dec_value(s.drop_last()) * 10 + (s.last() - 48) as nat
    }
}

/// A longer digit prefix never denotes a smaller number.
proof fn lemma_dec_value_prefix(s: Seq<u8>, k: int)
    requires
        0 <= k <= s.len(),
        all_digits(s),
    ensures
        dec_value(s.subrange(0, k)) <= dec_value(s),
    decreases s.len() - k,
{
    if k < s.len() {
        lemma_dec_value_prefix(s, k + 1);
        assert(s.subrange(0, k + 1).drop_last() =~= s.subrange(0, k));
        assert(s.subrange(0, k + 1).last() == s[k]);
        assert(dec_value(s.subrange(0, k)) * 10 >= dec_value(s.subrange(0, k)));
    } else {
        assert(s.subrange(0, k) =~= s);
    }
}

/// Parses an unsigned decimal field. Succeeds exactly on a non-empty
/// all-digit field whose value fits in 64 bits.
pub fn parse_u64(field: &Vec<u8>) -> (r: Option<u64>)
    ensures
        match r {
            Option::Some(v) => field@.len() > 0 && all_digits(field@) && v == dec_value(field@),
            Option::None => field@.len() == 0 || !all_digits(field@) || dec_value(field@)
                > u64::MAX,
        },
{
    if field.len() == 0 {
        return Option::None;
    }
    let mut val: u64 = 0;
    let mut i: usize = 0;
    proof {
        assert(field@.subrange(0, 0) =~= Seq::<u8>::empty());
    }
    while i < field.len()
        invariant
            i <= field@.len(),
            all_digits(field@.subrange(0, i as int)),
            val == dec_value(field@.subrange(0, i as int)),
        decreases field@.len() - i,
    {
        let b = field[i];
        if b < 48 || b > 57 {
            return Option::None;
        }
        let d = (b - 48) as u64;
        let val10 = match val.checked_mul(10) {
            Option::Some(v) => v,
            Option::None => {
                proof {
                    overflow_case(field@, i as int, val as nat * 10);
                }
                return Option::None;
            },
        };
        let new_val = match val10.checked_add(d) {
            Option::Some(v) => v,
            Option::None => {
                proof {
                    overflow_case(field@, i as int, val as nat * 10 + d as nat);
                }
                return Option::None;
            },
        };
        proof {
            assert(field@.subrange(0, i as int + 1).drop_last() =~= field@.subrange(0, i as int));
            assert(field@.subrange(0, i as int + 1).last() == field@[i as int]);
        }
        val = new_val;
        i += 1;
    }
    proof {
        assert(field@.subrange(0, field@.len() as int) =~= field@);
    }
    Option::Some(val)
}

/// If the value grown so far already exceeds `u64::MAX` at the next
/// digit, the whole field does.
proof fn overflow_case(s: Seq<u8>, i: int, lower: nat)
    requires
        0 <= i < s.len(),
        is_digit(s[i]),
        all_digits(s.subrange(0, i)),
        lower > u64::MAX,
        dec_value(s.subrange(0, i)) * 10 <= lower <= dec_value(s.subrange(0, i)) * 10 + (s[i]
            - 48) as nat,
    ensures
        !all_digits(s) || dec_value(s) > u64::MAX,
{
    if all_digits(s) {
        assert(s.subrange(0, i + 1).drop_last() =~= s.subrange(0, i));
        assert(s.subrange(0, i + 1).last() == s[i]);
        assert(dec_value(s.subrange(0, i + 1)) >= lower);
        lemma_dec_value_prefix(s, i + 1);
    }
}

/// The states of the numeric-field scanner. A field is numeric when it
/// is sign, digits, an optional dot with optional fraction digits (or a
/// bare dot with fraction digits), and an optional signed exponent.
pub open spec fn float_step(state: int, b: u8) -> int {
    if state == 0 {
        if b == 43 || b == 45 {
            1
        } else if is_digit(b) {
            2
        } else if b == 46 {
            3
        } else {
            8
        }
    } else if state == 1 {
        if is_digit(b) {
            2
        } else if b == 46 {
            3
        } else {
            8
        }
    } else if state == 2 {
        if is_digit(b) {
            2
        } else if b == 46 {
            4
        } else if b == 101 || b == 69 {
            5
        } else {
            8
        }
    } else if state == 3 {
        if is_digit(b) {
            4
        } else {
            8
        }
    } else if state == 4 {
        if is_digit(b) {
            4
        } else if b == 101 || b == 69 {
            5
        } else {
            8
        }
    } else if state == 5 {
        if b == 43 || b == 45 {
            6
        } else if is_digit(b) {
            7
        } else {
            8
        }
    } else if state == 6 || state == 7 {
        if is_digit(b) {
            7
        } else {
            8
        }
    } else {
        8
    }
}

/// Runs the scanner over a whole field.
pub open spec fn float_scan(state: int, s: Seq<u8>) -> int
    decreases s.len(),
{
    if s.len() == 0 {
        state
    } else {
        float_scan(float_step(state, s[0]), s.drop_first())
    }
}

/// Whether a field reads as a decimal number, possibly fractional,
/// possibly with an exponent.
pub open spec fn is_float_text(s: Seq<u8>) -> bool {
    let fin = float_scan(0, s);
    fin == 2 || fin == 4 || fin == 7
}

fn float_step_exec(state: u8, b: u8) -> (r: u8)
    ensures
        r as int == float_step(state as int, b),
{
    if state == 0 {
        if b == 43 || b == 45 {
            1
        } else if 48 <= b && b <= 57 {
            2
        } else if b == 46 {
            3
        } else {
            8
        }
    } else if state == 1 {
        if 48 <= b && b <= 57 {
            2
        } else if b == 46 {
            3
        } else {
            8
        }
    } else if state == 2 {
        if 48 <= b && b <= 57 {
            2
        } else if b == 46 {
            4
        } else if b == 101 || b == 69 {
            5
        } else {
            8
        }
    } else if state == 3 {
        if 48 <= b && b <= 57 {
            4
        } else {
            8
        }
    } else if state == 4 {
        if 48 <= b && b <= 57 {
            4
        } else if b == 101 || b == 69 {
            5
        } else {
            8
        }
    } else if state == 5 {
        if b == 43 || b == 45 {
            6
        } else if 48 <= b && b <= 57 {
            7
        } else {
            8
        }
    } else if state == 6 || state == 7 {
        if 48 <= b && b <= 57 {
            7
        } else {
            8
        }
    } else {
        8
    }
}

/// Whether the field reads as a decimal number.
pub fn is_float_field(field: &Vec<u8>) -> (r: bool)
    ensures
        r == is_float_text(field@),
{
    let mut state: u8 = 0;
    let mut i: usize = 0;
    proof {
        assert(field@.skip(0) =~= field@);
    }
    while i < field.len()
        invariant
            i <= field@.len(),
            float_scan(state as int, field@.skip(i as int)) == float_scan(0, field@),
        decreases field@.len() - i,
    {
        let ghost rest = field@.skip(i as int);
        state = float_step_exec(state, field[i]);
        i += 1;
        proof {
            assert(rest.drop_first() =~= field@.skip(i as int));
        }
    }
    proof {
        assert(field@.skip(field@.len() as int) =~= Seq::<u8>::empty());
    }
    state == 2 || state == 4 || state == 7
}

/// Splits on a separator byte, the piece under construction carried
/// along: `split_acc(s, sep, cur)` is the pieces of `cur + s`.
pub open spec fn split_acc(s: Seq<u8>, sep: u8, cur: Seq<u8>) -> Seq<Seq<u8>>
    decreases s.len(),
{
    if s.len() == 0 {
        seq![cur]
    } else if s[0] == sep {
        seq![cur] + split_acc(s.drop_first(), sep, Seq::empty())
    } else {
        split_acc(s.drop_first(), sep, cur.push(s[0]))
    }
}

/// The pieces of `s` between occurrences of `sep`. The empty string
/// has one empty piece; a trailing separator yields a final empty
/// piece.
pub open spec fn split_on(s: Seq<u8>, sep: u8) -> Seq<Seq<u8>> {
    split_acc(s, sep, Seq::empty())
}

/// Splits a byte string on a separator byte.
pub fn split_bytes(content: &Vec<u8>, sep: u8) -> (r: Vec<Vec<u8>>)
    ensures
        r.deep_view() == split_on(content@, sep),
{
    let mut pieces: Vec<Vec<u8>> = Vec::new();
    let mut cur: Vec<u8> = Vec::new();
    let mut i: usize = 0;
    proof {
        assert(content@.skip(0) =~= content@);
        assert(pieces.deep_view() + split_acc(content@.skip(0), sep, cur@) =~~= split_on(
            content@,
            sep,
        ));
    }
    while i < content.len()
        invariant
            i <= content@.len(),
            pieces.deep_view() + split_acc(content@.skip(i as int), sep, cur@) == split_on(
                content@,
                sep,
            ),
        decreases content@.len() - i,
    {
        let ghost rest = content@.skip(i as int);
        let ghost old_pieces = pieces.deep_view();
        let ghost old_cur = cur@;
        let b = content[i];
        if b == sep {
            pieces.push(cur);
            cur = Vec::new();
        } else {
            cur.push(b);
        }
        i += 1;
        proof {
            assert(rest.drop_first() =~= content@.skip(i as int));
            if b == sep {
                assert(pieces.deep_view() =~~= old_pieces.push(old_cur));
                assert(old_pieces + (seq![old_cur] + split_acc(rest.drop_first(), sep, Seq::empty()))
                    =~= old_pieces.push(old_cur) + split_acc(rest.drop_first(), sep, Seq::empty()));
            } else {
                assert(pieces.deep_view() =~~= old_pieces);
            }
        }
    }
    proof {
        assert(content@.skip(content@.len() as int) =~= Seq::<u8>::empty());
    }
    pieces.push(cur);
    proof {
        assert(pieces.deep_view() =~~= split_on(content@, sep));
    }
    pieces
}

/// Drops one carriage return at the end of a line, as a reader of
/// files with Windows line endings must.
pub open spec fn strip_cr(line: Seq<u8>) -> Seq<u8> {
    if line.len() > 0 && line.last() == 13 {
        line.drop_last()
    } else {
        line
    }
}

/// One row's open-time timestamp, when the row is well formed: at
/// least six comma-separated fields, the first a decimal timestamp
/// that fits 64 bits, the next five numeric.
pub open spec fn parse_row(line: Seq<u8>) -> Option<u64> {
    let fields = split_on(line, 44);
    if fields.len() < 6 {
        Option::None
    } else if !(fields[0].len() > 0 && all_digits(fields[0]) && dec_value(fields[0])
        <= u64::MAX) {
        Option::None
    } else if !(is_float_text(fields[1]) && is_float_text(fields[2]) && is_float_text(fields[3])
        && is_float_text(fields[4]) && is_float_text(fields[5])) {
        Option::None
    } else {
        Option::Some(dec_value(fields[0]) as u64)
    }
}

/// The timestamps of a sequence of rows; blank rows are skipped, and
/// one malformed row fails the whole archive.
pub open spec fn parse_rows(lines: Seq<Seq<u8>>) -> Option<Seq<u64>>
    decreases lines.len(),
{
    if lines.len() == 0 {
        Option::Some(Seq::empty())
    } else if strip_cr(lines[0]).len() == 0 {
        parse_rows(lines.drop_first())
    } else {
        match parse_row(strip_cr(lines[0])) {
            Option::None => Option::None,
            Option::Some(t) => match parse_rows(lines.drop_first()) {
                Option::None => Option::None,
                Option::Some(rest) => Option::Some(seq![t] + rest),
            },
        }
    }
}

/// The timestamps of one archive entry's table, read line by line.
pub open spec fn parse_content(content: Seq<u8>) -> Option<Seq<u64>> {
    parse_rows(split_on(content, 10))
}

fn strip_cr_exec(line: &Vec<u8>) -> (r: Vec<u8>)
    ensures
        r@ == strip_cr(line@),
{
    let mut r = line.clone();
    if r.len() > 0 && r[r.len() - 1] == 13 {
        r.pop();
        proof {
            assert(r@ =~= strip_cr(line@));
        }
    }
    r
}

fn parse_row_exec(line: &Vec<u8>) -> (r: Result<u64, ScrapperError>)
    ensures
        match r {
            Ok(t) => parse_row(line@) == Option::Some(t),
            Err(e) => parse_row(line@) is None && (e is CsvError || e is ParseError),
        },
{
    let fields = split_bytes(line, 44);
    if fields.len() < 6 {
        return Err(
            ScrapperError::CsvError(
                String::from_str("A row is short of the expected column count"),
            ),
        );
    }
    proof {
        assert(fields.deep_view()[0] == fields@[0]@);
        assert(fields.deep_view()[1] == fields@[1]@);
        assert(fields.deep_view()[2] == fields@[2]@);
        assert(fields.deep_view()[3] == fields@[3]@);
        assert(fields.deep_view()[4] == fields@[4]@);
        assert(fields.deep_view()[5] == fields@[5]@);
    }
    let t = match parse_u64(&fields[0]) {
        Option::Some(t) => t,
        Option::None => {
            return Err(
                ScrapperError::ParseError(
                    String::from_str("The open-time column is not a 64-bit decimal"),
                ),
            );
        },
    };
    if is_float_field(&fields[1]) && is_float_field(&fields[2]) && is_float_field(&fields[3])
        && is_float_field(&fields[4]) && is_float_field(&fields[5]) {
        Ok(t)
    } else {
        Err(ScrapperError::ParseError(String::from_str("A price column is not numeric")))
    }
}

/// Reads the timestamps out of one archive entry's table. Fails, for
/// the archive as a whole, exactly when some non-blank row is
/// malformed.
pub fn extract_timestamps(content: &Vec<u8>) -> (r: Result<Vec<u64>, ScrapperError>)
    ensures
        match r {
            Ok(ts) => parse_content(content@) == Option::Some(ts@),
            Err(e) => parse_content(content@) is None && (e is CsvError || e is ParseError),
        },
{
    let lines = split_bytes(content, 10);
    let ghost all = lines.deep_view();
    let mut ts: Vec<u64> = Vec::new();
    let mut i: usize = 0;
    proof {
        assert(all.skip(0) =~= all);
        assert(parse_content(content@) == parse_rows(all));
    }
    while i < lines.len()
        invariant
            i <= all.len(),
            lines.deep_view() == all,
            lines@.len() == all.len(),
            parse_content(content@) == parse_rows(all),
            match parse_rows(all.skip(i as int)) {
                Option::Some(rest) => parse_rows(all) == Option::Some(ts@ + rest),
                Option::None => parse_rows(all) is None,
            },
        decreases all.len() - i,
    {
        let ghost rest_lines = all.skip(i as int);
        proof {
            assert(rest_lines[0] == all[i as int]);
            assert(all[i as int] == lines@[i as int]@);
        }
        let line = strip_cr_exec(&lines[i]);
        if line.len() > 0 {
            match parse_row_exec(&line) {
                Ok(t) => {
                    ts.push(t);
                    proof {
                        assert(ts@ =~= ts@.drop_last().push(t));
                    }
                },
                Err(e) => {
                    proof {
                        assert(parse_rows(all.skip(i as int)) is None);
                    }
                    return Err(e);
                },
            }
        }
        i += 1;
        proof {
            assert(rest_lines.drop_first() =~= all.skip(i as int));
            if strip_cr(rest_lines[0]).len() != 0 {
                if parse_rows(all.skip(i as int)) is Some {
                    let r2 = parse_rows(all.skip(i as int))->0;
                    assert(ts@.drop_last() + (seq![ts@.last()] + r2) =~= ts@ + r2);
                }
            }
        }
    }
    proof {
        assert(all.skip(all.len() as int) =~= Seq::<Seq<u8>>::empty());
        assert(ts@ + Seq::<u64>::empty() =~= ts@);
    }
    Ok(ts)
}

/// How many entries the archive holds; `None` when the bytes are not
/// a readable archive.
pub uninterp spec fn zip_entry_count_of(data: Seq<u8>) -> Option<nat>;

/// The decompressed contents of the archive's first entry; `None` when
/// the archive or the entry cannot be read.
pub uninterp spec fn zip_first_entry_of(data: Seq<u8>) -> Option<Seq<u8>>;

/// Relies on zip's `ZipArchive::new` and `len` over an in-memory
/// buffer: how many entries the archive's central directory lists, a
/// function of the bytes alone.
#[verifier::external_body]
fn zip_entry_count(data: &Vec<u8>) -> (r: Result<usize, ScrapperError>)
    ensures
        match r {
            Ok(n) => zip_entry_count_of(data@) == Option::Some(n as nat),
            Err(e) => zip_entry_count_of(data@) is None && e is ZipError,
        },
{
    match zip::ZipArchive::new(std::io::Cursor::new(data.as_slice())) {
        Ok(archive) => Ok(archive.len()),
        Err(e) => Err(ScrapperError::ZipError(e.to_string())),
    }
}

/// Relies on zip's `ZipArchive::by_index` and `Read::read_to_end`: the
/// decompressed first entry, a function of the bytes alone.
#[verifier::external_body]
fn zip_first_entry(data: &Vec<u8>) -> (r: Result<Vec<u8>, ScrapperError>)
    ensures
        match r {
            Ok(bytes) => zip_first_entry_of(data@) == Option::Some(bytes@),
            Err(e) => zip_first_entry_of(data@) is None && (e is ZipError || e is IOError),
        },
{
    let mut archive = match zip::ZipArchive::new(std::io::Cursor::new(data.as_slice())) {
        Ok(archive) => archive,
        Err(e) => return Err(ScrapperError::ZipError(e.to_string())),
    };
    let mut entry = match archive.by_index(0) {
        Ok(entry) => entry,
        Err(e) => return Err(ScrapperError::ZipError(e.to_string())),
    };
    let mut buf = Vec::new();
    if let Err(e) = std::io::Read::read_to_end(&mut entry, &mut buf) {
        return Err(ScrapperError::IOError(e.to_string()));
    }
    Ok(buf)
}

/// Whether the bytes are a readable single-entry archive whose table
/// parses.
pub open spec fn archive_ok(data: Seq<u8>) -> bool {
    &&& zip_entry_count_of(data) == Option::Some(1nat)
    &&& zip_first_entry_of(data) is Some
    &&& parse_content(zip_first_entry_of(data)->0) is Some
}

/// The timestamps one archive contributes.
pub open spec fn archive_timestamps(data: Seq<u8>) -> Seq<u64>
    recommends
        archive_ok(data),
{
    parse_content(zip_first_entry_of(data)->0)->0
}

/// Opens one downloaded archive and reads the timestamps of its rows.
/// The archive must hold exactly one entry, and every non-blank row of
/// that entry must be well formed; anything else fails the archive.
pub fn extract_file(zip_bytes: &Vec<u8>) -> (r: Result<Vec<u64>, ScrapperError>)
    ensures
        match r {
            Ok(ts) => archive_ok(zip_bytes@) && ts@ == archive_timestamps(zip_bytes@),
            Err(_) => !archive_ok(zip_bytes@),
        },
{
    let count = match zip_entry_count(zip_bytes) {
        Ok(n) => n,
        Err(e) => {
            return Err(e);
        },
    };
    if count != 1 {
        return Err(
            ScrapperError::ZipError(
                String::from_str("The archive must hold exactly one entry"),
            ),
        );
    }
    let content = match zip_first_entry(zip_bytes) {
        Ok(bytes) => bytes,
        Err(e) => {
            return Err(e);
        },
    };
    extract_timestamps(&content)
}

/// The timestamps of a chronological run of archives, concatenated;
/// `None` when any archive fails to extract.
pub open spec fn months_timestamps(archives: Seq<Seq<u8>>) -> Option<Seq<u64>>
    decreases archives.len(),
{
    if archives.len() == 0 {
        Option::Some(Seq::empty())
    } else if !archive_ok(archives[0]) {
        Option::None
    } else {
        match months_timestamps(archives.drop_first()) {
            Option::None => Option::None,
            Option::Some(rest) => Option::Some(archive_timestamps(archives[0]) + rest),
        }
    }
}

/// Extracts an asset's whole run of monthly archives, in chronological
/// order, and validates the combined series: every archive must
/// extract, the series must be non-empty and non-decreasing. Returns
/// the down-time intervals and the covered period.
pub fn extract_asset(ts_factor: u64, archives: &Vec<Vec<u8>>) -> (r: Result<
    (Vec<TimePeriod>, TimePeriod),
    ScrapperError,
>)
    requires
        ts_factor > 0,
    ensures
        match r {
            Ok((gaps, period)) => {
                &&& months_timestamps(archives.deep_view()) is Some
                &&& {
                    let ts = months_timestamps(archives.deep_view())->0;
                    &&& ts.len() > 0
                    &&& ts_nondecreasing(ts)
                    &&& gaps@ == gaps_spec(ts, ts_factor)
                    &&& period == (TimePeriod { start: ts[0], end: ts[ts.len() - 1] })
                }
            },
            Err(_) => months_timestamps(archives.deep_view()) is None || months_timestamps(
                archives.deep_view(),
            )->0.len() == 0 || !ts_nondecreasing(months_timestamps(archives.deep_view())->0),
        },
{
    let ghost av = archives.deep_view();
    let mut ts: Vec<u64> = Vec::new();
    let mut i: usize = 0;
    proof {
        assert(av.skip(0) =~= av);
        assert(ts@ + Seq::<u64>::empty() =~= ts@);
    }
    while i < archives.len()
        invariant
            i <= av.len(),
            archives.deep_view() == av,
            archives@.len() == av.len(),
            match months_timestamps(av.skip(i as int)) {
                Option::Some(rest) => months_timestamps(av) == Option::Some(ts@ + rest),
                Option::None => months_timestamps(av) is None,
            },
        decreases av.len() - i,
    {
        let ghost rest_archives = av.skip(i as int);
        proof {
            assert(rest_archives[0] == av[i as int]);
            assert(av[i as int] == archives@[i as int]@);
        }
        let ghost old_ts = ts@;
        match extract_file(&archives[i]) {
            Ok(mut month_ts) => {
                let ghost month_seq = month_ts@;
                ts.append(&mut month_ts);
                proof {
                    assert(ts@ == old_ts + month_seq);
                }
            },
            Err(e) => {
                proof {
                    assert(months_timestamps(av.skip(i as int)) is None);
                }
                return Err(e);
            },
        }
        i += 1;
        proof {
            assert(rest_archives.drop_first() =~= av.skip(i as int));
            if months_timestamps(av.skip(i as int)) is Some {
                let r2 = months_timestamps(av.skip(i as int))->0;
                assert(old_ts + (archive_timestamps(rest_archives[0]) + r2) =~= ts@ + r2);
            }
        }
    }
    proof {
        assert(av.skip(av.len() as int) =~= Seq::<Seq<u8>>::empty());
        assert(ts@ + Seq::<u64>::empty() =~= ts@);
    }
    post_treatment(ts_factor, &ts)
}

/// Whether `timestamp` sits on the sampling grid of `factor`.
pub fn is_multiple_of_granularity(timestamp: u64, factor: u64) -> (r: bool)
    requires
        factor > 0,
    ensures
        r == (timestamp % factor == 0),
{
    timestamp % factor == 0
}

/// Validates the timestamp sequence of one extracted series and
/// reports its down-time intervals and overall covered period.
///
/// Fails exactly when the series is empty or a timestamp decreases;
/// otherwise returns the intervals of `gaps_spec` and the period from
/// the first to the last timestamp.
pub fn post_treatment(ts_factor: u64, timestamps: &Vec<u64>) -> (r: Result<
    (Vec<TimePeriod>, TimePeriod),
    ScrapperError,
>)
    requires
        ts_factor > 0,
    ensures
        match r {
            Ok((gaps, period)) => {
                &&& timestamps@.len() > 0
                &&& ts_nondecreasing(timestamps@)
                &&& gaps@ == gaps_spec(timestamps@, ts_factor)
                &&& period == (TimePeriod {
                    start: timestamps@[0],
                    end: timestamps@[timestamps@.len() - 1],
                })
            },
            Err(e) => {
                &&& timestamps@.len() == 0 || !ts_nondecreasing(timestamps@)
                &&& e is IntegrityError
            },
        },
{
    if timestamps.len() == 0 {
        return Err(
            ScrapperError::IntegrityError(String::from_str("No data found in extracted_data")),
        );
    }
    let ghost all = timestamps@;
    let start_ts = timestamps[0];
    let mut last_ts = start_ts;
    let mut down_periods: Vec<TimePeriod> = Vec::new();
    let mut i: usize = 1;
    proof {
        assert(all.subrange(1, all.len() as int) =~= all.drop_first());
    }
    while i < timestamps.len()
        invariant
            1 <= i <= all.len(),
            timestamps@ == all,
            ts_factor > 0,
            last_ts == all[i - 1],
            forall|k: int| 0 <= k < i - 1 ==> #[trigger] all[k] <= all[k + 1],
            down_periods@ + gaps_from(last_ts, all.subrange(i as int, all.len() as int), ts_factor)
                == gaps_spec(all, ts_factor),
        decreases all.len() - i,
    {
        let ghost rest = all.subrange(i as int, all.len() as int);
        let ts = timestamps[i];
        if ts < last_ts {
            proof {
                assert(all[i - 1] > all[i as int]);
            }
            return Err(
                ScrapperError::IntegrityError(
                    String::from_str("Timestamps are not in the wright order:"),
                ),
            );
        }
        if ts - last_ts > ts_factor || !is_multiple_of_granularity(ts, ts_factor) {
            down_periods.push(TimePeriod { start: last_ts, end: ts });
            proof {
                assert(down_periods@ =~= down_periods@.drop_last().push(
                    TimePeriod { start: last_ts, end: ts },
                ));
            }
        }
        last_ts = ts;
        i += 1;
        proof {
            assert(rest.drop_first() =~= all.subrange(i as int, all.len() as int));
            if step_is_gap(all[i - 2], all[i - 1], ts_factor) {
                assert(down_periods@.drop_last() + (seq![
                    TimePeriod { start: all[i - 2], end: all[i - 1] },
                ] + gaps_from(all[i - 1], rest.drop_first(), ts_factor)) =~= down_periods@
                    + gaps_from(all[i - 1], rest.drop_first(), ts_factor));
            }
        }
    }
    proof {
        assert(all.subrange(all.len() as int, all.len() as int) =~= Seq::<u64>::empty());
        assert(down_periods@ + Seq::<TimePeriod>::empty() =~= down_periods@);
    }
    Ok((down_periods, TimePeriod { start: start_ts, end: last_ts }))
}

} // verus!
