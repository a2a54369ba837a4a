//! The run-wide aggregate: per-asset coverage periods and the merged
//! list of down-time intervals.
//!
//! `concat_down_times` canonicalizes the gap list: it sorts the
//! intervals and fuses every overlapping or touching pair, so that the
//! stored list is sorted and no two entries overlap or touch.

use vstd::prelude::*;
use vstd::multiset::Multiset;
use vstd::relations::{sorted_by, total_ordering};
use vstd::seq_lib::lemma_sorted_unique;
use crate::utils::text::str_eq;
use crate::utils::assoc::{assoc_get, lemma_assoc_get_update, lemma_assoc_get_push};

verus! {

/// A closed interval of milliseconds, `start <= end`: one stretch of
/// missing or discontinuous coverage.
#[derive(Clone, Copy, Debug, PartialEq, Eq, Structural)]
pub struct TimePeriod {
    pub start: u64,
    pub end: u64,
}

impl TimePeriod {
    /// An interval never runs backwards.
    pub open spec fn wf(self) -> bool {
        self.start <= self.end
    }

    pub fn new(start: u64, end: u64) -> (r: TimePeriod)
        requires
            start <= end,
        ensures
            r == (TimePeriod { start, end }),
            r.wf(),
    {
        TimePeriod { start, end }
    }
}

/// The order the canonical gap list is kept in: by start, ties by end.
pub open spec fn period_leq() -> spec_fn(TimePeriod, TimePeriod) -> bool {
    |a: TimePeriod, b: TimePeriod|
        a.start < b.start || (a.start == b.start && a.end <= b.end)
}

/// Folds a sorted tail into an accumulator: `cur` grows while the next
/// interval starts at or before `cur.end`, and is emitted when a true
/// break appears.
pub open spec fn merge_step(acc: Seq<TimePeriod>, cur: TimePeriod, rest: Seq<TimePeriod>) -> Seq<
    TimePeriod,
>
    decreases rest.len(),
{
    if rest.len() == 0 {
        acc.push(cur)
    } else if rest[0].start <= cur.end {
        let extended = TimePeriod {
            start: cur.start,
            end: if rest[0].end > cur.end {
                rest[0].end
            } else {
                cur.end
            },
        };
        merge_step(acc, extended, rest.drop_first())
    } else {
        merge_step(acc.push(cur), rest[0], rest.drop_first())
    }
}

/// The merge of an already sorted interval list.
pub open spec fn merge_sorted(s: Seq<TimePeriod>) -> Seq<TimePeriod> {
    if s.len() == 0 {
        Seq::empty()
    } else {
        merge_step(Seq::empty(), s[0], s.drop_first())
    }
}

/// The canonical form of an arbitrary interval list: sort, then fuse
/// every overlapping or touching pair.
pub open spec fn merged_down_times(s: Seq<TimePeriod>) -> Seq<TimePeriod> {
    merge_sorted(s.sort_by(period_leq()))
}

/// No two consecutive intervals overlap or even touch.
pub open spec fn separated(s: Seq<TimePeriod>) -> bool {
    forall|i: int| 0 <= i < s.len() - 1 ==> #[trigger] s[i].end < s[i + 1].start
}

/// `period_leq` is a total order.
pub proof fn lemma_period_leq_total_ordering()
    ensures
        total_ordering(period_leq()),
{
    let leq = period_leq();
    assert forall|a: TimePeriod, b: TimePeriod| #[trigger] leq(a, b) && #[trigger] leq(b, a)
        implies a == b by {};
}

fn period_le(a: &TimePeriod, b: &TimePeriod) -> (r: bool)
    ensures
        r == period_leq()(*a, *b),
{
    a.start < b.start || (a.start == b.start && a.end <= b.end)
}

/// Insertion sort by `period_leq`; the result is the unique sorted
/// permutation of the input.
fn sort_periods(v: &Vec<TimePeriod>) -> (r: Vec<TimePeriod>)
    ensures
        r@ == v@.sort_by(period_leq()),
{
    let mut r: Vec<TimePeriod> = Vec::new();
    let mut i: usize = 0;
    proof {
        assert(r@ =~= v@.subrange(0, 0));
    }
    while i < v.len()
        invariant
            i <= v@.len(),
            sorted_by(r@, period_leq()),
            r@.to_multiset() == v@.subrange(0, i as int).to_multiset(),
        decreases v@.len() - i,
    {
        let p = v[i];
        let mut j: usize = 0;
        while j < r.len() && !period_le(&p, &r[j])
            invariant
                j <= r@.len(),
                forall|k: int| 0 <= k < j ==> !period_leq()(p, #[trigger] r@[k]),
            decreases r@.len() - j,
        {
            j += 1;
        }
        let ghost old_r = r@;
        r.insert(j, p);
        proof {
            let leq = period_leq();
            assert(r@ =~= old_r.subrange(0, j as int) + seq![p] + old_r.subrange(
                j as int,
                old_r.len() as int,
            ));
            assert forall|m: int, n: int| 0 <= m < n < r@.len() implies leq(r@[m], r@[n]) by {
                if m < j && n == j {
                    assert(!leq(p, old_r[m]));
                } else if m == j && n > j {
                    if j < old_r.len() {
                        assert(leq(p, old_r[j as int]));
                        if n - 1 > j {
                            assert(leq(old_r[j as int], old_r[n - 1]));
                        }
                    }
                } else if m < j && n > j {
                    assert(leq(old_r[m], old_r[n - 1]));
                } else if m > j || n < j {
                    assert(leq(old_r[if m < j { m } else { m - 1 }], old_r[if n < j {
                        n
                    } else {
                        n - 1
                    }]));
                }
            }
            lemma_insert_multiset(old_r, p, j as int);
            assert(v@.subrange(0, i as int).push(p) =~= v@.subrange(0, i as int + 1));
            broadcast use vstd::seq_lib::group_to_multiset_ensures;

        }
        i += 1;
    }
    proof {
        assert(v@.subrange(0, v@.len() as int) =~= v@);
        lemma_period_leq_total_ordering();
        v@.lemma_sort_by_ensures(period_leq());
        lemma_sorted_unique(r@, v@.sort_by(period_leq()), period_leq());
    }
    r
}

/// A well-formed accumulator for the merge fold: what has been emitted
/// is sorted and separated, and ends strictly before the open interval.
pub open spec fn chain_ok(acc: Seq<TimePeriod>, cur: TimePeriod) -> bool {
    &&& forall|k: int| 0 <= k < acc.len() ==> (#[trigger] acc[k]).wf()
    &&& cur.wf()
    &&& sorted_by(acc, period_leq())
    &&& separated(acc)
    &&& (acc.len() > 0 ==> acc.last().end < cur.start)
}

/// The merge fold keeps its accumulator canonical: the result is
/// sorted, separated and made of well-formed intervals.
proof fn lemma_merge_step_canonical(acc: Seq<TimePeriod>, cur: TimePeriod, rest: Seq<TimePeriod>)
    requires
        chain_ok(acc, cur),
        sorted_by(rest, period_leq()),
        forall|k: int| 0 <= k < rest.len() ==> (#[trigger] rest[k]).wf(),
        forall|k: int| 0 <= k < rest.len() ==> cur.start <= (#[trigger] rest[k]).start,
    ensures
        separated(merge_step(acc, cur, rest)),
        sorted_by(merge_step(acc, cur, rest), period_leq()),
        forall|k: int|
            0 <= k < merge_step(acc, cur, rest).len() ==> (#[trigger] merge_step(
                acc,
                cur,
                rest,
            )[k]).wf(),
    decreases rest.len(),
{
    let leq = period_leq();
    if rest.len() == 0 {
        let r = acc.push(cur);
        assert forall|m: int, n: int| 0 <= m < n < r.len() implies leq(r[m], r[n]) by {
            if n == r.len() - 1 && acc.len() > 0 {
                assert(leq(acc[m], acc.last()));
            }
        }
        assert(separated(r)) by {
            assert forall|k: int| 0 <= k < r.len() - 1 implies r[k].end < r[k + 1].start by {
                if k == r.len() - 2 && acc.len() > 0 {
                    assert(acc.last().end < cur.start);
                }
            }
        }
    } else if rest[0].start <= cur.end {
        let extended = TimePeriod {
            start: cur.start,
            end: if rest[0].end > cur.end {
                rest[0].end
            } else {
                cur.end
            },
        };
        assert forall|k: int| 0 <= k < rest.drop_first().len() implies extended.start <= (
        #[trigger] rest.drop_first()[k]).start by {
            assert(leq(rest[0], rest[k + 1]));
        }
        lemma_merge_step_canonical(acc, extended, rest.drop_first());
    } else {
        let acc2 = acc.push(cur);
        assert forall|m: int, n: int| 0 <= m < n < acc2.len() implies leq(acc2[m], acc2[n]) by {
            if n == acc2.len() - 1 && acc.len() > 0 {
                assert(leq(acc[m], acc.last()));
            }
        }
        assert(separated(acc2)) by {
            assert forall|k: int| 0 <= k < acc2.len() - 1 implies acc2[k].end < acc2[k + 1].start by {
                if k == acc2.len() - 2 && acc.len() > 0 {
                    assert(acc.last().end < cur.start);
                }
            }
        }
        assert forall|k: int| 0 <= k < rest.drop_first().len() implies rest[0].start <= (
        #[trigger] rest.drop_first()[k]).start by {
            assert(leq(rest[0], rest[k + 1]));
        }
        lemma_merge_step_canonical(acc2, rest[0], rest.drop_first());
    }
}

/// Folding an already separated tail emits everything unchanged.
proof fn lemma_merge_step_separated_id(acc: Seq<TimePeriod>, cur: TimePeriod, rest: Seq<TimePeriod>)
    requires
        separated(seq![cur] + rest),
    ensures
        merge_step(acc, cur, rest) == acc + seq![cur] + rest,
    decreases rest.len(),
{
    let whole = seq![cur] + rest;
    if rest.len() == 0 {
        assert(acc.push(cur) =~= acc + seq![cur] + rest);
    } else {
        assert(whole[0].end < whole[1].start);
        assert(cur.end < rest[0].start);
        assert(seq![rest[0]] + rest.drop_first() =~= rest);
        assert forall|k: int|
            0 <= k < (seq![rest[0]] + rest.drop_first()).len() - 1 implies (seq![rest[0]]
            + rest.drop_first())[k].end < (seq![rest[0]] + rest.drop_first())[k + 1].start by {
            assert(whole[k + 1].end < whole[k + 2].start);
        }
        lemma_merge_step_separated_id(acc.push(cur), rest[0], rest.drop_first());
        assert(acc.push(cur) + seq![rest[0]] + rest.drop_first() =~= acc + seq![cur] + rest);
    }
}

/// Every element of the sorted permutation of `s` is an element of `s`.
proof fn lemma_sort_by_elements_wf(s: Seq<TimePeriod>)
    requires
        forall|k: int| 0 <= k < s.len() ==> (#[trigger] s[k]).wf(),
    ensures
        forall|k: int|
            0 <= k < s.sort_by(period_leq()).len() ==> (#[trigger] s.sort_by(period_leq())[k]).wf(),
{
    broadcast use vstd::seq_lib::group_to_multiset_ensures;

    lemma_period_leq_total_ordering();
    s.lemma_sort_by_ensures(period_leq());
    let sorted = s.sort_by(period_leq());
    assert forall|k: int| 0 <= k < sorted.len() implies (#[trigger] sorted[k]).wf() by {
        assert(sorted.contains(sorted[k]));
        assert(sorted.to_multiset().count(sorted[k]) > 0);
        assert(s.contains(sorted[k]));
    }
}

/// Law: the canonical gap list is sorted, its intervals are well
/// formed, and no two of them overlap or touch.
pub proof fn lemma_merge_canonical(s: Seq<TimePeriod>)
    requires
        forall|k: int| 0 <= k < s.len() ==> (#[trigger] s[k]).wf(),
    ensures
        separated(merged_down_times(s)),
        sorted_by(merged_down_times(s), period_leq()),
        forall|k: int|
            0 <= k < merged_down_times(s).len() ==> (#[trigger] merged_down_times(s)[k]).wf(),
{
    lemma_period_leq_total_ordering();
    s.lemma_sort_by_ensures(period_leq());
    lemma_sort_by_elements_wf(s);
    let sorted = s.sort_by(period_leq());
    if sorted.len() == 0 {
    } else {
        assert(sorted.drop_first() =~= sorted.subrange(1, sorted.len() as int));
        assert forall|m: int, n: int|
            0 <= m < n < sorted.drop_first().len() implies period_leq()(
            sorted.drop_first()[m],
            sorted.drop_first()[n],
        ) by {
            assert(period_leq()(sorted[m + 1], sorted[n + 1]));
        }
        assert forall|k: int| 0 <= k < sorted.drop_first().len() implies sorted[0].start <= (
        #[trigger] sorted.drop_first()[k]).start by {
            assert(period_leq()(sorted[0], sorted[k + 1]));
        }
        lemma_merge_step_canonical(Seq::empty(), sorted[0], sorted.drop_first());
    }
}

/// Law: merging twice is the same as merging once.
pub proof fn lemma_merge_idempotent(s: Seq<TimePeriod>)
    requires
        forall|k: int| 0 <= k < s.len() ==> (#[trigger] s[k]).wf(),
    ensures
        merged_down_times(merged_down_times(s)) == merged_down_times(s),
{
    broadcast use vstd::seq_lib::group_to_multiset_ensures;

    lemma_period_leq_total_ordering();
    lemma_merge_canonical(s);
    let m = merged_down_times(s);
    m.lemma_sort_by_ensures(period_leq());
    lemma_sorted_unique(m.sort_by(period_leq()), m, period_leq());
    if m.len() == 0 {
    } else {
        assert(seq![m[0]] + m.drop_first() =~= m);
        lemma_merge_step_separated_id(Seq::empty(), m[0], m.drop_first());
        assert(Seq::empty() + seq![m[0]] + m.drop_first() =~= m);
    }
}

/// Whether some interval of `s` contains `p` whole.
pub open spec fn covered_by(s: Seq<TimePeriod>, p: TimePeriod) -> bool {
    exists|j: int| 0 <= j < s.len() && (#[trigger] s[j]).start <= p.start && p.end <= s[j].end
}

/// The merge fold loses nothing: everything already emitted, the open
/// interval, and everything still to come ends up inside some interval
/// of the result.
proof fn lemma_merge_step_covers(acc: Seq<TimePeriod>, cur: TimePeriod, rest: Seq<TimePeriod>)
    requires
        sorted_by(rest, period_leq()),
        forall|k: int| 0 <= k < rest.len() ==> cur.start <= (#[trigger] rest[k]).start,
    ensures
        forall|k: int|
            0 <= k < acc.len() ==> covered_by(merge_step(acc, cur, rest), #[trigger] acc[k]),
        covered_by(merge_step(acc, cur, rest), cur),
        forall|k: int|
            0 <= k < rest.len() ==> covered_by(merge_step(acc, cur, rest), #[trigger] rest[k]),
    decreases rest.len(),
{
    let leq = period_leq();
    let r = merge_step(acc, cur, rest);
    if rest.len() == 0 {
        assert forall|k: int| 0 <= k < acc.len() implies covered_by(r, #[trigger] acc[k]) by {
            assert(r[k] == acc[k]);
        }
        assert(r[acc.len() as int] == cur);
    } else if rest[0].start <= cur.end {
        let extended = TimePeriod {
            start: cur.start,
            end: if rest[0].end > cur.end {
                rest[0].end
            } else {
                cur.end
            },
        };
        assert forall|k: int| 0 <= k < rest.drop_first().len() implies extended.start <= (
        #[trigger] rest.drop_first()[k]).start by {
            assert(leq(rest[0], rest[k + 1]));
        }
        lemma_merge_step_covers(acc, extended, rest.drop_first());
        assert(covered_by(r, extended));
        let j = choose|j: int|
            0 <= j < r.len() && (#[trigger] r[j]).start <= extended.start && extended.end
                <= r[j].end;
        assert(r[j].start <= cur.start && cur.end <= r[j].end);
        assert(covered_by(r, cur));
        assert forall|k: int| 0 <= k < rest.len() implies covered_by(r, #[trigger] rest[k]) by {
            if k == 0 {
                assert(r[j].start <= rest[0].start && rest[0].end <= r[j].end);
            } else {
                assert(rest.drop_first()[k - 1] == rest[k]);
            }
        }
    } else {
        assert forall|k: int| 0 <= k < rest.drop_first().len() implies rest[0].start <= (
        #[trigger] rest.drop_first()[k]).start by {
            assert(leq(rest[0], rest[k + 1]));
        }
        lemma_merge_step_covers(acc.push(cur), rest[0], rest.drop_first());
        assert forall|k: int| 0 <= k < acc.len() implies covered_by(r, #[trigger] acc[k]) by {
            assert(acc.push(cur)[k] == acc[k]);
        }
        assert(acc.push(cur)[acc.len() as int] == cur);
        assert(covered_by(r, cur));
        assert forall|k: int| 0 <= k < rest.len() implies covered_by(r, #[trigger] rest[k]) by {
            if k > 0 {
                assert(rest.drop_first()[k - 1] == rest[k]);
            }
        }
    }
}

/// Law: merging loses no down time — every recorded interval lies
/// whole inside one of the canonical intervals.
pub proof fn lemma_merge_covers_inputs(s: Seq<TimePeriod>)
    ensures
        forall|k: int| 0 <= k < s.len() ==> covered_by(merged_down_times(s), #[trigger] s[k]),
{
    broadcast use vstd::seq_lib::group_to_multiset_ensures;

    lemma_period_leq_total_ordering();
    s.lemma_sort_by_ensures(period_leq());
    let sorted = s.sort_by(period_leq());
    if sorted.len() == 0 {
        assert(sorted.to_multiset().len() == sorted.len());
        assert(s.to_multiset().len() == s.len());
    } else {
        let leq = period_leq();
        assert forall|m: int, n: int|
            0 <= m < n < sorted.drop_first().len() implies leq(
            sorted.drop_first()[m],
            sorted.drop_first()[n],
        ) by {
            assert(leq(sorted[m + 1], sorted[n + 1]));
        }
        assert forall|k: int| 0 <= k < sorted.drop_first().len() implies sorted[0].start <= (
        #[trigger] sorted.drop_first()[k]).start by {
            assert(leq(sorted[0], sorted[k + 1]));
        }
        lemma_merge_step_covers(Seq::empty(), sorted[0], sorted.drop_first());
        assert(merged_down_times(s) == merge_step(
            Seq::<TimePeriod>::empty(),
            sorted[0],
            sorted.drop_first(),
        ));
        assert forall|k: int| 0 <= k < s.len() implies covered_by(
            merged_down_times(s),
            #[trigger] s[k],
        ) by {
            assert(s.contains(s[k]));
            assert(s.to_multiset().count(s[k]) > 0);
            assert(sorted.contains(s[k]));
            let j = choose|j: int| 0 <= j < sorted.len() && sorted[j] == s[k];
            if j > 0 {
                assert(sorted.drop_first()[j - 1] == sorted[j]);
            }
        }
    }
}

/// Some interval of `pool` starts at `x`.
pub open spec fn has_start(pool: Seq<TimePeriod>, x: u64) -> bool {
    exists|i: int| 0 <= i < pool.len() && (#[trigger] pool[i]).start == x
}

/// Some interval of `pool` ends at `x`.
pub open spec fn has_end(pool: Seq<TimePeriod>, x: u64) -> bool {
    exists|i: int| 0 <= i < pool.len() && (#[trigger] pool[i]).end == x
}

/// The merge fold invents no endpoints: every boundary of the result
/// is a boundary drawn from `pool`, provided everything fed in is.
proof fn lemma_merge_step_endpoints(
    acc: Seq<TimePeriod>,
    cur: TimePeriod,
    rest: Seq<TimePeriod>,
    pool: Seq<TimePeriod>,
)
    requires
        forall|k: int|
            0 <= k < acc.len() ==> has_start(pool, (#[trigger] acc[k]).start) && has_end(
                pool,
                acc[k].end,
            ),
        has_start(pool, cur.start),
        has_end(pool, cur.end),
        forall|k: int| 0 <= k < rest.len() ==> pool.contains(#[trigger] rest[k]),
    ensures
        forall|j: int|
            0 <= j < merge_step(acc, cur, rest).len() ==> has_start(
                pool,
                (#[trigger] merge_step(acc, cur, rest)[j]).start,
            ) && has_end(pool, merge_step(acc, cur, rest)[j].end),
    decreases rest.len(),
{
    let r = merge_step(acc, cur, rest);
    if rest.len() == 0 {
        assert forall|j: int| 0 <= j < r.len() implies has_start(pool, (#[trigger] r[j]).start)
            && has_end(pool, r[j].end) by {
            if j < acc.len() {
                assert(r[j] == acc[j]);
            } else {
                assert(r[j] == cur);
            }
        }
    } else if rest[0].start <= cur.end {
        let extended = TimePeriod {
            start: cur.start,
            end: if rest[0].end > cur.end {
                rest[0].end
            } else {
                cur.end
            },
        };
        assert(pool.contains(rest[0]));
        let i = choose|i: int| 0 <= i < pool.len() && pool[i] == rest[0];
        assert(has_end(pool, rest[0].end));
        assert forall|k: int| 0 <= k < rest.drop_first().len() implies pool.contains(
            #[trigger] rest.drop_first()[k],
        ) by {
            assert(rest.drop_first()[k] == rest[k + 1]);
        }
        lemma_merge_step_endpoints(acc, extended, rest.drop_first(), pool);
        assert forall|j: int| 0 <= j < r.len() implies has_start(pool, (#[trigger] r[j]).start)
            && has_end(pool, r[j].end) by {
            assert(merge_step(acc, extended, rest.drop_first())[j] == r[j]);
        }
    } else {
        assert(pool.contains(rest[0]));
        let i = choose|i: int| 0 <= i < pool.len() && pool[i] == rest[0];
        assert(has_start(pool, rest[0].start));
        assert(has_end(pool, rest[0].end));
        assert forall|k: int| 0 <= k < acc.push(cur).len() implies has_start(
            pool,
            (#[trigger] acc.push(cur)[k]).start,
        ) && has_end(pool, acc.push(cur)[k].end) by {
            if k < acc.len() {
                assert(acc.push(cur)[k] == acc[k]);
            } else {
                assert(acc.push(cur)[k] == cur);
            }
        }
        assert forall|k: int| 0 <= k < rest.drop_first().len() implies pool.contains(
            #[trigger] rest.drop_first()[k],
        ) by {
            assert(rest.drop_first()[k] == rest[k + 1]);
        }
        lemma_merge_step_endpoints(acc.push(cur), rest[0], rest.drop_first(), pool);
        assert forall|j: int| 0 <= j < r.len() implies has_start(pool, (#[trigger] r[j]).start)
            && has_end(pool, r[j].end) by {
            assert(merge_step(acc.push(cur), rest[0], rest.drop_first())[j] == r[j]);
        }
    }
}

/// Law: merging invents no down time — every canonical interval
/// starts at some recorded interval's start and ends at some recorded
/// interval's end.
pub proof fn lemma_merge_endpoints_from_inputs(s: Seq<TimePeriod>)
    ensures
        forall|j: int|
            0 <= j < merged_down_times(s).len() ==> has_start(
                s,
                (#[trigger] merged_down_times(s)[j]).start,
            ) && has_end(s, merged_down_times(s)[j].end),
{
    broadcast use vstd::seq_lib::group_to_multiset_ensures;

    lemma_period_leq_total_ordering();
    s.lemma_sort_by_ensures(period_leq());
    let sorted = s.sort_by(period_leq());
    if sorted.len() == 0 {
    } else {
        assert forall|k: int| 0 <= k < sorted.len() implies s.contains(#[trigger] sorted[k]) by {
            assert(sorted.contains(sorted[k]));
            assert(sorted.to_multiset().count(sorted[k]) > 0);
        }
        assert forall|k: int| 0 <= k < sorted.drop_first().len() implies s.contains(
            #[trigger] sorted.drop_first()[k],
        ) by {
            assert(sorted.drop_first()[k] == sorted[k + 1]);
        }
        assert(s.contains(sorted[0]));
        let i = choose|i: int| 0 <= i < s.len() && s[i] == sorted[0];
        assert(has_start(s, sorted[0].start));
        assert(has_end(s, sorted[0].end));
        lemma_merge_step_endpoints(Seq::empty(), sorted[0], sorted.drop_first(), s);
        assert(merged_down_times(s) == merge_step(
            Seq::<TimePeriod>::empty(),
            sorted[0],
            sorted.drop_first(),
        ));
    }
}

/// Law: merging does not depend on the order the intervals came in.
pub proof fn lemma_merge_order_independent(a: Seq<TimePeriod>, b: Seq<TimePeriod>)
    requires
        a.to_multiset() == b.to_multiset(),
    ensures
        merged_down_times(a) == merged_down_times(b),
{
    lemma_period_leq_total_ordering();
    a.lemma_sort_by_ensures(period_leq());
    b.lemma_sort_by_ensures(period_leq());
    lemma_sorted_unique(a.sort_by(period_leq()), b.sort_by(period_leq()), period_leq());
}

/// The aggregate written out at the end of a run: one coverage period
/// per asset, and the canonical list of down-time intervals.
pub struct Manifest {
    pub down_times: Vec<TimePeriod>,
    pub assets: Vec<(String, TimePeriod)>,
    pub granularity: String,
}

impl Manifest {
    pub fn new(granularity: &str) -> (r: Manifest)
        ensures
            r.down_times@ == Seq::<TimePeriod>::empty(),
            r.assets@ == Seq::<(String, TimePeriod)>::empty(),
            r.granularity@ == granularity@,
    {
        Manifest { down_times: Vec::new(), assets: Vec::new(), granularity: granularity.to_owned() }
    }

    /// Records one down-time interval, unless an identical one is
    /// already recorded.
    pub fn add_down_time(&mut self, time_period: TimePeriod)
        ensures
            old(self).down_times@.contains(time_period) ==> final(self).down_times@
                == old(self).down_times@,
            !old(self).down_times@.contains(time_period) ==> final(self).down_times@
                == old(self).down_times@.push(time_period),
            final(self).assets@ == old(self).assets@,
            final(self).granularity@ == old(self).granularity@,
    {
        let mut i: usize = 0;
        while i < self.down_times.len()
            invariant
                i <= self.down_times@.len(),
                forall|k: int| 0 <= k < i ==> #[trigger] self.down_times@[k] != time_period,
                *self == *old(self),
            decreases self.down_times@.len() - i,
        {
            let down = &self.down_times[i];
            if down.start == time_period.start && down.end == time_period.end {
                proof {
                    assert(old(self).down_times@.contains(time_period));
                }
                return ;
            }
            i += 1;
        }
        self.down_times.push(time_period);
    }

    /// Binds `asset` to `time_period`, replacing any earlier binding.
    pub fn add_asset(&mut self, asset: &str, time_period: TimePeriod)
        ensures
            assoc_get(final(self).assets@, asset@) == Option::Some(time_period),
            forall|key: Seq<char>| key != asset@ ==> assoc_get(final(self).assets@, key)
                == assoc_get(old(self).assets@, key),
            final(self).down_times@ == old(self).down_times@,
            final(self).granularity@ == old(self).granularity@,
    {
        let mut i: usize = 0;
        while i < self.assets.len()
            invariant
                i <= self.assets@.len(),
                forall|k: int| 0 <= k < i ==> #[trigger] self.assets@[k].0@ != asset@,
                *self == *old(self),
            decreases self.assets@.len() - i,
        {
            if str_eq(self.assets[i].0.as_str(), asset) {
                self.assets[i].1 = time_period;
                proof {
                    lemma_assoc_get_update(old(self).assets@, self.assets@, i as int, asset@);
                }
                return ;
            }
            i += 1;
        }
        let entry = (asset.to_owned(), time_period);
        proof {
            lemma_assoc_get_push(old(self).assets@, (entry.0, entry.1), asset@);
        }
        self.assets.push(entry);
    }

    /// Canonicalizes the recorded down times: sorted, and no two
    /// entries overlapping or touching.
    pub fn concat_down_times(&mut self)
        ensures
            final(self).down_times@ == merged_down_times(old(self).down_times@),
            final(self).assets@ == old(self).assets@,
            final(self).granularity@ == old(self).granularity@,
    {
        let sorted = sort_periods(&self.down_times);
        if sorted.len() == 0 {
            proof {
                broadcast use vstd::seq_lib::group_to_multiset_ensures;

                lemma_period_leq_total_ordering();
                old(self).down_times@.lemma_sort_by_ensures(period_leq());
                assert(old(self).down_times@.to_multiset().len() == old(
                    self,
                ).down_times@.len());
                assert(sorted@.to_multiset().len() == sorted@.len());
                assert(old(self).down_times@ =~= Seq::<TimePeriod>::empty());
            }
            return ;
        }
        let ghost sorted_seq = sorted@;
        let mut result: Vec<TimePeriod> = Vec::new();
        let mut cur = sorted[0];
        let mut i: usize = 1;
        proof {
            assert(sorted_seq.subrange(1, sorted_seq.len() as int) =~= sorted_seq.drop_first());
        }
        while i < sorted.len()
            invariant
                1 <= i <= sorted_seq.len(),
                sorted@ == sorted_seq,
                merge_step(result@, cur, sorted_seq.subrange(i as int, sorted_seq.len() as int))
                    == merge_sorted(sorted_seq),
            decreases sorted_seq.len() - i,
        {
            let ghost rest = sorted_seq.subrange(i as int, sorted_seq.len() as int);
            let p = sorted[i];
            if p.start <= cur.end {
                cur = TimePeriod {
                    start: cur.start,
                    end: if p.end > cur.end {
                        p.end
                    } else {
                        cur.end
                    },
                };
            } else {
                result.push(cur);
                cur = p;
            }
            i += 1;
            proof {
                assert(rest.drop_first() =~= sorted_seq.subrange(
                    i as int,
                    sorted_seq.len() as int,
                ));
            }
        }
        result.push(cur);
        proof {
            assert(sorted_seq.subrange(sorted_seq.len() as int, sorted_seq.len() as int)
                =~= Seq::<TimePeriod>::empty());
        }
        self.down_times = result;
    }

    pub fn get_down_times(&self) -> (r: &Vec<TimePeriod>)
        ensures
            r@ == self.down_times@,
    {
        &self.down_times
    }

    pub fn get_assets(&self) -> (r: &Vec<(String, TimePeriod)>)
        ensures
            r@ == self.assets@,
    {
        &self.assets
    }

    pub fn get_granularity(&self) -> (r: &String)
        ensures
            r@ == self.granularity@,
    {
        &self.granularity
    }
}

/// Inserting into the middle of a sequence inserts into its multiset.
proof fn lemma_insert_multiset(s: Seq<TimePeriod>, p: TimePeriod, j: int)
    requires
        0 <= j <= s.len(),
    ensures
        (s.subrange(0, j) + seq![p] + s.subrange(j, s.len() as int)).to_multiset()
            == s.to_multiset().insert(p),
{
    broadcast use vstd::seq_lib::group_to_multiset_ensures;

    let a = s.subrange(0, j);
    let b = s.subrange(j, s.len() as int);
    vstd::seq_lib::lemma_multiset_commutative(a + seq![p], b);
    vstd::seq_lib::lemma_multiset_commutative(a, seq![p]);
    vstd::seq_lib::lemma_multiset_commutative(a, b);
    assert(a + b =~= s);
    assert(seq![p].to_multiset() =~= Multiset::empty().insert(p));
    assert((a + seq![p] + b).to_multiset() =~= s.to_multiset().insert(p));
}

} // verus!
