//! The range-fetch planner.
//!
//! Given an inclusive date range and the cache, the planner enumerates the
//! range (refusing one longer than the configured maximum), keeps the dates
//! the cache is missing, and groups consecutive missing days into minimal
//! contiguous sub-ranges, in chronological order — one upstream request per
//! sub-range instead of one per day.

use vstd::prelude::*;

use crate::cache::CacheStore;
use crate::dates::{
    date_range_vec, lemma_date_range_extend, lemma_date_range_wf,
    lemma_succ_is_next, lemma_succ_wf, spec_date_range, Date,
};
use crate::models::Transaksi;

verus! {

/// The widest inclusive range a single request may ask for, in days.
pub const MAX_RANGE_DAYS: usize = 365;

/// Why a plan was refused.
#[derive(Debug, Clone, Copy, PartialEq, Eq, Structural)]
pub enum PlanError {
    /// The requested range spans more days than the configured maximum.
    RangeTooLarge,
}

/// The dates of `dates` that the cache has no entry for, in order.
pub open spec fn spec_missing_dates(m: Map<Date, Seq<Transaksi>>, dates: Seq<Date>) -> Seq<Date> {
    dates.filter(|d: Date| !m.contains_key(d))
}

/// Greedy grouping, continued: `start..=end` is the sub-range being built,
/// `rest` the dates still to look at.
pub open spec fn group_rec(rest: Seq<Date>, start: Date, end: Date) -> Seq<(Date, Date)>
    decreases rest.len(),
{
    if rest.len() == 0 {
        seq![(start, end)]
    } else if rest[0] == end.spec_succ() {
        group_rec(rest.drop_first(), start, rest[0])
    } else {
        seq![(start, end)] + group_rec(rest.drop_first(), rest[0], rest[0])
    }
}

/// Greedy order-preserving grouping of dates into runs of consecutive
/// calendar days, each run given as its first and last day.
pub open spec fn group_missing(dates: Seq<Date>) -> Seq<(Date, Date)> {
    if dates.len() == 0 {
        Seq::empty()
    } else {
        group_rec(dates.drop_first(), dates[0], dates[0])
    }
}

/// The days covered by the sub-ranges, in order.
pub open spec fn flatten_ranges(rs: Seq<(Date, Date)>) -> Seq<Date>
    decreases rs.len(),
{
    if rs.len() == 0 {
        Seq::empty()
    } else {
        spec_date_range(rs[0].0, rs[0].1) + flatten_ranges(rs.drop_first())
    }
}

/// Every date of the sequence is well-formed.
pub open spec fn all_wf(dates: Seq<Date>) -> bool {
    forall|i: int| 0 <= i < dates.len() ==> (#[trigger] dates[i]).wf()
}

/// The dates are strictly increasing.
pub open spec fn strictly_increasing(dates: Seq<Date>) -> bool {
    forall|i: int, j: int|
        0 <= i < j < dates.len() ==> (#[trigger] dates[i]).spec_lt(#[trigger] dates[j])
}

/// Computes which dates of a requested range are missing from the cache and
/// how to fetch them in the fewest upstream requests.
pub struct RangeFetchPlanner;

impl RangeFetchPlanner {
    /// The dates of `dates` that the cache has no entry for, in their order.
    pub fn missing_dates(cache: &CacheStore, dates: &Vec<Date>) -> (r: Vec<Date>)
        requires
            cache.wf(),
        ensures
            r@ == spec_missing_dates(cache@, dates@),
            forall|k: int|
                0 <= k < r@.len() ==> exists|j: int|
                    0 <= j < dates@.len() && #[trigger] r@[k] == dates@[j],
            strictly_increasing(dates@) ==> strictly_increasing(r@),
    {
        let ghost pred = |d: Date| !cache@.contains_key(d);
        let mut r: Vec<Date> = Vec::new();
        let mut i: usize = 0;
        while i < dates.len()
            invariant
                cache.wf(),
                i <= dates@.len(),
                pred == (|d: Date| !cache@.contains_key(d)),
                r@ == dates@.subrange(0, i as int).filter(pred),
                forall|k: int|
                    0 <= k < r@.len() ==> exists|j: int|
                        0 <= j < i && #[trigger] r@[k] == dates@[j],
                strictly_increasing(dates@) ==> strictly_increasing(r@),
            decreases dates@.len() - i,
        {
            let d = dates[i];
            proof {
                reveal(Seq::filter);
                let s = dates@.subrange(0, i + 1);
                assert(s.drop_last() =~= dates@.subrange(0, i as int));
                assert(s.last() == dates@[i as int]);
                assert(s.filter(pred) == if pred(s.last()) {
                    s.drop_last().filter(pred).push(s.last())
                } else {
                    s.drop_last().filter(pred)
                });
            }
            let ghost r_old = r@;
            if !cache.contains(&d) {
                r.push(d);
                proof {
                    assert forall|k: int| 0 <= k < r@.len() implies exists|j: int|
                        0 <= j < i + 1 && #[trigger] r@[k] == dates@[j] by {
                        if k < r_old.len() {
                            let j = choose|j: int|
                                0 <= j < i && #[trigger] r_old[k] == dates@[j];
                            assert(r@[k] == dates@[j]);
                        } else {
                            assert(r@[k] == dates@[i as int]);
                        }
                    }
                    if strictly_increasing(dates@) {
                        assert forall|k1: int, k2: int| 0 <= k1 < k2 < r@.len() implies (
                        #[trigger] r@[k1]).spec_lt(#[trigger] r@[k2]) by {
                            if k2 < r_old.len() {
                                assert(r_old[k1].spec_lt(r_old[k2]));
                            } else {
                                let j = choose|j: int|
                                    0 <= j < i && #[trigger] r_old[k1] == dates@[j];
                                assert(dates@[j].spec_lt(dates@[i as int]));
                            }
                        }
                    }
                }
            }
            i += 1;
        }
        proof {
            assert(dates@.subrange(0, dates@.len() as int) =~= dates@);
        }
        r
    }

    /// Groups consecutive days into `(first, last)` sub-ranges, preserving
    /// order: a new sub-range starts exactly where the next date is not the
    /// calendar day after the current sub-range's end.
    pub fn group_consecutive(dates: &Vec<Date>) -> (r: Vec<(Date, Date)>)
        requires
            all_wf(dates@),
        ensures
            r@ == group_missing(dates@),
    {
        let mut r: Vec<(Date, Date)> = Vec::new();
        if dates.len() == 0 {
            proof {
                assert(r@ =~= group_missing(dates@));
            }
            return r;
        }
        let mut start: Date = dates[0];
        let mut end: Date = dates[0];
        let mut i: usize = 1;
        proof {
            assert(dates@.skip(1) =~= dates@.drop_first());
        }
        while i < dates.len()
            invariant
                all_wf(dates@),
                1 <= i <= dates@.len(),
                end.wf(),
                group_missing(dates@) == r@ + group_rec(dates@.skip(i as int), start, end),
            decreases dates@.len() - i,
        {
            let d = dates[i];
            let ghost rest = dates@.skip(i as int);
            let ghost end_old = end;
            let ghost start_old = start;
            let ghost r_old = r@;
            proof {
                assert(rest[0] == dates@[i as int]);
                assert(rest.drop_first() =~= dates@.skip(i + 1));
            }
            let end_is_last = end.year == 9999 && end.month == 12 && end.day == 31;
            let is_next = if end_is_last {
                proof {
                    assert(d.wf());
                    assert(d != end.spec_succ());
                }
                false
            } else {
                d == end.succ()
            };
            if is_next {
                end = d;
                proof {
                    assert(group_rec(rest, start_old, end_old) == group_rec(
                        dates@.skip(i + 1),
                        start,
                        end,
                    ));
                }
            } else {
                r.push((start, end));
                start = d;
                end = d;
                proof {
                    assert(group_rec(rest, start_old, end_old) == seq![(start_old, end_old)]
                        + group_rec(dates@.skip(i + 1), d, d));
                    assert(r@ =~= r_old.push((start_old, end_old)));
                    assert(r_old + group_rec(rest, start_old, end_old) =~= r@ + group_rec(
                        dates@.skip(i + 1),
                        start,
                        end,
                    ));
                }
            }
            i += 1;
        }
        proof {
            assert(dates@.skip(dates@.len() as int) =~= Seq::<Date>::empty());
            assert(group_rec(Seq::<Date>::empty(), start, end) == seq![(start, end)]);
        }
        let ghost r_old = r@;
        r.push((start, end));
        proof {
            assert(r@ =~= r_old + seq![(start, end)]);
        }
        r
    }

    /// The fetch plan for an inclusive range: the missing dates grouped into
    /// minimal sub-ranges, or a refusal when the range is too wide.
    pub fn plan(cache: &CacheStore, from: &Date, to: &Date, max_days: usize) -> (r: Result<
        Vec<(Date, Date)>,
        PlanError,
    >)
        requires
            cache.wf(),
            from.wf(),
            to.wf(),
        ensures
            match r {
                Ok(v) => spec_date_range(*from, *to).len() <= max_days && v@ == group_missing(
                    spec_missing_dates(cache@, spec_date_range(*from, *to)),
                ),
                Err(e) => e == PlanError::RangeTooLarge && spec_date_range(*from, *to).len()
                    > max_days,
            },
    {
        let all = date_range_vec(from, to);
        if all.len() > max_days {
            return Err(PlanError::RangeTooLarge);
        }
        let missing = Self::missing_dates(cache, &all);
        proof {
            lemma_date_range_wf(*from, *to);
            assert forall|k: int| 0 <= k < missing@.len() implies (#[trigger] missing@[k]).wf() by {
                let j = choose|j: int| 0 <= j < all@.len() && #[trigger] missing@[k] == all@[j];
            }
        }
        Ok(Self::group_consecutive(&missing))
    }
}

// ---------------------------------------------------------------------------
// Laws
// ---------------------------------------------------------------------------

/// A date with no cache entry is reported missing; after a non-empty store
/// for it, it is reported missing no longer.
pub proof fn lemma_put_resolves_missing(
    m: Map<Date, Seq<Transaksi>>,
    dates: Seq<Date>,
    d: Date,
    records: Seq<Transaksi>,
)
    requires
        records.len() > 0,
    ensures
        !m.contains_key(d) && dates.contains(d) ==> spec_missing_dates(m, dates).contains(d),
        !spec_missing_dates(m.insert(d, records), dates).contains(d),
{
    let pred1 = |x: Date| !m.contains_key(x);
    if !m.contains_key(d) && dates.contains(d) {
        let i = choose|i: int| 0 <= i < dates.len() && dates[i] == d;
        dates.lemma_filter_contains(pred1, i);
    }
    let m2 = m.insert(d, records);
    let pred2 = |x: Date| !m2.contains_key(x);
    if spec_missing_dates(m2, dates).contains(d) {
        let k = choose|k: int|
            0 <= k < dates.filter(pred2).len() && dates.filter(pred2)[k] == d;
        dates.lemma_filter_pred(pred2, k);
        assert(false);
    }
}

/// Every date the filter keeps comes from the filtered sequence.
proof fn lemma_filter_members(s: Seq<Date>, pred: spec_fn(Date) -> bool)
    ensures
        forall|k: int|
            0 <= k < s.filter(pred).len() ==> s.contains(#[trigger] s.filter(pred)[k]),
    decreases s.len(),
{
    reveal(Seq::filter);
    if s.len() > 0 {
        lemma_filter_members(s.drop_last(), pred);
        assert forall|k: int|
            0 <= k < s.filter(pred).len() implies s.contains(#[trigger] s.filter(pred)[k]) by {
            if k < s.drop_last().filter(pred).len() {
                assert(s.filter(pred)[k] == s.drop_last().filter(pred)[k]);
                assert(s.drop_last().contains(s.drop_last().filter(pred)[k]));
                let i = choose|i: int|
                    0 <= i < s.drop_last().len() && s.drop_last()[i] == s.drop_last().filter(
                        pred,
                    )[k];
                assert(s[i] == s.filter(pred)[k]);
            } else {
                assert(s.filter(pred)[k] == s.last());
                assert(s[s.len() - 1] == s.last());
            }
        }
    }
}

/// Filtering keeps the order: the missing dates of a strictly increasing
/// date list are strictly increasing.
pub proof fn lemma_missing_dates_increasing(m: Map<Date, Seq<Transaksi>>, dates: Seq<Date>)
    requires
        strictly_increasing(dates),
        all_wf(dates),
    ensures
        strictly_increasing(spec_missing_dates(m, dates)),
        all_wf(spec_missing_dates(m, dates)),
    decreases dates.len(),
{
    reveal(Seq::filter);
    let pred = |d: Date| !m.contains_key(d);
    lemma_filter_members(dates, pred);
    assert forall|k: int|
        0 <= k < dates.filter(pred).len() implies (#[trigger] dates.filter(pred)[k]).wf() by {
        let i = choose|i: int| 0 <= i < dates.len() && dates[i] == dates.filter(pred)[k];
    }
    if dates.len() > 0 {
        let front = dates.drop_last();
        assert(strictly_increasing(front) && all_wf(front)) by {
            assert(forall|k: int| 0 <= k < front.len() ==> #[trigger] front[k] == dates[k]);
        }
        lemma_missing_dates_increasing(m, front);
        lemma_filter_members(front, pred);
        assert forall|k1: int, k2: int|
            0 <= k1 < k2 < dates.filter(pred).len() implies (#[trigger] dates.filter(
            pred,
        )[k1]).spec_lt(#[trigger] dates.filter(pred)[k2]) by {
            if k2 < front.filter(pred).len() {
                assert(dates.filter(pred)[k1] == front.filter(pred)[k1]);
                assert(dates.filter(pred)[k2] == front.filter(pred)[k2]);
                assert(front.filter(pred)[k1].spec_lt(front.filter(pred)[k2]));
            } else {
                assert(dates.filter(pred)[k2] == dates.last());
                assert(dates.filter(pred)[k1] == front.filter(pred)[k1]);
                assert(front.contains(front.filter(pred)[k1]));
                let i = choose|i: int|
                    0 <= i < front.len() && front[i] == front.filter(pred)[k1];
                assert(dates[i] == front.filter(pred)[k1]);
                assert(dates[i].spec_lt(dates[dates.len() - 1]));
            }
        }
    }
}

/// The planner's grouping of a range's missing dates is exact and minimal:
/// walked in order, the sub-ranges cover exactly the dates of the range that
/// the cache is missing, and consecutive sub-ranges are separated by at least
/// one cached day.
pub proof fn lemma_plan_covers_missing(m: Map<Date, Seq<Transaksi>>, from: Date, to: Date)
    requires
        from.wf(),
        to.wf(),
    ensures
        ({
            let missing = spec_missing_dates(m, spec_date_range(from, to));
            let groups = group_missing(missing);
            &&& flatten_ranges(groups) == missing
            &&& forall|k: int|
                0 <= k < groups.len() ==> (#[trigger] groups[k]).0.spec_le(groups[k].1)
            &&& forall|k: int|
                0 <= k && k + 1 < groups.len() ==> ((#[trigger] groups[k]).1.spec_succ()).spec_lt(
                    groups[k + 1].0,
                )
        }),
{
    crate::dates::lemma_date_range_wf(from, to);
    crate::dates::lemma_date_range_increasing(from, to);
    let dates = spec_date_range(from, to);
    assert(all_wf(dates) && strictly_increasing(dates));
    lemma_missing_dates_increasing(m, dates);
    lemma_grouping_exact(spec_missing_dates(m, dates));
}

/// What greedy grouping produces, from a partial state: the built sub-range
/// followed by the grouped rest covers `start..=end` then `rest` exactly;
/// every sub-range is ordered; and consecutive sub-ranges are separated by at
/// least one cached day, so no two of them could have been merged.
proof fn lemma_group_rec_exact(rest: Seq<Date>, start: Date, end: Date)
    requires
        all_wf(rest),
        strictly_increasing(rest),
        start.wf(),
        end.wf(),
        start.spec_le(end),
        forall|k: int| 0 <= k < rest.len() ==> end.spec_lt(#[trigger] rest[k]),
    ensures
        flatten_ranges(group_rec(rest, start, end)) == spec_date_range(start, end) + rest,
        group_rec(rest, start, end).len() >= 1,
        group_rec(rest, start, end)[0].0 == start,
        forall|k: int|
            0 <= k < group_rec(rest, start, end).len() ==> (#[trigger] group_rec(
                rest,
                start,
                end,
            )[k]).0.wf() && group_rec(rest, start, end)[k].1.wf() && group_rec(
                rest,
                start,
                end,
            )[k].0.spec_le(group_rec(rest, start, end)[k].1),
        forall|k: int|
            0 <= k && k + 1 < group_rec(rest, start, end).len() ==> ((#[trigger] group_rec(
                rest,
                start,
                end,
            )[k]).1.spec_succ()).spec_lt(group_rec(rest, start, end)[k + 1].0),
    decreases rest.len(),
{
    let g = group_rec(rest, start, end);
    if rest.len() == 0 {
        assert(g =~= seq![(start, end)]);
        assert(flatten_ranges(g.drop_first()) == Seq::<Date>::empty()) by {
            assert(g.drop_first() =~= Seq::<(Date, Date)>::empty());
        }
        assert(flatten_ranges(g) =~= spec_date_range(start, end) + rest);
    } else {
        let r0 = rest[0];
        let rest2 = rest.drop_first();
        assert(r0.wf());
        assert forall|k: int| 0 <= k < rest2.len() implies r0.spec_lt(#[trigger] rest2[k]) by {
            assert(rest2[k] == rest[k + 1]);
        }
        assert(all_wf(rest2) && strictly_increasing(rest2)) by {
            assert(forall|k: int| 0 <= k < rest2.len() ==> #[trigger] rest2[k] == rest[k + 1]);
        }
        if r0 == end.spec_succ() {
            assert(!end.is_last_representable());
            lemma_group_rec_exact(rest2, start, r0);
            lemma_date_range_extend(start, end);
            assert(spec_date_range(start, r0) =~= spec_date_range(start, end).push(r0));
            assert(spec_date_range(start, end) + rest =~= spec_date_range(start, end).push(r0)
                + rest2);
            assert(flatten_ranges(g) == spec_date_range(start, end) + rest);
        } else {
            lemma_succ_wf(end);
            lemma_succ_is_next(end, r0);
            assert(end.spec_succ().spec_lt(r0));
            lemma_group_rec_exact(rest2, r0, r0);
            let g2 = group_rec(rest2, r0, r0);
            assert(g =~= seq![(start, end)] + g2);
            assert(g.drop_first() =~= g2);
            assert(spec_date_range(r0, r0) =~= seq![r0]);
            assert(flatten_ranges(g) == spec_date_range(start, end) + flatten_ranges(g2));
            assert(spec_date_range(start, end) + (spec_date_range(r0, r0) + rest2)
                =~= spec_date_range(start, end) + rest);
            assert forall|k: int| 0 <= k < g.len() implies (#[trigger] g[k]).0.wf() && g[k].1.wf()
                && g[k].0.spec_le(g[k].1) by {
                if k > 0 {
                    assert(g[k] == g2[k - 1]);
                }
            }
            assert forall|k: int|
                0 <= k && k + 1 < g.len() implies ((#[trigger] g[k]).1.spec_succ()).spec_lt(
                g[k + 1].0,
            ) by {
                if k == 0 {
                    assert(g[1] == g2[0]);
                    assert(g2[0].0 == r0);
                } else {
                    assert(g[k] == g2[k - 1]);
                    assert(g[k + 1] == g2[k]);
                    assert((g2[(k - 1)].1.spec_succ()).spec_lt(g2[(k - 1) + 1].0));
                }
            }
        }
    }
}

/// Grouping is minimal and order-preserving: the produced sub-ranges, walked
/// in order, cover exactly the given dates; each sub-range runs forward; and
/// between two consecutive sub-ranges at least one day is absent from the
/// input, so no fewer sub-ranges could cover it.
pub proof fn lemma_grouping_exact(dates: Seq<Date>)
    requires
        all_wf(dates),
        strictly_increasing(dates),
    ensures
        flatten_ranges(group_missing(dates)) == dates,
        forall|k: int|
            0 <= k < group_missing(dates).len() ==> (#[trigger] group_missing(dates)[k]).0.wf()
                && group_missing(dates)[k].1.wf() && group_missing(dates)[k].0.spec_le(
                group_missing(dates)[k].1,
            ),
        forall|k: int|
            0 <= k && k + 1 < group_missing(dates).len() ==> ((#[trigger] group_missing(
                dates,
            )[k]).1.spec_succ()).spec_lt(group_missing(dates)[k + 1].0),
{
    if dates.len() == 0 {
        assert(flatten_ranges(group_missing(dates)) =~= dates);
    } else {
        let d0 = dates[0];
        let rest = dates.drop_first();
        assert(all_wf(rest) && strictly_increasing(rest) && forall|k: int|
            0 <= k < rest.len() ==> d0.spec_lt(#[trigger] rest[k])) by {
            assert(forall|k: int| 0 <= k < rest.len() ==> #[trigger] rest[k] == dates[k + 1]);
        }
        lemma_group_rec_exact(rest, d0, d0);
        assert(spec_date_range(d0, d0) =~= seq![d0]);
        assert(seq![d0] + rest =~= dates);
    }
}

} // verus!
