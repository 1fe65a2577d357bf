//! Read-through cache operations over the shared context, as the request
//! handlers and background workers use them.

use vstd::prelude::*;

use crate::cache::{merge_pairs, pair_views};
use crate::dates::{
    date_range_vec, format_dmy, render_dmy, spec_date_range, spec_parse_date, Date, DateService,
};
use crate::errors::DebugAppError;
use crate::models::{Payload, Transaksi};
use crate::planner::{spec_missing_dates, RangeFetchPlanner};
use crate::state::AppState;

verus! {

use vstd::string::StringExecFns;

/// The records cached for the dates, walked in order; nothing for a date
/// without an entry.
pub open spec fn concat_cached(m: Map<Date, Seq<Transaksi>>, dates: Seq<Date>) -> Seq<Transaksi>
    decreases dates.len(),
{
    if dates.len() == 0 {
        Seq::empty()
    } else {
        concat_cached(m, dates.drop_last()) + (if m.contains_key(dates.last()) {
            m[dates.last()]
        } else {
            Seq::empty()
        })
    }
}

/// The cache with every date of the list dropped.
pub open spec fn remove_all(m: Map<Date, Seq<Transaksi>>, dates: Seq<Date>) -> Map<
    Date,
    Seq<Transaksi>,
>
    decreases dates.len(),
{
    if dates.len() == 0 {
        m
    } else {
        remove_all(m.remove(dates[0]), dates.drop_first())
    }
}

/// A fetched record belongs to `d` when its transaction date normalizes to
/// the same canonical text as `d`.
pub open spec fn record_matches_date(t: Transaksi, d: Date) -> bool {
    match spec_parse_date(t.tanggal_transaksi@) {
        Some(dt) => render_dmy(dt) == render_dmy(d),
        None => false,
    }
}

/// The cache after a fetched range is stored: each date of the range takes
/// the records whose transaction date matches it, non-empty groups only.
pub open spec fn spec_partition_insert(
    m: Map<Date, Seq<Transaksi>>,
    dates: Seq<Date>,
    records: Seq<Transaksi>,
) -> Map<Date, Seq<Transaksi>>
    decreases dates.len(),
{
    if dates.len() == 0 {
        m
    } else {
        let d = dates[0];
        let recs = records.filter(|t: Transaksi| record_matches_date(t, d));
        let m1 = if recs.len() > 0 {
            m.insert(d, recs)
        } else {
            m
        };
        spec_partition_insert(m1, dates.drop_first(), records)
    }
}

/// Cache reads and writes as the handlers use them.
pub struct CacheService;

impl CacheService {
    /// The records cached in memory for `date`, if any.
    pub fn get_from_memory_cache(state: &AppState, date: &Date) -> (r: Option<Vec<Transaksi>>)
        requires
            state.wf(),
        ensures
            match r {
                Some(v) => state.cache@.contains_key(*date) && v@ == state.cache@[*date],
                None => !state.cache@.contains_key(*date),
            },
    {
        match state.cache.get(date) {
            Some(v) => {
                let copied = v.clone();
                proof {
                    assert(copied@ =~= v@);
                }
                Some(copied)
            },
            None => None,
        }
    }

    /// After startup the snapshot file is already merged into memory, so a
    /// single-date read is a memory read.
    pub fn get_from_file_cache(state: &AppState, date: &Date) -> (r: Option<Vec<Transaksi>>)
        requires
            state.wf(),
        ensures
            match r {
                Some(v) => state.cache@.contains_key(*date) && v@ == state.cache@[*date],
                None => !state.cache@.contains_key(*date),
            },
    {
        Self::get_from_memory_cache(state, date)
    }

    /// The records for `date`, if cached.
    pub fn get_cached_transactions_for_date(state: &AppState, date: &Date) -> (r: Option<
        Vec<Transaksi>,
    >)
        requires
            state.wf(),
        ensures
            match r {
                Some(v) => state.cache@.contains_key(*date) && v@ == state.cache@[*date],
                None => !state.cache@.contains_key(*date),
            },
    {
        Self::get_from_memory_cache(state, date)
    }

    /// Whether `date` has a (non-empty) cache entry.
    pub fn is_date_cached(state: &AppState, date: &Date) -> (r: bool)
        requires
            state.wf(),
        ensures
            r == state.cache@.contains_key(*date),
    {
        state.cache.contains(date)
    }

    /// Whether some job currently holds the in-flight mark for `date`.
    pub fn is_date_processing(state: &AppState, date: &Date) -> (r: bool)
        ensures
            r == state.processing@.contains(*date),
    {
        state.processing.contains(date)
    }

    /// Sets or clears the in-flight mark for `date`.
    pub fn set_date_processing(state: &mut AppState, date: &Date, processing: bool)
        requires
            old(state).wf(),
        ensures
            final(state).wf(),
            processing ==> final(state).processing@ == old(state).processing@.insert(*date),
            !processing ==> final(state).processing@ == old(state).processing@.remove(*date),
            final(state).cache == old(state).cache,
            final(state).jobs == old(state).jobs,
            final(state).admin_operations == old(state).admin_operations,
            final(state).unauthorized_state == old(state).unauthorized_state,
    {
        if processing {
            state.processing.try_acquire(*date);
        } else {
            state.processing.release(date);
        }
    }

    /// Stores records for `date` in memory; the snapshot file is rewritten at
    /// batch granularity, not here. Storing an empty list is a no-op.
    pub fn cache_transactions_for_date(state: &mut AppState, date: &Date, transactions: Vec<Transaksi>)
        requires
            old(state).wf(),
            date.wf(),
        ensures
            final(state).wf(),
            transactions@.len() == 0 ==> final(state).cache@ == old(state).cache@,
            transactions@.len() > 0 ==> final(state).cache@ == old(state).cache@.insert(
                *date,
                transactions@,
            ),
            final(state).processing == old(state).processing,
            final(state).jobs == old(state).jobs,
            final(state).admin_operations == old(state).admin_operations,
            final(state).unauthorized_state == old(state).unauthorized_state,
    {
        state.cache.put(*date, transactions);
    }

    /// The dates of `dates` with no cache entry, in order.
    pub fn get_missing_dates(state: &AppState, dates: &Vec<Date>) -> (r: Vec<Date>)
        requires
            state.wf(),
        ensures
            r@ == spec_missing_dates(state.cache@, dates@),
            forall|k: int|
                0 <= k < r@.len() ==> exists|j: int|
                    0 <= j < dates@.len() && #[trigger] r@[k] == dates@[j],
            crate::planner::strictly_increasing(dates@) ==> crate::planner::strictly_increasing(
                r@,
            ),
    {
        RangeFetchPlanner::missing_dates(&state.cache, dates)
    }

    /// Splits a loaded snapshot into its non-empty entries and the count of
    /// empty entries dropped — run against the file at startup, before the
    /// merge into memory.
    pub fn clean_empty_cache_entries(mapping: &Vec<(Date, Vec<Transaksi>)>) -> (r: (
        Vec<(Date, Vec<Transaksi>)>,
        usize,
    ))
        ensures
            pair_views(r.0@) == pair_views(mapping@).filter(
                |p: (Date, Seq<Transaksi>)| p.1.len() > 0,
            ),
            r.1 == mapping@.len() - r.0@.len(),
    {
        let ghost pred = |p: (Date, Seq<Transaksi>)| p.1.len() > 0;
        let ghost q = pair_views(mapping@);
        let mut out: Vec<(Date, Vec<Transaksi>)> = Vec::new();
        let mut i: usize = 0;
        proof {
            assert(q.subrange(0, 0).filter(pred) =~= pair_views(out@)) by {
                assert(q.subrange(0, 0) =~= Seq::<(Date, Seq<Transaksi>)>::empty());
                reveal(Seq::filter);
            }
        }
        while i < mapping.len()
            invariant
                pred == (|p: (Date, Seq<Transaksi>)| p.1.len() > 0),
                q == pair_views(mapping@),
                i <= mapping@.len(),
                pair_views(out@) == q.subrange(0, i as int).filter(pred),
                out@.len() <= i,
            decreases mapping@.len() - i,
        {
            let e = &mapping[i];
            proof {
                reveal(Seq::filter);
                let s = q.subrange(0, i + 1);
                assert(s.drop_last() =~= q.subrange(0, i as int));
                assert(s.last() == q[i as int]);
                assert(q[i as int] == (mapping@[i as int].0, mapping@[i as int].1@));
                assert(s.filter(pred) == if pred(s.last()) {
                    s.drop_last().filter(pred).push(s.last())
                } else {
                    s.drop_last().filter(pred)
                });
            }
            if e.1.len() > 0 {
                let copied = e.1.clone();
                proof {
                    assert(copied@ =~= mapping@[i as int].1@);
                }
                let ghost out_old = out@;
                out.push((e.0, copied));
                proof {
                    assert(pair_views(out@) =~= pair_views(out_old).push(
                        (mapping@[i as int].0, mapping@[i as int].1@),
                    ));
                }
            }
            i += 1;
        }
        proof {
            assert(q.subrange(0, q.len() as int) =~= q);
        }
        let removed = mapping.len() - out.len();
        (out, removed)
    }

    /// Merges a snapshot loaded from the file into memory, without
    /// overwriting any in-memory entry; answers how many entries the file
    /// held.
    pub fn load_all_from_file_cache(state: &mut AppState, mapping: &Vec<(Date, Vec<Transaksi>)>) -> (r:
        usize)
        requires
            old(state).wf(),
        ensures
            final(state).wf(),
            final(state).cache@ == merge_pairs(old(state).cache@, pair_views(mapping@)),
            r == mapping@.len(),
            final(state).processing == old(state).processing,
            final(state).jobs == old(state).jobs,
            final(state).admin_operations == old(state).admin_operations,
            final(state).unauthorized_state == old(state).unauthorized_state,
    {
        state.cache.load_merge(mapping);
        mapping.len()
    }

    /// Drops every date of the list from the cache — how a forced refresh
    /// clears the requested range before refetching it.
    pub fn remove_date_range(state: &mut AppState, dates: &Vec<Date>)
        requires
            old(state).wf(),
        ensures
            final(state).wf(),
            final(state).cache@ == remove_all(old(state).cache@, dates@),
            final(state).processing == old(state).processing,
            final(state).jobs == old(state).jobs,
            final(state).admin_operations == old(state).admin_operations,
            final(state).unauthorized_state == old(state).unauthorized_state,
    {
        let mut k: usize = 0;
        proof {
            assert(dates@.skip(0) =~= dates@);
        }
        while k < dates.len()
            invariant
                old(state).wf(),
                state.wf(),
                k <= dates@.len(),
                remove_all(old(state).cache@, dates@) == remove_all(
                    state.cache@,
                    dates@.skip(k as int),
                ),
                state.processing == old(state).processing,
                state.jobs == old(state).jobs,
                state.admin_operations == old(state).admin_operations,
                state.unauthorized_state == old(state).unauthorized_state,
            decreases dates@.len() - k,
        {
            let ghost pre = state.cache@;
            let ghost rest = dates@.skip(k as int);
            state.cache.remove(&dates[k]);
            proof {
                assert(rest[0] == dates@[k as int]);
                assert(rest.drop_first() =~= dates@.skip(k + 1));
                assert(remove_all(pre, rest) == remove_all(state.cache@, rest.drop_first()));
            }
            k += 1;
        }
        proof {
            assert(dates@.skip(dates@.len() as int) =~= Seq::<Date>::empty());
        }
    }

    /// The records of `records` whose transaction date matches `d`.
    pub fn records_for_date(records: &Vec<Transaksi>, d: &Date) -> (r: Vec<Transaksi>)
        requires
            d.wf(),
        ensures
            r@ == records@.filter(|t: Transaksi| record_matches_date(t, *d)),
    {
        let ghost pred = |t: Transaksi| record_matches_date(t, *d);
        let key = format_dmy(d);
        let mut out: Vec<Transaksi> = Vec::new();
        let mut j: usize = 0;
        proof {
            reveal(Seq::filter);
            assert(records@.subrange(0, 0) =~= Seq::<Transaksi>::empty());
            assert(out@ =~= records@.subrange(0, 0).filter(pred));
        }
        while j < records.len()
            invariant
                d.wf(),
                key@ == render_dmy(*d),
                pred == (|t: Transaksi| record_matches_date(t, *d)),
                j <= records@.len(),
                out@ == records@.subrange(0, j as int).filter(pred),
            decreases records@.len() - j,
        {
            proof {
                reveal(Seq::filter);
                let ext = records@.subrange(0, j + 1);
                assert(ext.drop_last() =~= records@.subrange(0, j as int));
                assert(ext.last() == records@[j as int]);
                assert(ext.filter(pred) == if pred(ext.last()) {
                    ext.drop_last().filter(pred).push(ext.last())
                } else {
                    ext.drop_last().filter(pred)
                });
            }
            let t = &records[j];
            let matches_key = match DateService::normalize_date_for_api(
                t.tanggal_transaksi.as_str(),
            ) {
                Ok(n) => crate::strutil::str_eq(n.as_str(), key.as_str()),
                Err(_) => false,
            };
            if matches_key {
                let copied = t.clone();
                out.push(copied);
            }
            j += 1;
        }
        proof {
            assert(records@.subrange(0, records@.len() as int) =~= records@);
        }
        out
    }

    /// Stores a fetched range: each date of the range takes the fetched
    /// records whose transaction date matches it; dates that match nothing
    /// stay absent.
    pub fn cache_fetched_range(state: &mut AppState, dates: &Vec<Date>, records: &Vec<Transaksi>)
        requires
            old(state).wf(),
            forall|k: int| 0 <= k < dates@.len() ==> (#[trigger] dates@[k]).wf(),
        ensures
            final(state).wf(),
            final(state).cache@ == spec_partition_insert(old(state).cache@, dates@, records@),
            final(state).processing == old(state).processing,
            final(state).jobs == old(state).jobs,
            final(state).admin_operations == old(state).admin_operations,
            final(state).unauthorized_state == old(state).unauthorized_state,
    {
        let mut k: usize = 0;
        proof {
            assert(dates@.skip(0) =~= dates@);
        }
        while k < dates.len()
            invariant
                old(state).wf(),
                state.wf(),
                forall|q: int| 0 <= q < dates@.len() ==> (#[trigger] dates@[q]).wf(),
                k <= dates@.len(),
                spec_partition_insert(old(state).cache@, dates@, records@) == spec_partition_insert(
                    state.cache@,
                    dates@.skip(k as int),
                    records@,
                ),
                state.processing == old(state).processing,
                state.jobs == old(state).jobs,
                state.admin_operations == old(state).admin_operations,
                state.unauthorized_state == old(state).unauthorized_state,
            decreases dates@.len() - k,
        {
            let ghost pre = state.cache@;
            let ghost rest = dates@.skip(k as int);
            let d = dates[k];
            let group = Self::records_for_date(records, &d);
            state.cache.put(d, group);
            proof {
                assert(rest[0] == dates@[k as int]);
                assert(rest.drop_first() =~= dates@.skip(k + 1));
                assert(spec_partition_insert(pre, rest, records@) == spec_partition_insert(
                    state.cache@,
                    rest.drop_first(),
                    records@,
                ));
            }
            k += 1;
        }
        proof {
            assert(dates@.skip(dates@.len() as int) =~= Seq::<Date>::empty());
        }
    }

    /// The cached records and the missing dates of a date list, in order.
    pub fn collect_cached_and_missing(state: &AppState, dates: &Vec<Date>) -> (r: (
        Vec<Transaksi>,
        Vec<Date>,
    ))
        requires
            state.wf(),
        ensures
            r.0@ == concat_cached(state.cache@, dates@),
            r.1@ == spec_missing_dates(state.cache@, dates@),
    {
        let mut all: Vec<Transaksi> = Vec::new();
        let ghost pred = |d: Date| !state.cache@.contains_key(d);
        let mut missing: Vec<Date> = Vec::new();
        let mut i: usize = 0;
        proof {
            reveal(Seq::filter);
            assert(dates@.subrange(0, 0) =~= Seq::<Date>::empty());
        }
        while i < dates.len()
            invariant
                state.wf(),
                pred == (|d: Date| !state.cache@.contains_key(d)),
                i <= dates@.len(),
                all@ == concat_cached(state.cache@, dates@.subrange(0, i as int)),
                missing@ == dates@.subrange(0, i as int).filter(pred),
            decreases dates@.len() - i,
        {
            proof {
                reveal(Seq::filter);
                let ext = dates@.subrange(0, i + 1);
                assert(ext.drop_last() =~= dates@.subrange(0, i as int));
                assert(ext.last() == dates@[i as int]);
                assert(ext.filter(pred) == if pred(ext.last()) {
                    ext.drop_last().filter(pred).push(ext.last())
                } else {
                    ext.drop_last().filter(pred)
                });
            }
            let d = dates[i];
            match state.cache.get(&d) {
                Some(v) => {
                    let mut copied = v.clone();
                    proof {
                        assert(copied@ =~= v@);
                    }
                    all.append(&mut copied);
                },
                None => {
                    missing.push(d);
                },
            }
            proof {
                assert(all@ =~= concat_cached(state.cache@, dates@.subrange(0, i + 1)));
            }
            i += 1;
        }
        proof {
            assert(dates@.subrange(0, dates@.len() as int) =~= dates@);
        }
        (all, missing)
    }

    /// The cached records over an inclusive range, concatenated in date
    /// order. When nothing at all is cached and at least one date is missing,
    /// answers an error so the caller triggers a fetch instead.
    pub fn get_date_range_transactions(state: &AppState, payload: &Payload) -> (r: Result<
        Vec<Transaksi>,
        DebugAppError,
    >)
        requires
            state.wf(),
        ensures
            match (spec_parse_date(payload.from@), spec_parse_date(payload.to@)) {
                (Some(d1), Some(d2)) => {
                    let dates = spec_date_range(d1, d2);
                    let all = concat_cached(state.cache@, dates);
                    if all.len() == 0 && (exists|k: int|
                        0 <= k < dates.len() && !state.cache@.contains_key(#[trigger] dates[k])) {
                        r matches Err(e) && e is DateParse
                    } else {
                        r matches Ok(v) && v@ == all
                    }
                },
                _ => r matches Err(e) && e is DateParse,
            },
    {
        let d1 = match DateService::parse_date(payload.from.as_str()) {
            Ok(d) => d,
            Err(_) => {
                return Err(DebugAppError::DateParse(String::from_str("Invalid date format")));
            },
        };
        let d2 = match DateService::parse_date(payload.to.as_str()) {
            Ok(d) => d,
            Err(_) => {
                return Err(DebugAppError::DateParse(String::from_str("Invalid date format")));
            },
        };
        let dates = date_range_vec(&d1, &d2);
        let mut all: Vec<Transaksi> = Vec::new();
        let mut any_missing = false;
        let mut i: usize = 0;
        while i < dates.len()
            invariant
                state.wf(),
                dates@ == spec_date_range(d1, d2),
                i <= dates@.len(),
                all@ == concat_cached(state.cache@, dates@.subrange(0, i as int)),
                any_missing == (exists|k: int|
                    0 <= k < i && !state.cache@.contains_key(#[trigger] dates@[k])),
            decreases dates@.len() - i,
        {
            proof {
                let s = dates@.subrange(0, i + 1);
                assert(s.drop_last() =~= dates@.subrange(0, i as int));
                assert(s.last() == dates@[i as int]);
            }
            let d = dates[i];
            match state.cache.get(&d) {
                Some(v) => {
                    let mut copied = v.clone();
                    proof {
                        assert(copied@ =~= v@);
                    }
                    all.append(&mut copied);
                },
                None => {
                    any_missing = true;
                },
            }
            proof {
                assert(all@ =~= concat_cached(state.cache@, dates@.subrange(0, i + 1)));
            }
            i += 1;
        }
        proof {
            assert(dates@.subrange(0, dates@.len() as int) =~= dates@);
        }
        if all.len() == 0 && any_missing {
            return Err(DebugAppError::DateParse(String::from_str("No cached data found")));
        }
        Ok(all)
    }
}

} // verus!
