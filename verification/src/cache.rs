//! The per-date record store.
//!
//! An entry maps a calendar date to the non-empty list of records fetched for
//! it. "Cached" and "non-empty" are synonymous: storing an empty list is a
//! no-op, so an empty fetch result stays absent and can be retried later.

use vstd::prelude::*;

use crate::dates::Date;
use crate::models::Transaksi;

verus! {

use vstd::pervasive::VecAdditionalExecFns;

/// The date-keyed record store. Abstractly a map from dates to non-empty
/// record sequences.
pub struct CacheStore {
    entries: Vec<(Date, Vec<Transaksi>)>,
}

impl View for CacheStore {
    type V = Map<Date, Seq<Transaksi>>;

    closed spec fn view(&self) -> Map<Date, Seq<Transaksi>> {
        Map::new(
            |d: Date|
                exists|i: int|
                    0 <= i < self.entries@.len() && (#[trigger] self.entries@[i]).0 == d,
            |d: Date|
                {
                    let i = choose|i: int|
                        0 <= i < self.entries@.len() && (#[trigger] self.entries@[i]).0 == d;
                    self.entries@[i].1@
                },
        )
    }
}

/// Each entry of `c` appears in the view of `c` under its own key.
proof fn lemma_view_at(c: CacheStore, i: int)
    requires
        c.wf(),
        0 <= i < c.entries@.len(),
    ensures
        c@.contains_key(c.entries@[i].0),
        c@[c.entries@[i].0] == c.entries@[i].1@,
{
    let d = c.entries@[i].0;
    assert(0 <= i < c.entries@.len() && (c.entries@[i]).0 == d);
    let j = choose|j: int| 0 <= j < c.entries@.len() && (#[trigger] c.entries@[j]).0 == d;
    assert(j == i);
}

/// A key of the view names some entry of `c`.
proof fn lemma_view_contains(c: CacheStore, d: Date) -> (i: int)
    requires
        c.wf(),
        c@.contains_key(d),
    ensures
        0 <= i < c.entries@.len(),
        c.entries@[i].0 == d,
        c@[d] == c.entries@[i].1@,
{
    let i = choose|i: int| 0 <= i < c.entries@.len() && (#[trigger] c.entries@[i]).0 == d;
    lemma_view_at(c, i);
    i
}

/// The date-and-records pairs of a sequence of entries, as abstract values.
pub open spec fn pair_views(s: Seq<(Date, Vec<Transaksi>)>) -> Seq<(Date, Seq<Transaksi>)> {
    s.map(|i: int, p: (Date, Vec<Transaksi>)| (p.0, p.1@))
}

/// Folds a pair list into a map, left to right: a pair is inserted when its
/// key is well-formed, its record list non-empty, and its key not yet present
/// — never overwriting, as the startup merge of the snapshot file demands.
pub open spec fn merge_pairs(
    m: Map<Date, Seq<Transaksi>>,
    pairs: Seq<(Date, Seq<Transaksi>)>,
) -> Map<Date, Seq<Transaksi>>
    decreases pairs.len(),
{
    if pairs.len() == 0 {
        m
    } else {
        let p = pairs[0];
        let m1 = if p.0.wf() && p.1.len() > 0 && !m.contains_key(p.0) {
            m.insert(p.0, p.1)
        } else {
            m
        };
        merge_pairs(m1, pairs.drop_first())
    }
}

impl CacheStore {
    /// Well-formed: keys are distinct well-formed dates and no stored record
    /// list is empty.
    pub closed spec fn wf(self) -> bool {
        &&& forall|i: int, j: int|
            0 <= i < j < self.entries@.len() ==> (#[trigger] self.entries@[i]).0 != (
            #[trigger] self.entries@[j]).0
        &&& forall|i: int|
            0 <= i < self.entries@.len() ==> (#[trigger] self.entries@[i]).0.wf()
                && self.entries@[i].1@.len() > 0
    }

    /// The stored entries, as abstract pairs; what a snapshot writes out.
    pub closed spec fn snapshot_pairs(self) -> Seq<(Date, Seq<Transaksi>)> {
        pair_views(self.entries@)
    }

    pub fn new() -> (r: CacheStore)
        ensures
            r.wf(),
            r@ == Map::<Date, Seq<Transaksi>>::empty(),
    {
        let r = CacheStore { entries: Vec::new() };
        proof {
            assert(r@ =~= Map::<Date, Seq<Transaksi>>::empty());
        }
        r
    }

    /// The position of the entry for `date`, if one exists.
    fn index_of(&self, date: &Date) -> (r: Option<usize>)
        ensures
            match r {
                Some(i) => 0 <= i < self.entries@.len() && self.entries@[i as int].0 == *date,
                None => forall|j: int|
                    0 <= j < self.entries@.len() ==> (#[trigger] self.entries@[j]).0 != *date,
            },
    {
        let mut i: usize = 0;
        while i < self.entries.len()
            invariant
                i <= self.entries@.len(),
                forall|j: int| 0 <= j < i ==> (#[trigger] self.entries@[j]).0 != *date,
            decreases self.entries@.len() - i,
        {
            if self.entries[i].0 == *date {
                return Some(i);
            }
            i += 1;
        }
        None
    }

    /// The records cached for `date`, if any. A `Some` answer is never empty.
    pub fn get(&self, date: &Date) -> (r: Option<&Vec<Transaksi>>)
        requires
            self.wf(),
        ensures
            match r {
                Some(v) => self@.contains_key(*date) && v@ == self@[*date] && v@.len() > 0,
                None => !self@.contains_key(*date),
            },
    {
        match self.index_of(date) {
            Some(i) => {
                proof {
                    lemma_view_at(*self, i as int);
                }
                Some(&self.entries[i].1)
            },
            None => {
                proof {
                    if self@.contains_key(*date) {
                        lemma_view_contains(*self, *date);
                    }
                }
                None
            },
        }
    }

    /// Whether `date` is cached (with a non-empty record list).
    pub fn contains(&self, date: &Date) -> (r: bool)
        requires
            self.wf(),
        ensures
            r == self@.contains_key(*date),
    {
        self.get(date).is_some()
    }

    /// Stores `records` under `date`, replacing any previous entry; a no-op
    /// when `records` is empty, so an empty result reads as "not cached".
    pub fn put(&mut self, date: Date, records: Vec<Transaksi>)
        requires
            old(self).wf(),
            date.wf(),
        ensures
            final(self).wf(),
            records@.len() == 0 ==> final(self)@ == old(self)@,
            records@.len() > 0 ==> final(self)@ == old(self)@.insert(date, records@),
    {
        if records.len() == 0 {
            return ;
        }
        let ghost recs = records@;
        match self.index_of(&date) {
            Some(i) => {
                self.entries.set(i, (date, records));
                proof {
                    let s_old = old(self).entries@;
                    let s_new = self.entries@;
                    assert(forall|j: int|
                        0 <= j < s_new.len() ==> (#[trigger] s_new[j]).0 == s_old[j].0);
                    assert(self.wf());
                    assert forall|d2: Date| self@.contains_key(d2) implies old(self)@.insert(
                        date,
                        recs,
                    ).contains_key(d2) && self@[d2] == old(self)@.insert(date, recs)[d2] by {
                        let j = lemma_view_contains(*self, d2);
                        if j == i {
                            assert(d2 == date);
                            assert(self@[d2] == recs);
                        } else {
                            lemma_view_at(*old(self), j);
                            assert(d2 != date);
                        }
                    }
                    assert forall|d2: Date|
                        old(self)@.insert(date, recs).contains_key(d2) implies self@.contains_key(
                        d2,
                    ) by {
                        if d2 == date {
                            lemma_view_at(*self, i as int);
                        } else {
                            let j = lemma_view_contains(*old(self), d2);
                            assert(j != i);
                            lemma_view_at(*self, j);
                        }
                    }
                    assert(self@ =~= old(self)@.insert(date, recs));
                }
            },
            None => {
                self.entries.push((date, records));
                proof {
                    let s_old = old(self).entries@;
                    let s_new = self.entries@;
                    assert(s_new =~= s_old.push((date, records)));
                    assert(forall|j: int| 0 <= j < s_old.len() ==> s_new[j] == s_old[j]);
                    assert(s_new[s_old.len() as int].0 == date);
                    assert(self.wf());
                    assert forall|d2: Date| self@.contains_key(d2) implies old(self)@.insert(
                        date,
                        recs,
                    ).contains_key(d2) && self@[d2] == old(self)@.insert(date, recs)[d2] by {
                        let j = lemma_view_contains(*self, d2);
                        if j == s_old.len() {
                            assert(d2 == date);
                            assert(self@[d2] == recs);
                        } else {
                            lemma_view_at(*old(self), j);
                            assert(d2 != date);
                        }
                    }
                    assert forall|d2: Date|
                        old(self)@.insert(date, recs).contains_key(d2) implies self@.contains_key(
                        d2,
                    ) by {
                        if d2 == date {
                            lemma_view_at(*self, s_old.len() as int);
                        } else {
                            let j = lemma_view_contains(*old(self), d2);
                            lemma_view_at(*self, j);
                        }
                    }
                    assert(self@ =~= old(self)@.insert(date, recs));
                }
            },
        }
    }

    /// Drops the entry for `date`, if any.
    pub fn remove(&mut self, date: &Date)
        requires
            old(self).wf(),
        ensures
            final(self).wf(),
            final(self)@ == old(self)@.remove(*date),
    {
        match self.index_of(date) {
            Some(i) => {
                self.entries.remove(i);
                proof {
                    let s_old = old(self).entries@;
                    let s_new = self.entries@;
                    assert(s_new =~= s_old.remove(i as int));
                    assert(forall|j: int| 0 <= j < i ==> s_new[j] == s_old[j]);
                    assert(forall|j: int|
                        i <= j < s_new.len() ==> (#[trigger] s_new[j]) == s_old[j + 1]);
                    assert(self.wf());
                    assert forall|d2: Date| self@.contains_key(d2) implies old(self)@.remove(
                        *date,
                    ).contains_key(d2) && self@[d2] == old(self)@.remove(*date)[d2] by {
                        let j = lemma_view_contains(*self, d2);
                        if j < i {
                            lemma_view_at(*old(self), j);
                        } else {
                            lemma_view_at(*old(self), j + 1);
                        }
                        assert(d2 != *date);
                    }
                    assert forall|d2: Date|
                        old(self)@.remove(*date).contains_key(d2) implies self@.contains_key(
                        d2,
                    ) by {
                        let j = lemma_view_contains(*old(self), d2);
                        assert(j != i);
                        if j < i {
                            lemma_view_at(*self, j);
                        } else {
                            lemma_view_at(*self, j - 1);
                        }
                    }
                    assert(self@ =~= old(self)@.remove(*date));
                }
            },
            None => {
                proof {
                    if self@.contains_key(*date) {
                        lemma_view_contains(*self, *date);
                    }
                    assert(self@ =~= old(self)@.remove(*date));
                }
            },
        }
    }

    /// A copy of every entry, for writing the snapshot file.
    pub fn snapshot(&self) -> (r: Vec<(Date, Vec<Transaksi>)>)
        requires
            self.wf(),
        ensures
            pair_views(r@) == self.snapshot_pairs(),
    {
        let mut r: Vec<(Date, Vec<Transaksi>)> = Vec::new();
        let mut i: usize = 0;
        while i < self.entries.len()
            invariant
                self.wf(),
                i <= self.entries@.len(),
                r@.len() == i,
                forall|k: int|
                    0 <= k < i ==> (#[trigger] r@[k]).0 == self.entries@[k].0 && r@[k].1@
                        == self.entries@[k].1@,
            decreases self.entries@.len() - i,
        {
            let e = &self.entries[i];
            let copied = e.1.clone();
            proof {
                assert(copied@ =~= self.entries@[i as int].1@);
            }
            r.push((e.0, copied));
            i += 1;
        }
        proof {
            assert forall|k: int|
                0 <= k < r@.len() implies pair_views(r@)[k] == self.snapshot_pairs()[k] by {
                assert(pair_views(r@)[k] == (r@[k].0, r@[k].1@));
                assert(self.snapshot_pairs()[k] == (self.entries@[k].0, self.entries@[k].1@));
            }
            assert(pair_views(r@) =~= self.snapshot_pairs());
        }
        r
    }

    /// Merges a loaded snapshot: inserts only well-formed keys with non-empty
    /// records that are not already in memory — the memory value always wins.
    pub fn load_merge(&mut self, mapping: &Vec<(Date, Vec<Transaksi>)>)
        requires
            old(self).wf(),
        ensures
            final(self).wf(),
            final(self)@ == merge_pairs(old(self)@, pair_views(mapping@)),
    {
        proof {
            assert(pair_views(mapping@).skip(0) =~= pair_views(mapping@));
        }
        let mut k: usize = 0;
        while k < mapping.len()
            invariant
                self.wf(),
                k <= mapping@.len(),
                merge_pairs(old(self)@, pair_views(mapping@)) == merge_pairs(
                    self@,
                    pair_views(mapping@).skip(k as int),
                ),
            decreases mapping@.len() - k,
        {
            let ghost pre = self@;
            let ghost rest = pair_views(mapping@).skip(k as int);
            let e = &mapping[k];
            let date = e.0;
            let wf_key = date.is_wf();
            let nonempty = e.1.len() > 0;
            let absent = !self.contains(&date);
            if wf_key && nonempty && absent {
                let records = e.1.clone();
                proof {
                    assert(records@ =~= e.1@);
                }
                self.put(date, records);
            }
            proof {
                assert(rest[0] == (date, e.1@));
                assert(rest.drop_first() =~= pair_views(mapping@).skip(k + 1));
                assert(merge_pairs(pre, rest) == merge_pairs(self@, rest.drop_first()));
            }
            k += 1;
        }
        proof {
            assert(pair_views(mapping@).skip(mapping@.len() as int) =~= Seq::<(
                Date,
                Seq<Transaksi>,
            )>::empty());
        }
    }
}

// ---------------------------------------------------------------------------
// Laws
// ---------------------------------------------------------------------------

/// A well-formed cache never maps a date to an empty record sequence: since
/// storing an empty list is a no-op, a read can never answer with `Some` of
/// an empty list.
pub proof fn lemma_cached_nonempty(c: CacheStore, d: Date)
    requires
        c.wf(),
    ensures
        c@.contains_key(d) ==> c@[d].len() > 0,
{
    if c@.contains_key(d) {
        lemma_view_contains(c, d);
    }
}

/// Merging a snapshot never overwrites: a date already in memory keeps its
/// in-memory records, whatever the snapshot holds for it.
pub proof fn lemma_merge_keeps_existing(
    m: Map<Date, Seq<Transaksi>>,
    pairs: Seq<(Date, Seq<Transaksi>)>,
    d: Date,
)
    requires
        m.contains_key(d),
    ensures
        merge_pairs(m, pairs).contains_key(d),
        merge_pairs(m, pairs)[d] == m[d],
    decreases pairs.len(),
{
    if pairs.len() > 0 {
        let p = pairs[0];
        let m1 = if p.0.wf() && p.1.len() > 0 && !m.contains_key(p.0) {
            m.insert(p.0, p.1)
        } else {
            m
        };
        lemma_merge_keeps_existing(m1, pairs.drop_first(), d);
    }
}

/// What a merge produces, pair by pair: existing keys keep their value, a
/// well-formed new key with non-empty records takes the value of its first
/// pair, and nothing else appears.
pub proof fn lemma_merge_pairs_characterization(
    m: Map<Date, Seq<Transaksi>>,
    pairs: Seq<(Date, Seq<Transaksi>)>,
)
    requires
        forall|i: int, j: int| 0 <= i < j < pairs.len() ==> (#[trigger] pairs[i]).0 != (
        #[trigger] pairs[j]).0,
    ensures
        forall|d: Date|
            #![trigger merge_pairs(m, pairs).contains_key(d)]
            m.contains_key(d) ==> merge_pairs(m, pairs).contains_key(d) && merge_pairs(m, pairs)[d]
                == m[d],
        forall|i: int|
            #![trigger pairs[i]]
            0 <= i < pairs.len() && pairs[i].0.wf() && pairs[i].1.len() > 0 && !m.contains_key(
                pairs[i].0,
            ) ==> merge_pairs(m, pairs).contains_key(pairs[i].0) && merge_pairs(m, pairs)[pairs[i].0]
                == pairs[i].1,
        forall|d: Date|
            #![trigger merge_pairs(m, pairs).contains_key(d)]
            merge_pairs(m, pairs).contains_key(d) ==> m.contains_key(d) || exists|i: int|
                0 <= i < pairs.len() && (#[trigger] pairs[i]).0 == d,
    decreases pairs.len(),
{
    if pairs.len() > 0 {
        let p = pairs[0];
        let m1 = if p.0.wf() && p.1.len() > 0 && !m.contains_key(p.0) {
            m.insert(p.0, p.1)
        } else {
            m
        };
        assert(merge_pairs(m, pairs) == merge_pairs(m1, pairs.drop_first()));
        lemma_merge_pairs_characterization(m1, pairs.drop_first());
        assert forall|d: Date|
            #![trigger merge_pairs(m, pairs).contains_key(d)]
            m.contains_key(d) implies merge_pairs(m, pairs).contains_key(d) && merge_pairs(
            m,
            pairs,
        )[d] == m[d] by {
            assert(m1.contains_key(d) && m1[d] == m[d]);
            lemma_merge_keeps_existing(m1, pairs.drop_first(), d);
        }
        assert forall|i: int|
            #![trigger pairs[i]]
            0 <= i < pairs.len() && pairs[i].0.wf() && pairs[i].1.len() > 0 && !m.contains_key(
                pairs[i].0,
            ) implies merge_pairs(m, pairs).contains_key(pairs[i].0) && merge_pairs(m, pairs)[pairs[i].0]
            == pairs[i].1 by {
            if i == 0 {
                assert(m1.contains_key(p.0) && m1[p.0] == p.1);
                lemma_merge_keeps_existing(m1, pairs.drop_first(), p.0);
            } else {
                assert(pairs.drop_first()[i - 1] == pairs[i]);
                assert(pairs[i].0 != p.0);
                assert(!m1.contains_key(pairs[i].0));
            }
        }
        assert forall|d: Date|
            #![trigger merge_pairs(m, pairs).contains_key(d)]
            merge_pairs(m, pairs).contains_key(d) implies m.contains_key(d) || exists|i: int|
            0 <= i < pairs.len() && (#[trigger] pairs[i]).0 == d by {
            if !m.contains_key(d) {
                if m1.contains_key(d) {
                    assert(pairs[0].0 == d);
                } else {
                    assert(merge_pairs(m1, pairs.drop_first()).contains_key(d));
                    let i = choose|i: int|
                        0 <= i < pairs.drop_first().len() && (#[trigger] pairs.drop_first()[i]).0
                            == d;
                    assert(pairs[i + 1].0 == d);
                }
            }
        }
    }
}

/// Round trip: loading a snapshot of a well-formed cache into an empty cache
/// reproduces exactly the entries of the original (all of them non-empty).
pub proof fn lemma_snapshot_round_trip(c: CacheStore)
    requires
        c.wf(),
    ensures
        merge_pairs(Map::<Date, Seq<Transaksi>>::empty(), c.snapshot_pairs()) == c@,
{
    let pairs = c.snapshot_pairs();
    let m0 = Map::<Date, Seq<Transaksi>>::empty();
    assert(forall|i: int|
        0 <= i < pairs.len() ==> (#[trigger] pairs[i]) == (c.entries@[i].0, c.entries@[i].1@));
    lemma_merge_pairs_characterization(m0, pairs);
    let r = merge_pairs(m0, pairs);
    assert forall|d: Date| r.contains_key(d) implies c@.contains_key(d) && r[d] == c@[d] by {
        let i = choose|i: int| 0 <= i < pairs.len() && (#[trigger] pairs[i]).0 == d;
        lemma_view_at(c, i);
    }
    assert forall|d: Date| c@.contains_key(d) implies r.contains_key(d) by {
        let i = lemma_view_contains(c, d);
        assert(pairs[i].0 == d && pairs[i].1 == c.entries@[i].1@);
    }
    assert(r =~= c@);
}

} // verus!
