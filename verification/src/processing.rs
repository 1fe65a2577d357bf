//! The per-date in-flight marks.
//!
//! A date is marked before any fetch for it begins and unmarked on every exit
//! path. Acquisition is advisory check-and-set: a caller that loses the race
//! skips the date, it never waits.

use vstd::prelude::*;

use crate::dates::Date;

verus! {

/// The set of dates some job is currently fetching.
pub struct ProcessingLockTable {
    marks: Vec<Date>,
}

impl View for ProcessingLockTable {
    type V = Set<Date>;

    closed spec fn view(&self) -> Set<Date> {
        Set::new(
            |d: Date| exists|i: int| 0 <= i < self.marks@.len() && #[trigger] self.marks@[i] == d,
        )
    }
}

impl ProcessingLockTable {
    /// Well-formed: no date is marked twice.
    pub closed spec fn wf(self) -> bool {
        forall|i: int, j: int|
            0 <= i < j < self.marks@.len() ==> #[trigger] self.marks@[i] != #[trigger] self.marks@[j]
    }

    pub fn new() -> (r: ProcessingLockTable)
        ensures
            r.wf(),
            r@ == Set::<Date>::empty(),
    {
        let r = ProcessingLockTable { marks: Vec::new() };
        proof {
            assert(r@ =~= Set::<Date>::empty());
        }
        r
    }

    /// The position of the mark for `date`, if it is held.
    fn index_of(&self, date: &Date) -> (r: Option<usize>)
        ensures
            match r {
                Some(i) => 0 <= i < self.marks@.len() && self.marks@[i as int] == *date,
                None => forall|j: int|
                    0 <= j < self.marks@.len() ==> #[trigger] self.marks@[j] != *date,
            },
    {
        let mut i: usize = 0;
        while i < self.marks.len()
            invariant
                i <= self.marks@.len(),
                forall|j: int| 0 <= j < i ==> #[trigger] self.marks@[j] != *date,
            decreases self.marks@.len() - i,
        {
            if self.marks[i] == *date {
                return Some(i);
            }
            i += 1;
        }
        None
    }

    /// Whether `date` is currently marked.
    pub fn contains(&self, date: &Date) -> (r: bool)
        ensures
            r == self@.contains(*date),
    {
        self.index_of(date).is_some()
    }

    /// Atomic check-and-set: marks `date` and answers true, or answers false
    /// when the mark is already held — the caller must skip, not wait.
    pub fn try_acquire(&mut self, date: Date) -> (r: bool)
        requires
            old(self).wf(),
        ensures
            final(self).wf(),
            r == !old(self)@.contains(date),
            final(self)@ == old(self)@.insert(date),
    {
        match self.index_of(&date) {
            Some(_) => {
                proof {
                    assert(old(self)@ =~= old(self)@.insert(date));
                }
                false
            },
            None => {
                self.marks.push(date);
                proof {
                    let s_old = old(self).marks@;
                    assert(self.marks@ =~= s_old.push(date));
                    assert(forall|j: int| 0 <= j < s_old.len() ==> self.marks@[j] == s_old[j]);
                    assert(self.marks@[s_old.len() as int] == date);
                    assert(self.wf());
                    assert forall|d2: Date| self@.contains(d2) implies old(self)@.insert(
                        date,
                    ).contains(d2) by {
                        let j = choose|j: int|
                            0 <= j < self.marks@.len() && #[trigger] self.marks@[j] == d2;
                        if j < s_old.len() {
                            assert(s_old[j] == d2);
                        }
                    }
                    assert(self@ =~= old(self)@.insert(date));
                }
                true
            },
        }
    }

    /// Unmarks `date` unconditionally.
    pub fn release(&mut self, date: &Date)
        requires
            old(self).wf(),
        ensures
            final(self).wf(),
            final(self)@ == old(self)@.remove(*date),
    {
        match self.index_of(date) {
            Some(i) => {
                self.marks.remove(i);
                proof {
                    let s_old = old(self).marks@;
                    let s_new = self.marks@;
                    assert(s_new =~= s_old.remove(i as int));
                    assert(forall|j: int| 0 <= j < i ==> s_new[j] == s_old[j]);
                    assert(forall|j: int| i <= j < s_new.len() ==> #[trigger] s_new[j] == s_old[j + 1]);
                    assert(self.wf());
                    assert forall|d2: Date| self@.contains(d2) implies old(self)@.remove(
                        *date,
                    ).contains(d2) by {
                        let j = choose|j: int| 0 <= j < s_new.len() && #[trigger] s_new[j] == d2;
                        if j < i {
                            assert(s_old[j] == d2);
                        } else {
                            assert(s_old[j + 1] == d2);
                        }
                        assert(d2 != *date);
                    }
                    assert forall|d2: Date| old(self)@.remove(*date).contains(d2) implies
                    self@.contains(d2) by {
                        let j = choose|j: int| 0 <= j < s_old.len() && #[trigger] s_old[j] == d2;
                        assert(j != i);
                        if j < i {
                            assert(s_new[j] == d2);
                        } else {
                            assert(s_new[j - 1] == d2);
                        }
                    }
                    assert(self@ =~= old(self)@.remove(*date));
                }
            },
            None => {
                proof {
                    if self@.contains(*date) {
                        let j = choose|j: int|
                            0 <= j < self.marks@.len() && #[trigger] self.marks@[j] == *date;
                    }
                    assert(self@ =~= old(self)@.remove(*date));
                }
            },
        }
    }

    /// Drops every mark: the blanket recovery step of periodic cleanup.
    pub fn clear(&mut self)
        ensures
            final(self).wf(),
            final(self)@ == Set::<Date>::empty(),
    {
        self.marks = Vec::new();
        proof {
            assert(self@ =~= Set::<Date>::empty());
        }
    }
}

} // verus!
