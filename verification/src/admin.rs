//! The admin-operation gate: at most one instance of a named maintenance
//! operation runs at a time. Starting does not queue — a second start of the
//! same name is simply refused until the first completes.

use vstd::prelude::*;

use crate::strutil::str_eq;

verus! {

/// The names of the maintenance operations currently running.
pub struct AdminOperationGate {
    running: Vec<String>,
}

impl View for AdminOperationGate {
    type V = Set<Seq<char>>;

    closed spec fn view(&self) -> Set<Seq<char>> {
        Set::new(
            |n: Seq<char>|
                exists|i: int| 0 <= i < self.running@.len() && (#[trigger] self.running@[i])@ == n,
        )
    }
}

impl AdminOperationGate {
    /// Well-formed: no name appears twice.
    pub closed spec fn wf(self) -> bool {
        forall|i: int, j: int|
            0 <= i < j < self.running@.len() ==> (#[trigger] self.running@[i])@ != (
            #[trigger] self.running@[j])@
    }

    pub fn new() -> (r: AdminOperationGate)
        ensures
            r.wf(),
            r@ == Set::<Seq<char>>::empty(),
    {
        let r = AdminOperationGate { running: Vec::new() };
        proof {
            assert(r@ =~= Set::<Seq<char>>::empty());
        }
        r
    }

    /// The position of `operation` among the running names, if present.
    fn index_of(&self, operation: &str) -> (r: Option<usize>)
        ensures
            match r {
                Some(i) => 0 <= i < self.running@.len() && self.running@[i as int]@ == operation@,
                None => forall|j: int|
                    0 <= j < self.running@.len() ==> (#[trigger] self.running@[j])@ != operation@,
            },
    {
        let mut i: usize = 0;
        while i < self.running.len()
            invariant
                i <= self.running@.len(),
                forall|j: int| 0 <= j < i ==> (#[trigger] self.running@[j])@ != operation@,
            decreases self.running@.len() - i,
        {
            if str_eq(self.running[i].as_str(), operation) {
                return Some(i);
            }
            i += 1;
        }
        None
    }

    /// Whether an instance of `operation` is currently running.
    pub fn is_running(&self, operation: &str) -> (r: bool)
        ensures
            r == self@.contains(operation@),
    {
        self.index_of(operation).is_some()
    }

    /// Marks `operation` running and answers true, or answers false when an
    /// instance is already running.
    pub fn try_start(&mut self, operation: &str) -> (r: bool)
        requires
            old(self).wf(),
        ensures
            final(self).wf(),
            r == !old(self)@.contains(operation@),
            final(self)@ == old(self)@.insert(operation@),
    {
        match self.index_of(operation) {
            Some(_) => {
                proof {
                    assert(old(self)@ =~= old(self)@.insert(operation@));
                }
                false
            },
            None => {
                self.running.push(operation.to_owned());
                proof {
                    let s_old = old(self).running@;
                    assert(forall|j: int| 0 <= j < s_old.len() ==> self.running@[j] == s_old[j]);
                    assert(self.running@[s_old.len() as int]@ == operation@);
                    assert(self.wf());
                    assert forall|n: Seq<char>| self@.contains(n) implies old(self)@.insert(
                        operation@,
                    ).contains(n) by {
                        let j = choose|j: int|
                            0 <= j < self.running@.len() && (#[trigger] self.running@[j])@ == n;
                        if j < s_old.len() {
                            assert(s_old[j]@ == n);
                        }
                    }
                    assert(self@ =~= old(self)@.insert(operation@));
                }
                true
            },
        }
    }

    /// Marks `operation` not running.
    pub fn complete(&mut self, operation: &str)
        requires
            old(self).wf(),
        ensures
            final(self).wf(),
            final(self)@ == old(self)@.remove(operation@),
    {
        match self.index_of(operation) {
            Some(i) => {
                self.running.remove(i);
                proof {
                    let s_old = old(self).running@;
                    let s_new = self.running@;
                    assert(s_new =~= s_old.remove(i as int));
                    assert(forall|j: int| 0 <= j < i ==> s_new[j] == s_old[j]);
                    assert(forall|j: int|
                        i <= j < s_new.len() ==> #[trigger] s_new[j] == s_old[j + 1]);
                    assert(self.wf());
                    assert forall|n: Seq<char>| self@.contains(n) implies old(self)@.remove(
                        operation@,
                    ).contains(n) by {
                        let j = choose|j: int|
                            0 <= j < s_new.len() && (#[trigger] s_new[j])@ == n;
                        if j < i {
                            assert(s_old[j]@ == n);
                        } else {
                            assert(s_old[j + 1]@ == n);
                        }
                        assert(n != operation@);
                    }
                    assert forall|n: Seq<char>| old(self)@.remove(operation@).contains(n) implies
                    self@.contains(n) by {
                        let j = choose|j: int|
                            0 <= j < s_old.len() && (#[trigger] s_old[j])@ == n;
                        assert(j != i);
                        if j < i {
                            assert(s_new[j]@ == n);
                        } else {
                            assert(s_new[j - 1]@ == n);
                        }
                    }
                    assert(self@ =~= old(self)@.remove(operation@));
                }
            },
            None => {
                proof {
                    if self@.contains(operation@) {
                        let j = choose|j: int|
                            0 <= j < self.running@.len() && (#[trigger] self.running@[j])@
                                == operation@;
                    }
                    assert(self@ =~= old(self)@.remove(operation@));
                }
            },
        }
    }
}

} // verus!
