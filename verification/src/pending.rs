//! The prompts that wait for the interface's answer, by request id: an
//! answer is handed to its waiter once.

use vstd::prelude::*;
use crate::text::{to_chars, eq_chars, push_str};
use crate::error::AppError;

verus! {

/// Request id → waiter; each id at most once.
pub struct PendingTable<T> {
    ids: Vec<String>,
    waiters: Vec<T>,
    map: Ghost<Map<Seq<char>, T>>,
}

impl<T> View for PendingTable<T> {
    type V = Map<Seq<char>, T>;

    closed spec fn view(&self) -> Map<Seq<char>, T> {
        self.map@
    }
}

impl<T> PendingTable<T> {
    /// The ids and waiters line up, no id occurs twice, and the map holds
    /// exactly those pairs.
    pub closed spec fn wf(&self) -> bool {
        &&& self.ids@.len() == self.waiters@.len()
        &&& forall|i: int, j: int| 0 <= i < j < self.ids@.len() ==> #[trigger] self.ids@[i]@ != #[trigger] self.ids@[j]@
        &&& forall|i: int| 0 <= i < self.ids@.len() ==> #[trigger] self.map@.contains_key(self.ids@[i]@) && self.map@[self.ids@[i]@] == self.waiters@[i]
        &&& forall|k: Seq<char>| #[trigger] self.map@.contains_key(k) ==> exists|i: int| 0 <= i < self.ids@.len() && self.ids@[i]@ == k
    }

    /// No request waits.
    pub fn new() -> (r: Self)
        ensures
            r.wf(),
            r@ == Map::<Seq<char>, T>::empty(),
    {
        PendingTable { ids: Vec::new(), waiters: Vec::new(), map: Ghost(Map::empty()) }
    }

    fn find(&self, id: &str) -> (r: Option<usize>)
        ensures
            match r {
                Some(i) => i < self.ids@.len() && self.ids@[i as int]@ == id@,
                None => forall|i: int| 0 <= i < self.ids@.len() ==> #[trigger] self.ids@[i]@ != id@,
            },
    {
        let c = to_chars(id);
        let mut i: usize = 0;
        while i < self.ids.len()
            invariant
                0 <= i <= self.ids@.len(),
                c@ == id@,
                forall|j: int| 0 <= j < i ==> #[trigger] self.ids@[j]@ != id@,
            decreases self.ids.len() - i,
        {
            let k = to_chars(self.ids[i].as_str());
            if eq_chars(k.as_slice(), c.as_slice()) {
                return Some(i);
            }
            i += 1;
        }
        None
    }

    /// Registers `waiter` for `id` (replacing one already there).
    pub fn insert(&mut self, id: String, waiter: T)
        requires
            old(self).wf(),
        ensures
            final(self).wf(),
            final(self)@ == old(self)@.insert(id@, waiter),
    {
        let ghost idv = id@;
        match self.find(id.as_str()) {
            Some(i) => {
                proof {
                    let m = self.map@.insert(idv, waiter);
                    assert(m.dom() =~= self.map@.dom());
                }
                self.waiters.set(i, waiter);
                self.map = Ghost(self.map@.insert(idv, waiter));
                proof {
                    assert forall|a: int| 0 <= a < self.ids@.len() implies #[trigger] self.map@.contains_key(self.ids@[a]@)
                        && self.map@[self.ids@[a]@] == self.waiters@[a] by {
                        if a != i as int {
                            assert(old(self).ids@[a]@ != old(self).ids@[i as int]@);
                            assert(self.waiters@[a] == old(self).waiters@[a]);
                        }
                    }
                    assert forall|k: Seq<char>| #[trigger] self.map@.contains_key(k) implies exists|j: int|
                        0 <= j < self.ids@.len() && self.ids@[j]@ == k by {
                        if k == idv {
                            assert(self.ids@[i as int]@ == k);
                        } else {
                            assert(old(self)@.contains_key(k));
                        }
                    }
                }
            },
            None => {
                let ghost old_ids = self.ids@;
                self.ids.push(id);
                self.waiters.push(waiter);
                self.map = Ghost(self.map@.insert(idv, waiter));
                proof {
                    let n = old_ids.len() as int;
                    assert(self.ids@[n]@ == idv);
                    assert forall|a: int, b: int| 0 <= a < b < self.ids@.len() implies #[trigger] self.ids@[a]@
                        != #[trigger] self.ids@[b]@ by {
                        assert(self.ids@[a] == old_ids[a]);
                        if b < n {
                            assert(self.ids@[b] == old_ids[b]);
                        }
                    }
                    assert forall|a: int| 0 <= a < self.ids@.len() implies #[trigger] self.map@.contains_key(self.ids@[a]@)
                        && self.map@[self.ids@[a]@] == self.waiters@[a] by {
                        if a < n {
                            assert(self.ids@[a] == old_ids[a]);
                        }
                    }
                    assert forall|k: Seq<char>| #[trigger] self.map@.contains_key(k) implies exists|j: int|
                        0 <= j < self.ids@.len() && self.ids@[j]@ == k by {
                        if k == idv {
                            assert(self.ids@[n]@ == k);
                        } else {
                            let j = choose|j: int| 0 <= j < old_ids.len() && old_ids[j]@ == k;
                            assert(self.ids@[j] == old_ids[j]);
                        }
                    }
                }
            },
        }
    }

    /// Hands out the waiter of `id` and forgets it, so an answer is taken
    /// once; an unknown id (never registered, or already answered) is an
    /// error.
    pub fn take(&mut self, id: &str) -> (r: Result<T, AppError>)
        requires
            old(self).wf(),
        ensures
            final(self).wf(),
            match old(self)@.get(id@) {
                Some(w) => r == Ok::<T, AppError>(w) && final(self)@ == old(self)@.remove(id@),
                None => r matches Err(AppError::Parse { message }) && message@ == "unknown credential request: "@ + id@
                    && final(self)@ == old(self)@,
            },
            !final(self)@.contains_key(id@),
    {
        match self.find(id) {
            Some(i) => {
                let ghost old_ids = self.ids@;
                let ghost old_ws = self.waiters@;
                let ghost idv = id@;
                let _ = self.ids.remove(i);
                let w = self.waiters.remove(i);
                self.map = Ghost(self.map@.remove(idv));
                proof {
                    let ii = i as int;
                    assert forall|a: int, b: int| 0 <= a < b < self.ids@.len() implies #[trigger] self.ids@[a]@
                        != #[trigger] self.ids@[b]@ by {
                        let a0 = if a < ii { a } else { a + 1 };
                        let b0 = if b < ii { b } else { b + 1 };
                        assert(self.ids@[a] == old_ids[a0]);
                        assert(self.ids@[b] == old_ids[b0]);
                    }
                    assert forall|a: int| 0 <= a < self.ids@.len() implies #[trigger] self.map@.contains_key(self.ids@[a]@)
                        && self.map@[self.ids@[a]@] == self.waiters@[a] by {
                        let a0 = if a < ii { a } else { a + 1 };
                        assert(self.ids@[a] == old_ids[a0]);
                        assert(self.waiters@[a] == old_ws[a0]);
                        assert(old_ids[ii]@ == idv);
                        if a0 < ii {
                            assert(old_ids[a0]@ != old_ids[ii]@);
                        } else {
                            assert(old_ids[ii]@ != old_ids[a0]@);
                        }
                        assert(old(self)@.contains_key(old_ids[a0]@));
                        assert(old(self)@[old_ids[a0]@] == old_ws[a0]);
                    }
                    assert forall|k: Seq<char>| #[trigger] self.map@.contains_key(k) implies exists|j: int|
                        0 <= j < self.ids@.len() && self.ids@[j]@ == k by {
                        let j0 = choose|j: int| 0 <= j < old_ids.len() && old_ids[j]@ == k;
                        assert(j0 != ii);
                        let j = if j0 < ii { j0 } else { j0 - 1 };
                        assert(self.ids@[j] == old_ids[j0]);
                    }
                }
                Ok(w)
            },
            None => {
                proof {
                    if self.map@.contains_key(id@) {
                        let j = choose|j: int| 0 <= j < self.ids@.len() && self.ids@[j]@ == id@;
                        assert(self.ids@[j]@ != id@);
                    }
                }
                let mut m = String::new();
                push_str(&mut m, "unknown credential request: ");
                push_str(&mut m, id);
                Err(AppError::parse(m))
            },
        }
    }
}

} // verus!
