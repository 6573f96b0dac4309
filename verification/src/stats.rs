//! Per-user press counts for the submission button: a small keyed counter
//! store, queried for display.

use vstd::prelude::*;
use crate::assoc::{assoc_find, unique_keys, lemma_assoc_find_none, lemma_assoc_find_at,
    lemma_assoc_find_update, lemma_assoc_find_push};
use crate::config::map_find_index;

verus! {

/// user -> number of presses. Users never pressed are simply absent.
pub struct ButtonStats {
    press_counts: Vec<(u64, u64)>,
}

impl View for ButtonStats {
    type V = Seq<(u64, u64)>;

    closed spec fn view(&self) -> Seq<(u64, u64)> {
        self.press_counts@
    }
}

impl ButtonStats {
    /// One entry per user.
    pub open spec fn wf(self) -> bool {
        unique_keys(self@)
    }

    /// The press count of a user; zero when absent.
    pub open spec fn count(self, user_id: u64) -> u64 {
        match assoc_find(self@, user_id) {
            Some(v) => v,
            None => 0,
        }
    }

    /// An empty counter store.
    pub fn new() -> (r: ButtonStats)
        ensures
            r.wf(),
            r@ == Seq::<(u64, u64)>::empty(),
    {
        let r = ButtonStats { press_counts: Vec::new() };
        assert(r@ =~= Seq::<(u64, u64)>::empty());
        r
    }

    /// The press count of a user; zero when the user never pressed.
    pub fn get_count(&self, user_id: u64) -> (r: u64)
        ensures
            r == self.count(user_id),
    {
        match map_find_index(&self.press_counts, user_id) {
            Some(i) => {
                proof {
                    lemma_assoc_find_at(self@, user_id, i as int);
                }
                self.press_counts[i].1
            },
            None => {
                proof {
                    lemma_assoc_find_none(self@, user_id);
                }
                0
            },
        }
    }

    /// Adds one press for a user. Every other user's count is untouched.
    /// The count must not already be at its maximum.
    pub fn increment(&mut self, user_id: u64)
        requires
            old(self).wf(),
            old(self).count(user_id) < u64::MAX,
        ensures
            final(self).wf(),
            final(self).count(user_id) == old(self).count(user_id) + 1,
            forall|u2: u64| u2 != user_id ==> final(self).count(u2) == old(self).count(u2),
    {
        let ghost m0 = self@;
        match map_find_index(&self.press_counts, user_id) {
            Some(i) => {
                proof {
                    lemma_assoc_find_at(m0, user_id, i as int);
                }
                let c = self.press_counts[i].1;
                self.press_counts[i] = (user_id, c + 1);
                proof {
                    assert(self@ =~= m0.update(i as int, (user_id, (c + 1) as u64)));
                    lemma_assoc_find_update(m0, i as int, (user_id, (c + 1) as u64), user_id);
                    assert forall|u2: u64| u2 != user_id implies final(self).count(u2)
                        == old(self).count(u2) by {
                        lemma_assoc_find_update(m0, i as int, (user_id, (c + 1) as u64), u2);
                    }
                    assert(forall|i2: int, j2: int|
                        0 <= i2 < j2 < self@.len() ==> (#[trigger] self@[i2]).0
                            != (#[trigger] self@[j2]).0);
                }
            },
            None => {
                proof {
                    lemma_assoc_find_none(m0, user_id);
                }
                self.press_counts.push((user_id, 1));
                proof {
                    assert(self@ =~= m0.push((user_id, 1u64)));
                    lemma_assoc_find_push(m0, (user_id, 1u64), user_id);
                    assert forall|u2: u64| u2 != user_id implies final(self).count(u2)
                        == old(self).count(u2) by {
                        lemma_assoc_find_push(m0, (user_id, 1u64), u2);
                    }
                    assert(forall|j: int| 0 <= j < m0.len() ==> (#[trigger] m0[j]).0 != user_id);
                    assert(forall|i2: int, j2: int|
                        0 <= i2 < j2 < self@.len() ==> (#[trigger] self@[i2]).0
                            != (#[trigger] self@[j2]).0);
                }
            },
        }
    }

    /// Sets the press count of a user outright, as when restoring persisted
    /// counts. Every other user's count is untouched.
    pub fn set_count(&mut self, user_id: u64, count: u64)
        requires
            old(self).wf(),
        ensures
            final(self).wf(),
            final(self).count(user_id) == count,
            forall|u2: u64| u2 != user_id ==> final(self).count(u2) == old(self).count(u2),
    {
        let ghost m0 = self@;
        match map_find_index(&self.press_counts, user_id) {
            Some(i) => {
                self.press_counts[i] = (user_id, count);
                proof {
                    assert(self@ =~= m0.update(i as int, (user_id, count)));
                    lemma_assoc_find_update(m0, i as int, (user_id, count), user_id);
                    assert forall|u2: u64| u2 != user_id implies final(self).count(u2)
                        == old(self).count(u2) by {
                        lemma_assoc_find_update(m0, i as int, (user_id, count), u2);
                    }
                    assert(forall|i2: int, j2: int|
                        0 <= i2 < j2 < self@.len() ==> (#[trigger] self@[i2]).0
                            != (#[trigger] self@[j2]).0);
                }
            },
            None => {
                proof {
                    lemma_assoc_find_none(m0, user_id);
                }
                self.press_counts.push((user_id, count));
                proof {
                    assert(self@ =~= m0.push((user_id, count)));
                    lemma_assoc_find_push(m0, (user_id, count), user_id);
                    assert forall|u2: u64| u2 != user_id implies final(self).count(u2)
                        == old(self).count(u2) by {
                        lemma_assoc_find_push(m0, (user_id, count), u2);
                    }
                    assert(forall|j: int| 0 <= j < m0.len() ==> (#[trigger] m0[j]).0 != user_id);
                    assert(forall|i2: int, j2: int|
                        0 <= i2 < j2 < self@.len() ==> (#[trigger] self@[i2]).0
                            != (#[trigger] self@[j2]).0);
                }
            },
        }
    }

    /// Every (user, count) entry, for display or persistence.
    pub fn entries(&self) -> (r: Vec<(u64, u64)>)
        ensures
            r@ == self@,
    {
        let len = self.press_counts.len();
        let mut out: Vec<(u64, u64)> = Vec::new();
        let mut i: usize = 0;
        while i < len
            invariant
                len == self@.len(),
                i <= len,
                out@ =~= self@.take(i as int),
            decreases len - i,
        {
            out.push(self.press_counts[i]);
            assert(out@ =~= self@.take(i + 1));
            i += 1;
        }
        assert(self@.take(len as int) =~= self@);
        out
    }
}

} // verus!
