//! Replacement manager with hot, cold and candidate lists. Each list is a
//! sequence of frame indices, most recent at the front; the pointer-linked
//! lists of a classical implementation are expressed as index sequences.

use vstd::prelude::*;

verus! {

/// The first position of `x` in `s`, from `i` on.
pub open spec fn find_idx(s: Seq<usize>, x: usize, i: int) -> Option<int>
    decreases s.len() - i,
{
    if i < 0 || i >= s.len() {
        None
    } else if s[i] == x {
        Some(i)
    } else {
        find_idx(s, x, i + 1)
    }
}

/// A list of frame indices, front first.
#[derive(Debug)]
pub struct DoublyLinkedList {
    items: Vec<usize>,
}

impl DoublyLinkedList {
    /// The indices in list order, front first.
    pub closed spec fn view_list(self) -> Seq<usize> {
        self.items@
    }

    /// Creates an empty list.
    pub fn new() -> (r: Self)
        ensures
            r.view_list().len() == 0,
    {
        Self { items: Vec::new() }
    }

    /// The number of entries.
    pub fn length(&self) -> (r: usize)
        ensures
            r == self.view_list().len(),
    {
        self.items.len()
    }

    /// Adds an index at the front.
    pub fn push_front(&mut self, x: usize)
        ensures
            final(self).view_list() == seq![x] + old(self).view_list(),
    {
        self.items.insert(0, x);
        proof {
            assert(self.view_list() =~= seq![x] + old(self).view_list());
        }
    }

    /// Removes and returns the back index; `None` exactly when empty.
    pub fn pop_back(&mut self) -> (r: Option<usize>)
        ensures
            old(self).view_list().len() == 0 ==> (r is None && final(self).view_list() == old(
                self,
            ).view_list()),
            old(self).view_list().len() > 0 ==> (r matches Some(x) && x == old(
                self,
            ).view_list().last() && final(self).view_list() == old(
                self,
            ).view_list().drop_last()),
    {
        self.items.pop()
    }

    /// Whether the list holds `x`.
    pub fn contains_value(&self, x: usize) -> (r: bool)
        ensures
            r == (find_idx(self.view_list(), x, 0) is Some),
    {
        let n = self.items.len();
        let mut i: usize = 0;
        while i < n
            invariant
                0 <= i <= n,
                n == self.view_list().len(),
                find_idx(self.view_list(), x, 0) == find_idx(self.view_list(), x, i as int),
            decreases n - i,
        {
            if self.items[i] == x {
                proof {
                    assert(find_idx(self.view_list(), x, i as int) == Some(i as int));
                }
                return true;
            }
            i = i + 1;
        }
        proof {
            assert(find_idx(self.view_list(), x, 0) is None);
        }
        false
    }

    /// Removes the first occurrence of `x`, if any.
    pub fn remove_value(&mut self, x: usize) -> (r: bool)
        ensures
            r == (find_idx(old(self).view_list(), x, 0) is Some),
            r ==> (find_idx(old(self).view_list(), x, 0) matches Some(i) && final(self).view_list() == old(self).view_list().remove(i)),
            !r ==> final(self).view_list() == old(self).view_list(),
    {
        let n = self.items.len();
        let mut i: usize = 0;
        while i < n
            invariant
                0 <= i <= n,
                n == self.view_list().len(),
                *self == *old(self),
                find_idx(self.view_list(), x, 0) == find_idx(self.view_list(), x, i as int),
            decreases n - i,
        {
            if self.items[i] == x {
                proof {
                    assert(find_idx(self.view_list(), x, i as int) == Some(i as int));
                }
                self.items.remove(i);
                return true;
            }
            i = i + 1;
        }
        proof {
            assert(find_idx(self.view_list(), x, 0) is None);
        }
        false
    }

    /// Moves the first occurrence of `x` to the front; does nothing when
    /// `x` is absent.
    pub fn move_to_front(&mut self, x: usize)
        ensures
            find_idx(old(self).view_list(), x, 0) matches Some(i) ==> final(self).view_list()
                == seq![x] + old(self).view_list().remove(i),
            find_idx(old(self).view_list(), x, 0) is None ==> final(self).view_list() == old(
                self,
            ).view_list(),
    {
        proof {
            if find_idx(old(self).view_list(), x, 0) matches Some(i) {
                lemma_find_idx_found(old(self).view_list(), x, 0);
            }
        }
        if self.remove_value(x) {
            self.push_front(x);
        }
    }
}

/// A found position lies in range and holds the value.
proof fn lemma_find_idx_found(s: Seq<usize>, x: usize, j: int)
    requires
        0 <= j <= s.len(),
    ensures
        find_idx(s, x, j) matches Some(k) ==> j <= k < s.len() && s[k] == x,
    decreases s.len() - j,
{
    if j < s.len() {
        lemma_find_idx_found(s, x, j + 1);
    }
}

/// Replacement manager: new frames enter the cold list; accessed frames are
/// promoted to the hot list; frames falling off the cold list wait in the
/// candidate list, from whose back eviction takes its victims first.
#[derive(Debug)]
pub struct LruManager {
    /// Frequently accessed frames.
    pub hot_list: DoublyLinkedList,
    /// Recently added frames.
    pub cold_list: DoublyLinkedList,
    /// Frames waiting to be evicted or promoted.
    pub candidate_list: DoublyLinkedList,
    /// Maximum hot-list length.
    pub hot_capacity: usize,
    /// Maximum cold-list length.
    pub cold_capacity: usize,
    /// Maximum candidate-list length.
    pub candidate_capacity: usize,
}

impl LruManager {
    /// Creates a manager with the given capacities and empty lists.
    pub fn new(hot_capacity: usize, cold_capacity: usize, candidate_capacity: usize) -> (r: Self)
        ensures
            r.hot_list.view_list().len() == 0,
            r.cold_list.view_list().len() == 0,
            r.candidate_list.view_list().len() == 0,
            r.hot_capacity == hot_capacity,
            r.cold_capacity == cold_capacity,
            r.candidate_capacity == candidate_capacity,
    {
        Self {
            hot_list: DoublyLinkedList::new(),
            cold_list: DoublyLinkedList::new(),
            candidate_list: DoublyLinkedList::new(),
            hot_capacity,
            cold_capacity,
            candidate_capacity,
        }
    }

    /// The cold list after an addition at the front: the new frame enters,
    /// and the back leaves when the list would overflow.
    pub open spec fn spec_add_cold(self, idx: usize) -> Seq<usize> {
        let cold1 = seq![idx] + self.cold_list.view_list();
        if cold1.len() > self.cold_capacity {
            cold1.drop_last()
        } else {
            cold1
        }
    }

    /// The candidate list after an addition: unchanged unless the cold list
    /// overflows, in which case its back enters at the candidate front and a
    /// candidate overflow drops the candidate back.
    pub open spec fn spec_add_candidate(self, idx: usize) -> Seq<usize> {
        let cold1 = seq![idx] + self.cold_list.view_list();
        if cold1.len() > self.cold_capacity {
            let cand1 = seq![cold1.last()] + self.candidate_list.view_list();
            if cand1.len() > self.candidate_capacity {
                cand1.drop_last()
            } else {
                cand1
            }
        } else {
            self.candidate_list.view_list()
        }
    }

    /// Adds a frame: it enters the cold list's front; a cold overflow moves
    /// the cold back into the candidate list, and a candidate overflow drops
    /// the candidate back.
    pub fn add(&mut self, idx: usize)
        ensures
            final(self).hot_list.view_list() == old(self).hot_list.view_list(),
            final(self).hot_capacity == old(self).hot_capacity,
            final(self).cold_capacity == old(self).cold_capacity,
            final(self).candidate_capacity == old(self).candidate_capacity,
            final(self).cold_list.view_list() == old(self).spec_add_cold(idx),
            final(self).candidate_list.view_list() == old(self).spec_add_candidate(idx),
    {
        self.cold_list.push_front(idx);
        if self.cold_list.length() > self.cold_capacity {
            match self.cold_list.pop_back() {
                Some(demoted) => {
                    self.candidate_list.push_front(demoted);
                    if self.candidate_list.length() > self.candidate_capacity {
                        self.candidate_list.pop_back();
                    }
                },
                None => {},
            }
        }
    }

    /// Accesses a frame: a candidate or cold frame is promoted to the hot
    /// list's front (a hot overflow demotes the hot back to the cold front,
    /// cascading as an addition does); a hot frame moves to the hot front;
    /// an unknown frame is ignored.
    pub fn access(&mut self, idx: usize)
        ensures
            final(self).hot_capacity == old(self).hot_capacity,
            final(self).cold_capacity == old(self).cold_capacity,
            final(self).candidate_capacity == old(self).candidate_capacity,
            lru_access_transition(*old(self), *final(self), idx),
    {
        if self.candidate_list.contains_value(idx) {
            self.candidate_list.remove_value(idx);
            self.hot_list.push_front(idx);
            if self.hot_list.length() > self.hot_capacity {
                match self.hot_list.pop_back() {
                    Some(demoted) => {
                        self.cold_list.push_front(demoted);
                        if self.cold_list.length() > self.cold_capacity {
                            match self.cold_list.pop_back() {
                                Some(evicted) => {
                                    self.candidate_list.push_front(evicted);
                                    if self.candidate_list.length()
                                        > self.candidate_capacity {
                                        self.candidate_list.pop_back();
                                    }
                                },
                                None => {},
                            }
                        }
                    },
                    None => {},
                }
            }
        } else if self.cold_list.contains_value(idx) {
            self.cold_list.remove_value(idx);
            self.hot_list.push_front(idx);
            if self.hot_list.length() > self.hot_capacity {
                match self.hot_list.pop_back() {
                    Some(demoted) => {
                        self.cold_list.push_front(demoted);
                    },
                    None => {},
                }
            }
        } else if self.hot_list.contains_value(idx) {
            self.hot_list.move_to_front(idx);
        }
    }

    /// Evicts a frame: the candidate back when the candidate list is not
    /// empty, else the cold back, else the hot back; `None` when all three
    /// lists are empty.
    pub fn evict(&mut self) -> (r: Option<usize>)
        ensures
            final(self).hot_capacity == old(self).hot_capacity,
            final(self).cold_capacity == old(self).cold_capacity,
            final(self).candidate_capacity == old(self).candidate_capacity,
            old(self).candidate_list.view_list().len() > 0 ==> (r matches Some(x) && x == old(
                self,
            ).candidate_list.view_list().last() && final(self).candidate_list.view_list() == old(
                self,
            ).candidate_list.view_list().drop_last() && final(self).cold_list.view_list() == old(
                self,
            ).cold_list.view_list() && final(self).hot_list.view_list() == old(
                self,
            ).hot_list.view_list()),
            old(self).candidate_list.view_list().len() == 0 && old(
                self,
            ).cold_list.view_list().len() > 0 ==> (r matches Some(x) && x == old(
                self,
            ).cold_list.view_list().last() && final(self).cold_list.view_list() == old(
                self,
            ).cold_list.view_list().drop_last() && final(self).candidate_list.view_list() == old(
                self,
            ).candidate_list.view_list() && final(self).hot_list.view_list() == old(
                self,
            ).hot_list.view_list()),
            old(self).candidate_list.view_list().len() == 0 && old(
                self,
            ).cold_list.view_list().len() == 0 && old(self).hot_list.view_list().len() > 0 ==> (
            r matches Some(x) && x == old(self).hot_list.view_list().last() && final(self).hot_list.view_list() == old(self).hot_list.view_list().drop_last() && final(self).candidate_list.view_list() == old(self).candidate_list.view_list() && final(self).cold_list.view_list() == old(self).cold_list.view_list()),
            old(self).candidate_list.view_list().len() == 0 && old(
                self,
            ).cold_list.view_list().len() == 0 && old(self).hot_list.view_list().len() == 0 ==> (
            r is None && final(self).candidate_list.view_list() == old(
                self,
            ).candidate_list.view_list() && final(self).cold_list.view_list() == old(
                self,
            ).cold_list.view_list() && final(self).hot_list.view_list() == old(
                self,
            ).hot_list.view_list()),
    {
        if self.candidate_list.length() > 0 {
            return self.candidate_list.pop_back();
        }
        if self.cold_list.length() > 0 {
            return self.cold_list.pop_back();
        }
        self.hot_list.pop_back()
    }
}

/// The access transition: how the three lists change when frame `idx` is
/// accessed.
pub open spec fn lru_access_transition(pre: LruManager, post: LruManager, idx: usize) -> bool {
    let cand = pre.candidate_list.view_list();
    let cold = pre.cold_list.view_list();
    let hot = pre.hot_list.view_list();
    if find_idx(cand, idx, 0) is Some {
        // Promoted from the candidate list; a hot overflow demotes the hot
        // back into the cold list, cascading like an addition.
        let cand1 = cand.remove(find_idx(cand, idx, 0).unwrap());
        let hot1 = seq![idx] + hot;
        if hot1.len() > pre.hot_capacity {
            let demoted = hot1.last();
            let hot2 = hot1.drop_last();
            let cold1 = seq![demoted] + cold;
            if cold1.len() > pre.cold_capacity {
                let evicted = cold1.last();
                let cold2 = cold1.drop_last();
                let cand2 = seq![evicted] + cand1;
                let cand3 = if cand2.len() > pre.candidate_capacity {
                    cand2.drop_last()
                } else {
                    cand2
                };
                post.hot_list.view_list() == hot2 && post.cold_list.view_list() == cold2
                    && post.candidate_list.view_list() == cand3
            } else {
                post.hot_list.view_list() == hot2 && post.cold_list.view_list() == cold1
                    && post.candidate_list.view_list() == cand1
            }
        } else {
            post.hot_list.view_list() == hot1 && post.cold_list.view_list() == cold
                && post.candidate_list.view_list() == cand1
        }
    } else if find_idx(cold, idx, 0) is Some {
        // Promoted from the cold list; a hot overflow demotes the hot back
        // to the cold front without cascading. On a cold list within its
        // capacity the promotion first frees one place, so the demotion can
        // never overflow it and a cascade would have nothing to do: on every
        // such state this transition and the cascading one coincide.
        let cold1 = cold.remove(find_idx(cold, idx, 0).unwrap());
        let hot1 = seq![idx] + hot;
        if hot1.len() > pre.hot_capacity {
            let demoted = hot1.last();
            let hot2 = hot1.drop_last();
            post.hot_list.view_list() == hot2 && post.cold_list.view_list() == seq![demoted]
                + cold1 && post.candidate_list.view_list() == cand
        } else {
            post.hot_list.view_list() == hot1 && post.cold_list.view_list() == cold1
                && post.candidate_list.view_list() == cand
        }
    } else if find_idx(hot, idx, 0) is Some {
        // Already hot: moved to the hot front.
        post.hot_list.view_list() == seq![idx] + hot.remove(find_idx(hot, idx, 0).unwrap())
            && post.cold_list.view_list() == cold && post.candidate_list.view_list() == cand
    } else {
        // Unknown: nothing changes.
        post.hot_list.view_list() == hot && post.cold_list.view_list() == cold
            && post.candidate_list.view_list() == cand
    }
}

} // verus!
