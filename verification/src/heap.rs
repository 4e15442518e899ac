//! A binary min-heap of timer entries, ordered by deadline.
//!
//! Both timer wheels keep their pending timers here: the entry whose deadline
//! comes first is always at the root. Which of two entries with one deadline
//! leaves first is left open.

use vstd::multiset::Multiset;
use vstd::prelude::*;

verus! {

/// `slice::swap` exchanges the elements at the two given positions and leaves
/// the others alone. It panics where a position is out of bounds, so both are
/// required to be inside.
pub assume_specification<Elem>[ <[Elem]>::swap ](s: &mut [Elem], a: usize, b: usize)
    requires
        a < old(s)@.len(),
        b < old(s)@.len(),
    ensures
        final(s)@ == old(s)@.update(a as int, old(s)@[b as int]).update(b as int, old(s)@[a as int]),
;

/// A pending timer: when it fires, and what stands for its state.
pub struct TimerEntry<H> {
    /// The moment at which the timer fires, in nanoseconds.
    pub deadline: u128,
    /// The handle to the timer's state.
    pub state: H,
}

/// A min-heap of timer entries: earliest deadline first.
pub struct TimerHeap<H> {
    items: Vec<TimerEntry<H>>,
}

/// The entry at `i` does not come before its parent.
spec fn ordered_at<H>(s: Seq<TimerEntry<H>>, i: int) -> bool {
    s[(i - 1) / 2].deadline <= s[i].deadline
}

/// No entry comes before its parent.
spec fn is_heap<H>(s: Seq<TimerEntry<H>>) -> bool {
    forall|i: int| 0 < i < s.len() ==> #[trigger] ordered_at(s, i)
}

/// Only the entry at `at` may come before its parent, and what hangs below
/// `at` does not come before that parent either.
spec fn is_heap_above<H>(s: Seq<TimerEntry<H>>, at: int) -> bool {
    &&& forall|i: int| 0 < i < s.len() && i != at ==> #[trigger] ordered_at(s, i)
    &&& forall|i: int|
        0 < i < s.len() && at > 0 && (i - 1) / 2 == at ==> s[(at - 1) / 2].deadline <= (
        #[trigger] s[i]).deadline
}

/// Only the children of `at` may come before it, and none of them comes before
/// the parent of `at`.
spec fn is_heap_below<H>(s: Seq<TimerEntry<H>>, at: int) -> bool {
    &&& forall|i: int| 0 < i < s.len() && (i - 1) / 2 != at ==> #[trigger] ordered_at(s, i)
    &&& forall|i: int|
        0 < i < s.len() && at > 0 && (i - 1) / 2 == at ==> s[(at - 1) / 2].deadline <= (
        #[trigger] s[i]).deadline
}

/// The root of a heap has the earliest deadline.
proof fn lemma_root_is_first<H>(s: Seq<TimerEntry<H>>, i: int)
    requires
        is_heap(s),
        0 <= i < s.len(),
    ensures
        s[0].deadline <= s[i].deadline,
    decreases i,
{
    if i > 0 {
        assert(ordered_at(s, i));
        lemma_root_is_first(s, (i - 1) / 2);
    }
}

/// Exchanging two elements keeps the multiset.
proof fn lemma_swap_multiset<H>(s: Seq<TimerEntry<H>>, a: int, b: int)
    requires
        0 <= a < s.len(),
        0 <= b < s.len(),
    ensures
        s.update(a, s[b]).update(b, s[a]).to_multiset() == s.to_multiset(),
{
    broadcast use vstd::seq_lib::group_to_multiset_ensures;

    s.to_multiset_ensures();
    let t = s.update(a, s[b]);
    t.to_multiset_ensures();
    if a != b {
        assert(s.to_multiset().contains(s[a]));
        assert(s.to_multiset().contains(s[b]));
    }
    assert(t.update(b, s[a]).to_multiset() =~= s.to_multiset());
}

impl<H> View for TimerHeap<H> {
    type V = Multiset<TimerEntry<H>>;

    /// The entries of the heap.
    closed spec fn view(&self) -> Multiset<TimerEntry<H>> {
        self.items@.to_multiset()
    }
}

impl<H> TimerHeap<H> {
    /// The heap order holds.
    pub closed spec fn wf(&self) -> bool {
        is_heap(self.items@)
    }

    /// An empty heap.
    pub fn new() -> (heap: Self)
        ensures
            heap.wf(),
            heap@ == Multiset::<TimerEntry<H>>::empty(),
    {
        let heap = TimerHeap { items: Vec::new() };
        proof {
            heap.items@.to_multiset_ensures();
            assert(heap@ =~= Multiset::<TimerEntry<H>>::empty());
        }
        heap
    }

    /// Whether the heap holds nothing.
    pub fn is_empty(&self) -> (empty: bool)
        ensures
            empty == (self@.len() == 0),
    {
        proof {
            self.items@.to_multiset_ensures();
        }
        self.items.is_empty()
    }

    /// An entry with the earliest deadline.
    pub fn peek(&self) -> (first: Option<&TimerEntry<H>>)
        requires
            self.wf(),
        ensures
            match first {
                Some(entry) => {
                    &&& self@.contains(*entry)
                    &&& forall|e: TimerEntry<H>|
                        self@.contains(e) ==> entry.deadline <= (#[trigger] e.deadline)
                },
                None => self@.len() == 0,
            },
    {
        proof {
            self.items@.to_multiset_ensures();
        }
        if self.items.is_empty() {
            None
        } else {
            proof {
                lemma_first_of_multiset(self.items@);
            }
            Some(&self.items[0])
        }
    }
}

/// In terms of the multiset: nothing comes before the root.
proof fn lemma_first_of_multiset<H>(s: Seq<TimerEntry<H>>)
    requires
        is_heap(s),
        s.len() > 0,
    ensures
        s.to_multiset().contains(s[0]),
        forall|e: TimerEntry<H>|
            s.to_multiset().contains(e) ==> s[0].deadline <= (#[trigger] e.deadline),
{
    s.to_multiset_ensures();
    assert(s.contains(s[0]));
    assert forall|e: TimerEntry<H>| s.to_multiset().contains(e) implies s[0].deadline <= (
    #[trigger] e.deadline) by {
        assert(s.contains(e));
        let i = choose|i: int| 0 <= i < s.len() && s[i] == e;
        lemma_root_is_first(s, i);
    }
}

impl<H> TimerHeap<H> {
    /// Add an entry.
    pub fn push(&mut self, entry: TimerEntry<H>)
        requires
            old(self).wf(),
        ensures
            final(self).wf(),
            final(self)@ == old(self)@.insert(entry),
    {
        let ghost before = self.items@;
        self.items.push(entry);
        proof {
            before.to_multiset_ensures();
            assert(self.items@.to_multiset() =~= before.to_multiset().insert(entry));
            let s = self.items@;
            let at = s.len() - 1;
            assert forall|i: int| 0 < i < s.len() && i != at implies #[trigger] ordered_at(
                s,
                i,
            ) by {
                assert(ordered_at(before, i));
            }
        }
        let last: usize = self.items.len() - 1;
        self.sift_up(last);
    }

    /// Remove an entry with the earliest deadline.
    pub fn pop(&mut self) -> (first: Option<TimerEntry<H>>)
        requires
            old(self).wf(),
        ensures
            final(self).wf(),
            match first {
                Some(entry) => {
                    &&& old(self)@.contains(entry)
                    &&& forall|e: TimerEntry<H>|
                        old(self)@.contains(e) ==> entry.deadline <= (#[trigger] e.deadline)
                    &&& final(self)@ == old(self)@.remove(entry)
                },
                None => old(self)@.len() == 0 && final(self)@ == old(self)@,
            },
    {
        let ghost before = self.items@;
        proof {
            before.to_multiset_ensures();
        }
        if self.items.is_empty() {
            return None;
        }
        proof {
            lemma_first_of_multiset(before);
        }
        let entry = self.items.swap_remove(0);
        proof {
            let s = self.items@;
            lemma_swap_remove(before);
            assert forall|i: int| 0 < i < s.len() && (i - 1) / 2 != 0 implies #[trigger] ordered_at(
                s,
                i,
            ) by {
                assert(ordered_at(before, i));
            }
        }
        if self.items.len() > 0 {
            self.sift_down(0);
        }
        Some(entry)
    }

    /// Let the entry at `at` rise to its place.
    fn sift_up(&mut self, at: usize)
        requires
            at < old(self).items@.len(),
            is_heap_above(old(self).items@, at as int),
        ensures
            final(self).wf(),
            final(self)@ == old(self)@,
    {
        let mut at: usize = at;
        while at > 0
            invariant
                at < self.items@.len(),
                is_heap_above(self.items@, at as int),
                self@ == old(self)@,
            ensures
                is_heap(self.items@),
            decreases at,
        {
            let parent: usize = (at - 1) / 2;
            if self.items[parent].deadline <= self.items[at].deadline {
                assert(ordered_at(self.items@, at as int));
                break;
            }
            let ghost s = self.items@;
            self.items.swap(parent, at);
            proof {
                lemma_swap_multiset(s, parent as int, at as int);
                lemma_rise(s, at as int);
            }
            at = parent;
        }
    }

    /// Let the entry at `at` sink to its place.
    fn sift_down(&mut self, at: usize)
        requires
            at < old(self).items@.len(),
            is_heap_below(old(self).items@, at as int),
        ensures
            final(self).wf(),
            final(self)@ == old(self)@,
    {
        let mut at: usize = at;
        loop
            invariant
                at < self.items@.len(),
                is_heap_below(self.items@, at as int),
                self@ == old(self)@,
            ensures
                is_heap(self.items@),
            decreases self.items@.len() - at,
        {
            let len: usize = self.items.len();
            if at >= len / 2 {
                assert(is_heap(self.items@));
                break;
            }
            let left: usize = 2 * at + 1;
            let right: usize = left + 1;
            let child: usize = if right < len && self.items[right].deadline
                < self.items[left].deadline {
                right
            } else {
                left
            };
            if self.items[at].deadline <= self.items[child].deadline {
                proof {
                    let s = self.items@;
                    assert forall|i: int| 0 < i < s.len() implies #[trigger] ordered_at(s, i) by {
                        if (i - 1) / 2 == at {
                            assert(i == left || i == right);
                        }
                    }
                }
                break;
            }
            let ghost s = self.items@;
            self.items.swap(at, child);
            proof {
                lemma_swap_multiset(s, at as int, child as int);
                lemma_sink(s, at as int, child as int);
            }
            at = child;
        }
    }
}

/// One step of rising keeps the order everywhere but at the new place.
proof fn lemma_rise<H>(s: Seq<TimerEntry<H>>, at: int)
    requires
        0 < at < s.len(),
        is_heap_above(s, at),
        s[at].deadline < s[(at - 1) / 2].deadline,
    ensures
        is_heap_above(
            s.update((at - 1) / 2, s[at]).update(at, s[(at - 1) / 2]),
            (at - 1) / 2,
        ),
{
    let parent = (at - 1) / 2;
    let t = s.update(parent, s[at]).update(at, s[parent]);
    assert forall|i: int| 0 < i < t.len() && i != parent implies #[trigger] ordered_at(t, i) by {
        if i != at {
            assert(ordered_at(s, i));
        }
        if (i - 1) / 2 == at {
            assert(s[parent].deadline <= s[i].deadline);
        }
    }
    assert forall|i: int|
        0 < i < t.len() && parent > 0 && (i - 1) / 2 == parent implies t[(parent - 1) / 2].deadline
        <= (#[trigger] t[i]).deadline by {
        assert(ordered_at(s, parent));
        if i != at {
            assert(ordered_at(s, i));
        }
    }
}

/// One step of sinking keeps the order everywhere but below the new place.
proof fn lemma_sink<H>(s: Seq<TimerEntry<H>>, at: int, child: int)
    requires
        0 <= at < s.len(),
        child == 2 * at + 1 || child == 2 * at + 2,
        child < s.len(),
        2 * at + 1 < s.len() ==> s[child].deadline <= s[2 * at + 1].deadline,
        2 * at + 2 < s.len() ==> s[child].deadline <= s[2 * at + 2].deadline,
        is_heap_below(s, at),
        s[child].deadline < s[at].deadline,
    ensures
        is_heap_below(s.update(at, s[child]).update(child, s[at]), child),
{
    let t = s.update(at, s[child]).update(child, s[at]);
    assert forall|i: int| 0 < i < t.len() && (i - 1) / 2 != child implies #[trigger] ordered_at(
        t,
        i,
    ) by {
        if (i - 1) / 2 == at {
            assert(i == 2 * at + 1 || i == 2 * at + 2);
        } else {
            assert(ordered_at(s, i));
            if i == at {
                assert(s[(at - 1) / 2].deadline <= s[child].deadline);
            }
        }
    }
    assert forall|i: int|
        0 < i < t.len() && child > 0 && (i - 1) / 2 == child implies t[(child - 1) / 2].deadline
        <= (#[trigger] t[i]).deadline by {
        assert(ordered_at(s, i));
    }
}

/// Taking out the first element and putting the last in its place takes that
/// element out of the multiset.
proof fn lemma_swap_remove<H>(s: Seq<TimerEntry<H>>)
    requires
        s.len() > 0,
    ensures
        s.update(0, s.last()).drop_last().to_multiset() == s.to_multiset().remove(s[0]),
{
    broadcast use vstd::seq_lib::group_to_multiset_ensures;

    s.to_multiset_ensures();
    let t = s.update(0, s.last());
    t.to_multiset_ensures();
    assert(t.drop_last() =~= t.remove(t.len() - 1));
    assert(t.last() == s.last());
    assert(s.to_multiset().contains(s[0]));
    assert(s.to_multiset().contains(s.last()));
    assert(t.drop_last().to_multiset() =~= s.to_multiset().remove(s[0]));
}

} // verus!
