use vstd::prelude::*;

verus! {

/// A reorder buffer: items arrive tagged with distinct ordinals in any order
/// and leave in ascending ordinal order, with no gaps.
#[derive(Debug)]
pub struct ReorderBuffer<T> {
    next: usize,
    pending: Vec<(usize, T)>,
}

impl<T> ReorderBuffer<T> {
    /// Ordinal of the next item to leave.
    pub closed spec fn next_spec(&self) -> usize {
        self.next
    }

    /// Items waiting, with their ordinals, in arrival order.
    pub closed spec fn pending_spec(&self) -> Seq<(usize, T)> {
        self.pending@
    }

    /// Whether an item with ordinal `ord` is waiting.
    pub open spec fn holds(&self, ord: usize) -> bool {
        exists|k: int| 0 <= k < self.pending_spec().len() && (#[trigger] self.pending_spec()[k]).0 == ord
    }

    /// Waiting ordinals are distinct and none has left yet.
    pub open spec fn wf(&self) -> bool {
        &&& forall|k: int|
            0 <= k < self.pending_spec().len() ==> (#[trigger] self.pending_spec()[k]).0 >= self.next_spec()
        &&& forall|i: int, j: int|
            0 <= i < j < self.pending_spec().len() ==> (#[trigger] self.pending_spec()[i]).0
                != (#[trigger] self.pending_spec()[j]).0
    }

    pub fn new() -> (q: ReorderBuffer<T>)
        ensures
            q.wf(),
            q.next_spec() == 0,
            q.pending_spec().len() == 0,
    {
        ReorderBuffer { next: 0, pending: Vec::new() }
    }

    pub fn next_expected(&self) -> (r: usize)
        ensures
            r == self.next_spec(),
    {
        self.next
    }

    /// Number of items waiting.
    pub fn len(&self) -> (r: usize)
        ensures
            r == self.pending_spec().len(),
    {
        self.pending.len()
    }

    /// Whether an item with ordinal `ord` is waiting.
    pub fn contains(&self, ord: usize) -> (r: bool)
        ensures
            r == self.holds(ord),
    {
        let n = self.pending.len();
        let mut i: usize = 0;
        while i < n
            invariant
                n == self.pending@.len(),
                i <= n,
                forall|k: int| 0 <= k < i ==> (#[trigger] self.pending@[k]).0 != ord,
            decreases n - i,
        {
            if self.pending[i].0 == ord {
                assert(self.pending_spec()[i as int].0 == ord);
                return true;
            }
            i += 1;
        }
        assert(forall|k: int| 0 <= k < n ==> (#[trigger] self.pending_spec()[k]).0 != ord);
        false
    }

    /// Whether the buffer can take the item with ordinal `ord` without
    /// holding more than `capacity` items that are not due yet. The item that
    /// is due is always accepted.
    pub fn has_room_for(&self, ord: usize, capacity: usize) -> (r: bool)
        ensures
            r == (ord == self.next_spec() || self.pending_spec().len() < capacity),
    {
        ord == self.next || self.pending.len() < capacity
    }

    /// Adds an item with a new ordinal.
    pub fn insert(&mut self, ord: usize, item: T)
        requires
            old(self).wf(),
            ord >= old(self).next_spec(),
            !old(self).holds(ord),
        ensures
            final(self).wf(),
            final(self).next_spec() == old(self).next_spec(),
            final(self).pending_spec() == old(self).pending_spec().push((ord, item)),
    {
        self.pending.push((ord, item));
        assert forall|i: int, j: int|
            0 <= i < j < self.pending_spec().len() implies (#[trigger] self.pending_spec()[i]).0
                != (#[trigger] self.pending_spec()[j]).0 by {
            if j == self.pending@.len() - 1 {
                assert(old(self).pending_spec()[i] == self.pending@[i]);
            }
        }
    }

    /// Hands out the item whose ordinal is due, if it has arrived; the next
    /// ordinal then becomes due.
    pub fn take_next(&mut self) -> (r: Option<T>)
        requires
            old(self).wf(),
            old(self).next_spec() < usize::MAX,
        ensures
            final(self).wf(),
            match r {
                Some(item) => exists|k: int|
                    0 <= k < old(self).pending_spec().len()
                        && #[trigger] old(self).pending_spec()[k] == (old(self).next_spec(), item)
                        && final(self).pending_spec() == old(self).pending_spec().remove(k)
                        && final(self).next_spec() == old(self).next_spec() + 1,
                None => !old(self).holds(old(self).next_spec()) && *final(self) == *old(self),
            },
    {
        let n = self.pending.len();
        let mut i: usize = 0;
        while i < n
            invariant
                n == self.pending@.len(),
                i <= n,
                *self == *old(self),
                old(self).wf(),
                old(self).next_spec() < usize::MAX,
                forall|k: int| 0 <= k < i ==> (#[trigger] self.pending@[k]).0 != self.next,
            decreases n - i,
        {
            if self.pending[i].0 == self.next {
                let ghost before = self.pending@;
                assert(forall|k: int| 0 <= k < i ==> (#[trigger] before[k]).0 != self.next);
                let (ord, item) = self.pending.remove(i);
                assert(before[i as int] == (ord, item));
                let ghost taken = self.next;
                self.next = self.next + 1;
                assert forall|k: int| 0 <= k < self.pending@.len() implies (#[trigger] self.pending@[k]).0
                    >= self.next by {
                    let p0 = old(self).pending_spec();
                    assert(before == p0);
                    if k < i {
                        assert(self.pending@[k] == before[k]);
                        assert(p0[k].0 >= taken);
                        assert(before[k].0 != taken);
                    } else {
                        assert(self.pending@[k] == before[k + 1]);
                        assert(p0[k + 1].0 >= taken);
                        assert(p0[i as int].0 != p0[k + 1].0);
                    }
                }
                assert forall|a: int, b: int| 0 <= a < b < self.pending@.len() implies (#[trigger] self.pending@[a]).0
                    != (#[trigger] self.pending@[b]).0 by {
                    let a0 = if a < i { a } else { a + 1 };
                    let b0 = if b < i { b } else { b + 1 };
                    let p0 = old(self).pending_spec();
                    assert(before == p0);
                    assert(self.pending@[a] == p0[a0]);
                    assert(self.pending@[b] == p0[b0]);
                    assert(p0[a0].0 != p0[b0].0);
                }
                assert(old(self).pending_spec()[i as int] == (old(self).next_spec(), item));
                assert(self.pending_spec() == old(self).pending_spec().remove(i as int));
                return Some(item);
            }
            i += 1;
        }
        None
    }
}

} // verus!
