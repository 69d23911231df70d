//! A fixed-capacity queue that keeps the most recent values in a ring of slots.
use vstd::prelude::*;

verus! {

/// A ring of `items.len()` slots; each push overwrites the oldest value.
///
/// The order of the slots is not the order of arrival: the value at `next`
/// is the oldest.
pub struct UnorderedQueue<T> {
    pub items: Vec<T>,
    pub next: usize,
    /// Every value the queue has held, oldest first: its initial contents,
    /// then each value pushed.
    pub history: Ghost<Seq<T>>,
}

impl<T> UnorderedQueue<T> {
    /// Slot `j` holds the latest value written to it: slots below `next` were
    /// written in the current round, the others in the round before.
    pub open spec fn wf(&self) -> bool {
        let c = self.items.len() as int;
        let h = self.history@.len() as int;
        let i = self.next as int;
        &&& c >= 1
        &&& 0 <= i < c
        &&& h - i >= c
        &&& forall|j: int| 0 <= j < i ==> #[trigger] self.items[j] == self.history@[h - i + j]
        &&& forall|j: int| i <= j < c ==> #[trigger] self.items[j] == self.history@[h - i - c + j]
    }

    /// A queue whose slots hold `items`, the first of them the oldest.
    pub fn new(items: Vec<T>) -> (r: Self)
        requires
            items.len() >= 1,
        ensures
            r.wf(),
            r.items@ == items@,
            r.history@ == items@,
            r.next == 0,
    {
        let ghost h = items@;
        UnorderedQueue { items, next: 0, history: Ghost(h) }
    }

    /// Overwrites the oldest value with `item`.
    pub fn push(&mut self, item: T)
        requires
            old(self).wf(),
        ensures
            final(self).wf(),
            final(self).items@ == old(self).items@.update(old(self).next as int, item),
            final(self).history@ == old(self).history@.push(item),
            final(self).next == if old(self).next + 1 == old(self).items.len() {
                0
            } else {
                old(self).next + 1
            },
    {
        let ghost h = self.history@.len() as int;
        let i = self.next;
        self.items.set(i, item);
        self.history = Ghost(self.history@.push(item));
        if i + 1 == self.items.len() {
            self.next = 0;
        } else {
            self.next = i + 1;
        }
        proof {
            assert(self.history@[h] == item);
            assert(forall|jj: int| 0 <= jj < h ==> self.history@[jj] == old(self).history@[jj]);
        }
    }

    /// The number of slots.
    pub fn capacity(&self) -> (r: usize)
        ensures
            r == self.items.len(),
    {
        self.items.len()
    }
}

/// The slots of a queue hold exactly its `capacity` most recent values: each
/// slot holds one of them, and each of them is in a slot.
pub proof fn lemma_queue_holds_recent<T>(q: UnorderedQueue<T>)
    requires
        q.wf(),
    ensures
        forall|j: int|
            0 <= j < q.items.len() ==> q.history@.len() - q.items.len() <= #[trigger] slot_source(
                q,
                j,
            ) < q.history@.len() && q.items[j] == q.history@[slot_source(q, j)],
        forall|i: int|
            q.history@.len() - q.items.len() <= i < q.history@.len() ==> 0 <= #[trigger] slot_of(
                q,
                i,
            ) < q.items.len() && q.items[slot_of(q, i)] == q.history@[i],
{
    let c = q.items.len() as int;
    let h = q.history@.len() as int;
    let n = q.next as int;
    assert forall|j: int| 0 <= j < c implies h - c <= #[trigger] slot_source(q, j) < h
        && q.items[j] == q.history@[slot_source(q, j)] by {
        if j < n {
            assert(q.items[j] == q.history@[h - n + j]);
        } else {
            assert(q.items[j] == q.history@[h - n - c + j]);
        }
    }
    assert forall|i: int| h - c <= i < h implies 0 <= #[trigger] slot_of(q, i) < c
        && q.items[slot_of(q, i)] == q.history@[i] by {
        if i >= h - n {
            assert(q.items[i - (h - n)] == q.history@[h - n + (i - (h - n))]);
        } else {
            assert(q.items[i - (h - n - c)] == q.history@[h - n - c + (i - (h - n - c))]);
        }
    }
}

/// The position in the history of the value in slot `j`.
pub open spec fn slot_source<T>(q: UnorderedQueue<T>, j: int) -> int {
    if j < q.next {
        q.history@.len() - q.next + j
    } else {
        q.history@.len() - q.next - q.items.len() + j
    }
}

/// The slot that holds the value at position `i` of the history.
pub open spec fn slot_of<T>(q: UnorderedQueue<T>, i: int) -> int {
    if i >= q.history@.len() - q.next {
        i - (q.history@.len() - q.next)
    } else {
        i - (q.history@.len() - q.next - q.items.len())
    }
}

} // verus!
