//! The work queue: the single conduit between the producing stage and the
//! worker pool. Producers push while it is open; once every producer has
//! finished it is closed, and consumers drain it in first-in, first-out
//! order. Closing never discards items: everything enqueued before the
//! close is still delivered.

use vstd::prelude::*;
use crate::items::{ItemView, WorkItem};

verus! {

/// An unbounded first-in, first-out queue of work items with a close flag.
pub struct WorkQueue {
    items: Vec<WorkItem>,
    closed: bool,
}

impl View for WorkQueue {
    type V = (Seq<ItemView>, bool);

    closed spec fn view(&self) -> (Seq<ItemView>, bool) {
        (self.items@.map_values(|it: WorkItem| it@), self.closed)
    }
}

impl WorkQueue {
    /// The items currently enqueued, oldest first.
    pub open spec fn pending(&self) -> Seq<ItemView> {
        self@.0
    }

    /// Whether the producing side has been closed.
    pub open spec fn is_closed(&self) -> bool {
        self@.1
    }

    /// An empty, open queue.
    pub fn new() -> (q: WorkQueue)
        ensures
            q.pending() == Seq::<ItemView>::empty(),
            !q.is_closed(),
    {
        let q = WorkQueue { items: Vec::new(), closed: false };
        proof {
            assert(q.pending() =~= Seq::<ItemView>::empty());
        }
        q
    }

    /// Enqueues one work item at the back; only open queues accept items.
    pub fn push(&mut self, item: WorkItem)
        requires
            !old(self).is_closed(),
        ensures
            final(self).pending() == old(self).pending().push(item@),
            !final(self).is_closed(),
    {
        self.items.push(item);
        proof {
            assert(self.pending() =~= old(self).pending().push(item@));
        }
    }

    /// Closes the producing side; the enqueued items stay delivered.
    pub fn close(&mut self)
        ensures
            final(self).pending() == old(self).pending(),
            final(self).is_closed(),
    {
        self.closed = true;
    }

    /// How many items are pending.
    pub fn len(&self) -> (n: usize)
        ensures
            n == self.pending().len(),
    {
        self.items.len()
    }

    /// Takes the oldest pending item, or reports the queue exhausted. A
    /// closed, empty queue is the consumers' signal to stop; items are
    /// never lost to the close.
    pub fn pop(&mut self) -> (r: Option<WorkItem>)
        ensures
            final(self).is_closed() == old(self).is_closed(),
            match r {
                Some(item) => old(self).pending().len() > 0 && item@ == old(self).pending()[0]
                    && final(self).pending() == old(self).pending().drop_first(),
                None => old(self).pending().len() == 0 && final(self).pending()
                    == old(self).pending(),
            },
    {
        if self.items.len() == 0 {
            None
        } else {
            let item = self.items.remove(0);
            proof {
                assert(self.pending() =~= old(self).pending().drop_first());
            }
            Some(item)
        }
    }
}

} // verus!
