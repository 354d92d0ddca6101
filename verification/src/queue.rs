//! The ready queue: requests to run, held in the order in which they are
//! served.

use crate::ready::ReadyEntry;
use vstd::prelude::*;

verus! {

/// Whether the entries of `q` stand in the order in which they are served:
/// none is served before one that stands ahead of it.
pub open spec fn in_serving_order(q: Seq<ReadyEntry>) -> bool {
    forall|i: int, j: int| 0 <= i < j < q.len() ==> q[i].not_after(q[j])
}

/// The number of entries at the head of `q` that are served no later than
/// `entry`: the place at which `entry` joins the queue.
pub open spec fn slot(q: Seq<ReadyEntry>, entry: ReadyEntry) -> nat
    decreases q.len(),
{
    if q.len() == 0 || entry.precedes(q[0]) {
        0
    } else {
        1 + slot(q.drop_first(), entry)
    }
}

/// The queue `q` after `entry` has joined it.
pub open spec fn enqueued(q: Seq<ReadyEntry>, entry: ReadyEntry) -> Seq<ReadyEntry> {
    q.insert(slot(q, entry) as int, entry)
}

/// The slot of an entry lies within the queue, behind every entry that is
/// served no later and directly ahead of the first that is served later.
pub proof fn lemma_slot(q: Seq<ReadyEntry>, entry: ReadyEntry)
    ensures
        slot(q, entry) <= q.len(),
        forall|i: int| 0 <= i < slot(q, entry) ==> (#[trigger] q[i]).not_after(entry),
        slot(q, entry) < q.len() ==> entry.precedes(q[slot(q, entry) as int]),
    decreases q.len(),
{
    if q.len() != 0 && !entry.precedes(q[0]) {
        let rest = q.drop_first();
        lemma_slot(rest, entry);
        assert forall|i: int| 0 <= i < slot(q, entry) implies (#[trigger] q[i]).not_after(
            entry,
        ) by {
            if i > 0 {
                assert(q[i] == rest[i - 1]);
            }
        }
        if slot(q, entry) < q.len() {
            assert(q[slot(q, entry) as int] == rest[slot(rest, entry) as int]);
        }
    }
}

/// A queue in serving order is still in serving order after an entry has
/// joined it.
pub proof fn lemma_enqueued_in_serving_order(q: Seq<ReadyEntry>, entry: ReadyEntry)
    requires
        in_serving_order(q),
    ensures
        in_serving_order(enqueued(q, entry)),
        enqueued(q, entry).len() == q.len() + 1,
{
    lemma_slot(q, entry);
    let at = slot(q, entry) as int;
    let after = enqueued(q, entry);
    assert forall|i: int, j: int| 0 <= i < j < after.len() implies after[i].not_after(
        after[j],
    ) by {
        if j < at {
            assert(after[i] == q[i] && after[j] == q[j]);
        } else if j == at {
            assert(after[i] == q[i] && after[j] == entry);
        } else if i < at {
            assert(after[i] == q[i] && after[j] == q[j - 1]);
        } else if i == at {
            assert(after[i] == entry && after[j] == q[j - 1]);
            assert(q[at].not_after(q[j - 1]) || at == j - 1);
        } else {
            assert(after[i] == q[i - 1] && after[j] == q[j - 1]);
        }
    }
}

/// Requests to run, in the order in which they are served.
pub struct ReadyQueue {
    /// The entries, the next one to serve last.
    entries: Vec<ReadyEntry>,
}

impl View for ReadyQueue {
    type V = Seq<ReadyEntry>;

    /// The entries, the next one to serve first.
    closed spec fn view(&self) -> Seq<ReadyEntry> {
        Seq::new(self.entries@.len(), |i: int| self.entries@[self.entries@.len() - 1 - i])
    }
}

impl ReadyQueue {
    /// Whether the queue serves its entries in order.
    pub open spec fn wf(&self) -> bool {
        in_serving_order(self@)
    }

    /// An empty queue.
    pub fn new() -> (queue: Self)
        ensures
            queue.wf(),
            queue@ == Seq::<ReadyEntry>::empty(),
    {
        let queue = ReadyQueue { entries: Vec::new() };
        assert(queue@ =~= Seq::<ReadyEntry>::empty());
        queue
    }

    /// The number of entries that wait.
    pub fn len(&self) -> (len: usize)
        ensures
            len == self@.len(),
    {
        self.entries.len()
    }

    /// The entry that is served after `ahead` others.
    pub fn get(&self, ahead: usize) -> (entry: ReadyEntry)
        requires
            ahead < self@.len(),
        ensures
            entry == self@[ahead as int],
    {
        self.entries[self.entries.len() - 1 - ahead]
    }

    /// Adds `entry` behind the entries that are served no later than it.
    pub fn push(&mut self, entry: ReadyEntry)
        requires
            old(self).wf(),
        ensures
            final(self).wf(),
            final(self)@ == enqueued(old(self)@, entry),
    {
        let ghost q = self@;
        let len = self.entries.len();
        let mut k: usize = len;
        proof {
            assert(q.skip(0) =~= q);
        }
        while k > 0 && !entry.is_before(&self.entries[k - 1])
            invariant
                k <= len,
                len == self.entries.len(),
                self@ == q,
                slot(q, entry) == (len - k) + slot(q.skip(len - k), entry),
            decreases k,
        {
            proof {
                let rest = q.skip(len - k);
                assert(rest[0] == self.entries@[k - 1]);
                assert(rest.drop_first() =~= q.skip(len - k + 1));
            }
            k -= 1;
        }
        proof {
            let rest = q.skip(len - k);
            if k > 0 {
                assert(rest[0] == self.entries@[k - 1]);
            }
            assert(slot(rest, entry) == 0);
        }
        self.entries.insert(k, entry);
        proof {
            assert(self@ =~= q.insert(len - k, entry));
            lemma_enqueued_in_serving_order(q, entry);
        }
    }

    /// Takes the entry that is served next, if any waits.
    pub fn pop(&mut self) -> (next: Option<ReadyEntry>)
        requires
            old(self).wf(),
        ensures
            final(self).wf(),
            old(self)@.len() == 0 ==> next.is_none() && final(self)@ == old(self)@,
            old(self)@.len() > 0 ==> next == Some(old(self)@[0]) && final(self)@ == old(
                self,
            )@.drop_first(),
    {
        let next = self.entries.pop();
        proof {
            if old(self)@.len() > 0 {
                assert(self@ =~= old(self)@.drop_first());
            } else {
                assert(self@ =~= old(self)@);
            }
        }
        next
    }
}

} // verus!
