//! The process table and its stride scheduler.

use crate::ids::proc_id_value;
use crate::process::{Process, BIG_STRIDE};
use crate::queue::{enqueued, in_serving_order, ReadyQueue};
use crate::ready::ReadyEntry;
use std::collections::BTreeMap;
use tg_task_manage::ProcId;
use vstd::prelude::*;

verus! {

/// Owns the processes, by number, and the queue of those that are ready to
/// run. The table is the authority on stride and priority; a queue entry
/// whose process has left the table is stale and is dropped when it comes
/// up.
pub struct ProcManager {
    /// The processes, by number.
    tasks: BTreeMap<usize, Process>,
    /// The requests to run.
    ready_queue: ReadyQueue,
    /// The number that the next request gets.
    sequence: usize,
}

/// A process manager as plain values.
pub struct ManagerView {
    /// The processes, by number.
    pub tasks: Map<usize, Process>,
    /// The requests to run, the next one to serve first.
    pub ready: Seq<ReadyEntry>,
    /// The number that the next request gets.
    pub sequence: usize,
}

/// The number of entries at the head of `ready` whose process is not in
/// `tasks`.
pub open spec fn stale_head(tasks: Map<usize, Process>, ready: Seq<ReadyEntry>) -> nat
    decreases ready.len(),
{
    if ready.len() == 0 || tasks.contains_key(ready[0].pid) {
        0
    } else {
        1 + stale_head(tasks, ready.drop_first())
    }
}

impl ManagerView {
    /// Whether the queue serves its entries in order.
    pub open spec fn wf(self) -> bool {
        in_serving_order(self.ready)
    }

    /// No process, no request.
    pub open spec fn empty() -> ManagerView {
        ManagerView { tasks: Map::empty(), ready: Seq::empty(), sequence: 0 }
    }

    /// With `task` in the table under `id`, in place of what stood there.
    pub open spec fn inserted(self, id: usize, task: Process) -> ManagerView {
        ManagerView { tasks: self.tasks.insert(id, task), ..self }
    }

    /// With no process under `id`.
    pub open spec fn deleted(self, id: usize) -> ManagerView {
        ManagerView { tasks: self.tasks.remove(id), ..self }
    }

    /// The entry that a request to run process `id` creates now.
    pub open spec fn entry_for(self, id: usize) -> ReadyEntry {
        ReadyEntry { stride: self.tasks[id].stride, order: self.sequence, pid: id }
    }

    /// With a request to run process `id`. A process that is not in the
    /// table cannot be queued, and the request is ignored.
    pub open spec fn added(self, id: usize) -> ManagerView {
        if self.tasks.contains_key(id) {
            ManagerView {
                ready: enqueued(self.ready, self.entry_for(id)),
                sequence: self.sequence.wrapping_add(1),
                ..self
            }
        } else {
            self
        }
    }

    /// The entry that is served next: the first whose process is in the
    /// table.
    pub open spec fn next(self) -> Option<ReadyEntry> {
        let at = stale_head(self.tasks, self.ready) as int;
        if at < self.ready.len() {
            Some(self.ready[at])
        } else {
            None
        }
    }

    /// After the next entry has been served: it has left the queue with the
    /// stale ones ahead of it, and its process has been charged one
    /// dispatch. Where nothing can be served the queue is empty.
    pub open spec fn fetched(self) -> ManagerView {
        match self.next() {
            Some(entry) => ManagerView {
                tasks: self.tasks.insert(entry.pid, self.tasks[entry.pid].dispatched()),
                ready: self.ready.skip(stale_head(self.tasks, self.ready) as int + 1),
                ..self
            },
            None => ManagerView { ready: Seq::empty(), ..self },
        }
    }

    /// The entries that the next `count` fetches serve, in the order in
    /// which they serve them. It is shorter than `count` where the queue
    /// runs out.
    pub open spec fn served(self, count: nat) -> Seq<ReadyEntry>
        decreases count,
    {
        if count == 0 {
            Seq::empty()
        } else {
            match self.next() {
                Some(entry) => seq![entry] + self.fetched().served((count - 1) as nat),
                None => Seq::empty(),
            }
        }
    }

    /// Whether every queued entry names a process that is in the table.
    pub open spec fn all_live(self) -> bool {
        forall|i: int| 0 <= i < self.ready.len() ==> self.tasks.contains_key(
            (#[trigger] self.ready[i]).pid,
        )
    }

    /// Whether process `id` is the only one in the table and is queued
    /// exactly once, with nothing else in the queue.
    pub open spec fn runs_alone(self, id: usize) -> bool {
        &&& self.tasks.dom() == set![id]
        &&& self.ready.len() == 1
        &&& self.ready[0].pid == id
    }

    /// After `times` rounds of fetching and then queueing process `id`
    /// again.
    pub open spec fn rerun(self, id: usize, times: nat) -> ManagerView
        decreases times,
    {
        if times == 0 {
            self
        } else {
            self.rerun(id, (times - 1) as nat).fetched().added(id)
        }
    }
}

impl View for ProcManager {
    type V = ManagerView;

    closed spec fn view(&self) -> ManagerView {
        ManagerView { tasks: self.tasks@, ready: self.ready_queue@, sequence: self.sequence }
    }
}

/// `BTreeMap::get_mut` of std lends the value stored under a key for
/// writing, or returns `None` where the map has no such key. What the
/// borrower leaves in the value is what the map then holds under the key;
/// nothing else in the map changes.
#[verifier::external_body]
fn entry_mut(tasks: &mut BTreeMap<usize, Process>, id: usize) -> (found: Option<&mut Process>)
    ensures
        match found {
            Some(task) => {
                &&& old(tasks)@.contains_key(id)
                &&& *task == old(tasks)@[id]
                &&& final(tasks)@ == old(tasks)@.insert(id, *final(task))
            },
            None => !old(tasks)@.contains_key(id) && final(tasks)@ == old(tasks)@,
        },
{
    tasks.get_mut(&id)
}

impl ProcManager {
    /// Whether the queue serves its entries in order. Every manager that
    /// this module hands out does.
    pub open spec fn wf(&self) -> bool {
        self@.wf()
    }

    /// A manager with no process and no request.
    pub fn new() -> (manager: Self)
        ensures
            manager.wf(),
            manager@ == ManagerView::empty(),
    {
        Self { tasks: BTreeMap::new(), ready_queue: ReadyQueue::new(), sequence: 0 }
    }

    /// Queues a request to run process `id`, with the stride that the
    /// process has now and the next request number. Does nothing for a
    /// process that is not in the table.
    pub fn push_ready(&mut self, id: ProcId)
        requires
            old(self).wf(),
        ensures
            final(self).wf(),
            final(self)@ == old(self)@.added(proc_id_value(id)),
    {
        broadcast use vstd::laws_cmp::group_laws_cmp;

        let pid = id.get_usize();
        if let Some(task) = self.tasks.get(&pid) {
            let entry = ReadyEntry { stride: task.stride, order: self.sequence, pid };
            self.sequence = self.sequence.wrapping_add(1);
            self.ready_queue.push(entry);
        }
    }

    /// Puts `task` in the table under `id`, in place of what stood there.
    pub fn insert(&mut self, id: ProcId, task: Process)
        requires
            old(self).wf(),
        ensures
            final(self).wf(),
            final(self)@ == old(self)@.inserted(proc_id_value(id), task),
    {
        broadcast use vstd::laws_cmp::group_laws_cmp;

        self.tasks.insert(id.get_usize(), task);
    }

    /// Lends the process under `id` for writing, or returns `None` where
    /// the table has none. What the borrower leaves is what the table then
    /// holds under `id`.
    pub fn get_mut(&mut self, id: ProcId) -> (found: Option<&mut Process>)
        requires
            old(self).wf(),
        ensures
            match found {
                Some(task) => {
                    &&& old(self)@.tasks.contains_key(proc_id_value(id))
                    &&& *task == old(self)@.tasks[proc_id_value(id)]
                    &&& final(self)@ == old(self)@.inserted(proc_id_value(id), *final(task))
                },
                None => {
                    &&& !old(self)@.tasks.contains_key(proc_id_value(id))
                    &&& final(self)@ == old(self)@
                },
            },
    {
        entry_mut(&mut self.tasks, id.get_usize())
    }

    /// Takes the process under `id` out of the table, if there is one.
    /// Requests to run it that are still queued become stale.
    pub fn delete(&mut self, id: ProcId)
        requires
            old(self).wf(),
        ensures
            final(self).wf(),
            final(self)@ == old(self)@.deleted(proc_id_value(id)),
    {
        broadcast use vstd::laws_cmp::group_laws_cmp;

        let pid = id.get_usize();
        self.tasks.remove(&pid);
    }

    /// Queues a request to run process `id`.
    pub fn add(&mut self, id: ProcId)
        requires
            old(self).wf(),
        ensures
            final(self).wf(),
            final(self)@ == old(self)@.added(proc_id_value(id)),
    {
        self.push_ready(id);
    }

    /// Whether the table holds a process numbered `pid`.
    fn holds(&self, pid: usize) -> (held: bool)
        ensures
            held == self@.tasks.contains_key(pid),
    {
        broadcast use vstd::laws_cmp::group_laws_cmp;

        self.tasks.contains_key(&pid)
    }

    /// The entry that the next fetch serves, if it serves any. Nothing
    /// changes.
    pub fn peek(&self) -> (next: Option<ReadyEntry>)
        ensures
            next == self@.next(),
    {
        let len = self.ready_queue.len();
        let mut ahead: usize = 0;
        proof {
            assert(self@.ready.skip(0) =~= self@.ready);
        }
        while ahead < len
            invariant
                len == self@.ready.len(),
                ahead <= len,
                stale_head(self@.tasks, self@.ready) == ahead + stale_head(
                    self@.tasks,
                    self@.ready.skip(ahead as int),
                ),
            decreases len - ahead,
        {
            let entry = self.ready_queue.get(ahead);
            proof {
                let rest = self@.ready.skip(ahead as int);
                assert(rest[0] == entry);
                assert(rest.drop_first() =~= self@.ready.skip(ahead + 1));
            }
            if self.holds(entry.pid) {
                return Some(entry);
            }
            ahead += 1;
        }
        None
    }

    /// Picks the process to run next and charges it one dispatch.
    ///
    /// Entries are taken from the head of the queue until one names a
    /// process that is in the table; the stale ones ahead of it are
    /// dropped. The stride of the process chosen grows by its step, and
    /// stops at the top of the range instead of wrapping round. `None`
    /// means that no queued process is left in the table.
    ///
    /// The process that is chosen must have a positive priority.
    pub fn fetch(&mut self) -> (next: Option<ProcId>)
        requires
            old(self).wf(),
            old(self)@.next() matches Some(entry) ==> old(self)@.tasks[entry.pid].has_step(),
        ensures
            final(self).wf(),
            final(self)@ == old(self)@.fetched(),
            match next {
                Some(id) => old(self)@.next() matches Some(entry) && proc_id_value(id)
                    == entry.pid,
                None => old(self)@.next().is_none(),
            },
    {
        let ghost before = self@;
        let ghost mut dropped: int = 0;
        proof {
            assert(before.ready.skip(0) =~= before.ready);
        }
        loop
            invariant
                self.wf(),
                before == old(self)@,
                before.next() matches Some(entry) ==> before.tasks[entry.pid].has_step(),
                self@.tasks == before.tasks,
                self@.sequence == before.sequence,
                0 <= dropped <= before.ready.len(),
                self@.ready == before.ready.skip(dropped),
                stale_head(before.tasks, before.ready) == dropped + stale_head(
                    before.tasks,
                    self@.ready,
                ),
            decreases self@.ready.len(),
        {
            let ghost waiting = self@.ready;
            match self.ready_queue.pop() {
                Some(entry) => {
                    if let Some(task) = entry_mut(&mut self.tasks, entry.pid) {
                        task.dispatch();
                        proof {
                            assert(waiting[0] == before.ready[dropped]);
                            assert(self@.ready =~= before.ready.skip(dropped + 1));
                        }
                        return Some(ProcId::from_usize(entry.pid));
                    }
                    proof {
                        assert(waiting.drop_first() =~= before.ready.skip(dropped + 1));
                        dropped = dropped + 1;
                    }
                },
                None => {
                    proof {
                        assert(self@.ready =~= Seq::<ReadyEntry>::empty());
                    }
                    return None;
                },
            }
        }
    }
}

/// The stale head of a queue lies within the queue; every entry in it names
/// a process that is not in the table, and the entry behind it, if there is
/// one, names a process that is.
pub proof fn lemma_stale_head(tasks: Map<usize, Process>, ready: Seq<ReadyEntry>)
    ensures
        stale_head(tasks, ready) <= ready.len(),
        forall|i: int|
            0 <= i < stale_head(tasks, ready) ==> !tasks.contains_key((#[trigger] ready[i]).pid),
        stale_head(tasks, ready) < ready.len() ==> tasks.contains_key(
            ready[stale_head(tasks, ready) as int].pid,
        ),
    decreases ready.len(),
{
    if ready.len() != 0 && !tasks.contains_key(ready[0].pid) {
        let rest = ready.drop_first();
        lemma_stale_head(tasks, rest);
        assert forall|i: int| 0 <= i < stale_head(tasks, ready) implies !tasks.contains_key(
            (#[trigger] ready[i]).pid,
        ) by {
            if i > 0 {
                assert(ready[i] == rest[i - 1]);
            }
        }
        if stale_head(tasks, ready) < ready.len() {
            assert(ready[stale_head(tasks, ready) as int] == rest[stale_head(tasks, rest) as int]);
        }
    }
}

impl ManagerView {
    /// Every operation leaves the queue in serving order.
    pub proof fn lemma_operations_keep_order(self, id: usize, task: Process)
        requires
            self.wf(),
        ensures
            self.inserted(id, task).wf(),
            self.deleted(id).wf(),
            self.added(id).wf(),
            self.fetched().wf(),
    {
        crate::queue::lemma_enqueued_in_serving_order(self.ready, self.entry_for(id));
        lemma_stale_head(self.tasks, self.ready);
    }

    /// The entry that is served next names a process that is in the table
    /// and was queued; fetching keeps the same processes in the table.
    pub proof fn lemma_next_is_live(self)
        ensures
            self.next() matches Some(entry) ==> self.tasks.contains_key(entry.pid)
                && self.ready.contains(entry),
            self.fetched().tasks.dom() == self.tasks.dom(),
            self.fetched().sequence == self.sequence,
    {
        lemma_stale_head(self.tasks, self.ready);
        match self.next() {
            Some(entry) => {
                assert(self.fetched().tasks.dom() =~= self.tasks.dom());
            },
            None => {},
        }
    }

    /// An entry that is served no later than any entry in the queue is
    /// served no later than any entry that the next fetches serve.
    pub proof fn lemma_served_bounded(self, count: nat, bound: ReadyEntry)
        requires
            forall|j: int| 0 <= j < self.ready.len() ==> bound.not_after(#[trigger] self.ready[j]),
        ensures
            forall|k: int|
                0 <= k < self.served(count).len() ==> bound.not_after(
                    #[trigger] self.served(count)[k],
                ),
        decreases count,
    {
        if count > 0 {
            lemma_stale_head(self.tasks, self.ready);
            match self.next() {
                Some(entry) => {
                    let rest = self.fetched();
                    let head = stale_head(self.tasks, self.ready) as int;
                    assert forall|j: int| 0 <= j < rest.ready.len() implies bound.not_after(
                        #[trigger] rest.ready[j],
                    ) by {
                        assert(rest.ready[j] == self.ready[head + 1 + j]);
                    }
                    rest.lemma_served_bounded((count - 1) as nat, bound);
                    assert forall|k: int| 0 <= k < self.served(count).len() implies bound.not_after(
                     #[trigger] self.served(count)[k]) by {
                        if k > 0 {
                            assert(self.served(count)[k] == rest.served((count - 1) as nat)[k - 1]);
                        }
                    }
                },
                None => {},
            }
        }
    }

    /// Successive fetches serve the queued entries in ascending order of
    /// stride at queueing time, then request number, then process number.
    pub proof fn lemma_served_in_order(self, count: nat)
        requires
            self.wf(),
        ensures
            in_serving_order(self.served(count)),
        decreases count,
    {
        if count > 0 {
            lemma_stale_head(self.tasks, self.ready);
            match self.next() {
                Some(entry) => {
                    let rest = self.fetched();
                    let head = stale_head(self.tasks, self.ready) as int;
                    let later = rest.served((count - 1) as nat);
                    rest.lemma_served_in_order((count - 1) as nat);
                    assert forall|j: int| 0 <= j < rest.ready.len() implies entry.not_after(
                        #[trigger] rest.ready[j],
                    ) by {
                        assert(rest.ready[j] == self.ready[head + 1 + j]);
                    }
                    rest.lemma_served_bounded((count - 1) as nat, entry);
                    let all = self.served(count);
                    assert forall|i: int, j: int| 0 <= i < j < all.len() implies all[i].not_after(
                        all[j],
                    ) by {
                        assert(all[j] == later[j - 1]);
                        if i > 0 {
                            assert(all[i] == later[i - 1]);
                        }
                    }
                },
                None => {},
            }
        }
    }

    /// Where no process has left the table since it was queued, successive
    /// fetches serve the queue from its head, entry by entry.
    pub proof fn lemma_served_follows_queue(self, count: nat)
        requires
            self.all_live(),
            count <= self.ready.len(),
        ensures
            self.served(count) == self.ready.take(count as int),
        decreases count,
    {
        if count > 0 {
            assert(self.tasks.contains_key(self.ready[0].pid));
            let rest = self.fetched();
            self.lemma_next_is_live();
            assert(rest.ready =~= self.ready.skip(1));
            assert forall|i: int| 0 <= i < rest.ready.len() implies rest.tasks.contains_key(
                (#[trigger] rest.ready[i]).pid,
            ) by {
                assert(rest.ready[i] == self.ready[i + 1]);
                assert(self.tasks.dom().contains(self.ready[i + 1].pid));
            }
            rest.lemma_served_follows_queue((count - 1) as nat);
            assert(self.served(count) =~= self.ready.take(count as int));
        } else {
            assert(self.served(count) =~= self.ready.take(count as int));
        }
    }

    /// A process that is not in the table is never served, however many
    /// fetches follow.
    pub proof fn lemma_absent_is_not_served(self, id: usize, count: nat)
        requires
            !self.tasks.contains_key(id),
        ensures
            forall|k: int|
                0 <= k < self.served(count).len() ==> (#[trigger] self.served(count)[k]).pid != id,
        decreases count,
    {
        if count > 0 {
            self.lemma_next_is_live();
            match self.next() {
                Some(entry) => {
                    let rest = self.fetched();
                    assert(!rest.tasks.dom().contains(id));
                    rest.lemma_absent_is_not_served(id, (count - 1) as nat);
                    assert forall|k: int| 0 <= k < self.served(count).len() implies (
                    #[trigger] self.served(count)[k]).pid != id by {
                        if k > 0 {
                            assert(self.served(count)[k] == rest.served((count - 1) as nat)[k - 1]);
                        }
                    }
                },
                None => {},
            }
        }
    }

    /// A process that was queued and then deleted is not served: the next
    /// fetch serves another process or finds nothing to serve, and so does
    /// every fetch after it.
    pub proof fn lemma_deleted_is_not_served(self, id: usize, count: nat)
        ensures
            self.added(id).deleted(id).next() matches Some(entry) ==> entry.pid != id,
            forall|k: int|
                0 <= k < self.added(id).deleted(id).served(count).len() ==> (
                #[trigger] self.added(id).deleted(id).served(count)[k]).pid != id,
    {
        let after = self.added(id).deleted(id);
        after.lemma_next_is_live();
        after.lemma_absent_is_not_served(id, count);
    }

    /// A process that runs alone and is queued again after each fetch has
    /// been charged one dispatch for each round.
    pub proof fn lemma_rerun_alone(self, id: usize, times: nat)
        requires
            self.runs_alone(id),
            self.tasks[id].has_step(),
        ensures
            self.rerun(id, times).runs_alone(id),
            self.rerun(id, times).tasks[id] == self.tasks[id].dispatched_times(times),
        decreases times,
    {
        if times > 0 {
            let earlier = self.rerun(id, (times - 1) as nat);
            self.lemma_rerun_alone(id, (times - 1) as nat);
            self.tasks[id].lemma_dispatched_times((times - 1) as nat);
            assert(earlier.tasks.contains_key(id));
            assert(stale_head(earlier.tasks, earlier.ready) == 0);
            let taken = earlier.fetched();
            assert(taken.ready =~= Seq::<ReadyEntry>::empty());
            assert(taken.tasks.dom() =~= set![id]);
            let again = taken.added(id);
            assert(again.ready =~= seq![taken.entry_for(id)]);
        }
    }

    /// A process of priority 1 that runs alone, starting from a stride that
    /// is not negative, has its stride at the top of the range after
    /// `BIG_STRIDE + 1` rounds: the stride has not wrapped round.
    pub proof fn lemma_lone_process_saturates(self, id: usize)
        requires
            self.runs_alone(id),
            self.tasks[id].priority == 1,
            self.tasks[id].stride >= 0,
        ensures
            self.rerun(id, (BIG_STRIDE + 1) as nat).tasks[id].stride == i64::MAX,
    {
        self.lemma_rerun_alone(id, (BIG_STRIDE + 1) as nat);
        self.tasks[id].lemma_stride_saturates();
    }
}

} // verus!
