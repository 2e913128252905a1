//! The scheduler: owner of the task registry and of the "currently running
//! task" bookkeeping, plus the rendezvous IPC entry points built on it.
//!
//! Policy choices this implementation documents, because they are externally
//! observable:
//!
//! * `schedule` is round-robin: it picks the first eligible task scanning
//!   cyclically from the slot after the previously running task.
//! * When several senders are queued for one receiver, `receive_message`
//!   delivers first-come-first-served among the senders that pass the
//!   filter (arrival order, not scan order of an unordered set).
//!
//! The registry invariant [`Scheduler::wf`] ties everything together: task
//! identifiers equal registry slots, only the current task can be Running,
//! a task is Blocked exactly when one of its two IPC slots is set (and
//! never both — the receive filter and the outgoing message are mutually
//! exclusive), and the blocked-senders sets agree exactly with the pending
//! outgoing messages. Tasks live in the registry for the kernel's whole
//! life; the explicit termination path is an extension point outside the
//! protocol modeled here.

use vstd::prelude::*;

use crate::context::AArch64Context;
use crate::task::Message;
use crate::task::Resource;
use crate::task::SchemeId;
use crate::task::Task;
use crate::task::TaskId;
use crate::task::TaskState;
use crate::task::same_except_state;
use crate::task::same_except_state_and_context;
use crate::task::sender_matches;
use crate::task::USER_SPACE_END;
use crate::task::USER_SPACE_START;

verus! {

/// Every task sits in the registry slot named by its identifier.
pub closed spec fn ids_ok(s: Seq<Task>) -> bool {
    forall|i: int| 0 <= i < s.len() ==> (#[trigger] s[i]).spec_id() == TaskId(i as usize)
}

/// Only the current task may be Running, and the current task is never
/// Ready: it is Running, or Blocked for the moment between a blocking
/// operation and the `schedule` call that switches away from it.
pub closed spec fn running_ok(s: Seq<Task>, cur: Option<TaskId>) -> bool {
    &&& (cur matches Some(c) ==> c.0 < s.len() && !(s[c.0 as int].state() is Ready))
    &&& forall|i: int| 0 <= i < s.len() && (#[trigger] s[i]).state() is Running ==> cur == Some(
        TaskId(i as usize))
}

/// Per-task consistency: the two IPC slots are mutually exclusive, a task is
/// Blocked exactly when one of them is set, and the high-water mark is in
/// the user region.
pub open spec fn task_ok(t: Task) -> bool {
    &&& t.ipc_exclusive()
    &&& (t.state() is Blocked <==> (t.receive_filter() is Some || t.outgoing() is Some))
    &&& t.highwater() <= USER_SPACE_END
}

pub closed spec fn tasks_ok(s: Seq<Task>) -> bool {
    forall|i: int| 0 <= i < s.len() ==> task_ok(#[trigger] s[i])
}

/// Like [`tasks_ok`], with one slot exempted: the transient shape between
/// recording a blocking reason on a task and the matching state change.
pub closed spec fn tasks_ok_except(s: Seq<Task>, e: int) -> bool {
    forall|i: int| 0 <= i < s.len() && i != e ==> task_ok(#[trigger] s[i])
}

/// The `k`-th recorded blocked sender of task `i` is a real task whose
/// pending outgoing message is addressed to task `i` and signed by itself.
pub closed spec fn senders_entry_ok(s: Seq<Task>, i: int, k: int) -> bool {
    let sid = s[i].senders()[k];
    &&& sid.0 < s.len()
    &&& s[sid.0 as int].outgoing() matches Some(m) && m.sender == sid && m.receiver == TaskId(
        i as usize)
}

pub closed spec fn senders_ok(s: Seq<Task>) -> bool {
    forall|i: int, k: int|
        0 <= i < s.len() && 0 <= k < s[i].senders().len() ==> #[trigger] senders_entry_ok(s, i, k)
}

/// No sender is recorded twice for the same receiver.
pub closed spec fn senders_distinct(s: Seq<Task>) -> bool {
    forall|i: int, k1: int, k2: int|
        0 <= i < s.len() && 0 <= k1 < k2 < s[i].senders().len() ==> (#[trigger] s[i].senders()[k1])
            != (#[trigger] s[i].senders()[k2])
}

/// A pending outgoing message is signed by its owner, addressed to a real
/// task, and recorded in that receiver's blocked-senders set.
pub closed spec fn outgoing_ok(s: Seq<Task>) -> bool {
    forall|j: int| 0 <= j < s.len() ==> match (#[trigger] s[j].outgoing()) {
        Some(m) => {
            &&& m.sender == TaskId(j as usize)
            &&& m.receiver.0 < s.len()
            &&& s[m.receiver.0 as int].senders().contains(TaskId(j as usize))
        },
        None => true,
    }
}

/// Is registry slot `i` eligible to be picked by `schedule`: Ready, or the
/// still-Running current task (which stays eligible for another quantum).
pub open spec fn eligible(s: Seq<Task>, cur: Option<TaskId>, i: int) -> bool {
    s[i].state() is Ready || (cur == Some(TaskId(i as usize)) && s[i].state() is Running)
}

/// First eligible slot in `[lo, hi)`, if any.
pub closed spec fn find_eligible(s: Seq<Task>, cur: Option<TaskId>, lo: int, hi: int) -> Option<
    int>
    decreases hi - lo,
{
    if lo >= hi {
        None
    } else if eligible(s, cur, lo) {
        Some(lo)
    } else {
        find_eligible(s, cur, lo + 1, hi)
    }
}

/// Slot where the round-robin scan begins: just after the current task,
/// wrapping to the first slot.
pub open spec fn scan_start(cur: Option<TaskId>, len: int) -> int {
    match cur {
        Some(c) => if c.0 + 1 < len {
            c.0 + 1
        } else {
            0
        },
        None => 0,
    }
}

/// The slot `schedule` picks: the first eligible slot scanning cyclically
/// from [`scan_start`]. This is the documented round-robin policy.
pub open spec fn chosen_slot(s: Seq<Task>, cur: Option<TaskId>) -> Option<int> {
    let start = scan_start(cur, s.len() as int);
    match find_eligible(s, cur, start, s.len() as int) {
        Some(i) => Some(i),
        None => find_eligible(s, cur, 0, start),
    }
}

/// [`find_eligible`] returns the first eligible slot of its range, and
/// `None` exactly when the range holds none.
pub proof fn lemma_find_eligible(s: Seq<Task>, cur: Option<TaskId>, lo: int, hi: int)
    requires
        0 <= lo <= hi <= s.len(),
    ensures
        match find_eligible(s, cur, lo, hi) {
            Some(i) => lo <= i < hi && eligible(s, cur, i) && forall|j: int|
                lo <= j < i ==> !eligible(s, cur, j),
            None => forall|j: int| lo <= j < hi ==> !eligible(s, cur, j),
        },
    decreases hi - lo,
{
    if lo < hi && !eligible(s, cur, lo) {
        lemma_find_eligible(s, cur, lo + 1, hi);
    }
}

/// `b` agrees with `a` on identity, on the outgoing slot and on the
/// blocked-senders set — everything the cross-linking invariants read.
pub open spec fn same_ipc_fields(a: Task, b: Task) -> bool {
    &&& b.spec_id() == a.spec_id()
    &&& b.outgoing() == a.outgoing()
    &&& b.senders() == a.senders()
}

/// A registry rewrite that leaves every task's identity and IPC bookkeeping
/// alone preserves the identity and cross-linking invariants.
pub proof fn lemma_ipc_fields_preserve(s0: Seq<Task>, s1: Seq<Task>)
    requires
        s0.len() == s1.len(),
        forall|i: int| 0 <= i < s0.len() ==> same_ipc_fields(#[trigger] s0[i], s1[i]),
        ids_ok(s0),
        senders_ok(s0),
        senders_distinct(s0),
        outgoing_ok(s0),
    ensures
        ids_ok(s1),
        senders_ok(s1),
        senders_distinct(s1),
        outgoing_ok(s1),
{
    assert forall|i: int| 0 <= i < s1.len() implies (#[trigger] s1[i]).spec_id() == TaskId(
        i as usize) by {
        assert(same_ipc_fields(s0[i], s1[i]));
    }
    assert forall|i: int, k: int| 0 <= i < s1.len() && 0 <= k < s1[i].senders().len()
        implies #[trigger] senders_entry_ok(s1, i, k) by {
        assert(same_ipc_fields(s0[i], s1[i]));
        assert(senders_entry_ok(s0, i, k));
        let sid = s0[i].senders()[k];
        assert(same_ipc_fields(s0[sid.0 as int], s1[sid.0 as int]));
    }
    assert forall|i: int, k1: int, k2: int|
        0 <= i < s1.len() && 0 <= k1 < k2 < s1[i].senders().len() implies (
    #[trigger] s1[i].senders()[k1]) != (#[trigger] s1[i].senders()[k2]) by {
        assert(same_ipc_fields(s0[i], s1[i]));
        assert(s0[i].senders()[k1] != s0[i].senders()[k2]);
    }
    assert forall|j: int| 0 <= j < s1.len() implies match (#[trigger] s1[j].outgoing()) {
        Some(m) => {
            &&& m.sender == TaskId(j as usize)
            &&& m.receiver.0 < s1.len()
            &&& s1[m.receiver.0 as int].senders().contains(TaskId(j as usize))
        },
        None => true,
    } by {
        assert(same_ipc_fields(s0[j], s1[j]));
        if let Some(m) = s0[j].outgoing() {
            assert(same_ipc_fields(s0[m.receiver.0 as int], s1[m.receiver.0 as int]));
            let w = choose|w: int| 0 <= w < s0[m.receiver.0 as int].senders().len()
                && s0[m.receiver.0 as int].senders()[w] == TaskId(j as usize);
            assert(s1[m.receiver.0 as int].senders()[w] == TaskId(j as usize));
        }
    }
}

/// First index in `s` at or after `lo` holding a sender that passes
/// `filter`.
pub closed spec fn find_match(s: Seq<TaskId>, filter: Option<TaskId>, lo: int) -> Option<int>
    decreases s.len() - lo,
{
    if lo < 0 || lo >= s.len() {
        None
    } else if sender_matches(s[lo], filter) {
        Some(lo)
    } else {
        find_match(s, filter, lo + 1)
    }
}

/// Index of the first blocked sender passing `filter`, in arrival order:
/// the documented first-come-first-served delivery policy.
pub open spec fn first_matching_sender(s: Seq<TaskId>, filter: Option<TaskId>) -> Option<int> {
    find_match(s, filter, 0)
}

/// [`find_match`] returns the first matching index of its range, and `None`
/// exactly when there is none.
pub proof fn lemma_find_match(s: Seq<TaskId>, filter: Option<TaskId>, lo: int)
    requires
        0 <= lo <= s.len(),
    ensures
        match find_match(s, filter, lo) {
            Some(k) => lo <= k < s.len() && sender_matches(s[k], filter) && forall|j: int|
                lo <= j < k ==> !sender_matches(s[j], filter),
            None => forall|j: int| lo <= j < s.len() ==> !sender_matches(s[j], filter),
        },
    decreases s.len() - lo,
{
    if lo < s.len() && !sender_matches(s[lo], filter) {
        lemma_find_match(s, filter, lo + 1);
    }
}

/// Removing one element keeps every other element present.
pub proof fn lemma_remove_keeps_others(s: Seq<TaskId>, k: int, x: TaskId)
    requires
        0 <= k < s.len(),
        s.contains(x),
        s[k] != x,
    ensures
        s.remove(k).contains(x),
{
    let w = choose|w: int| 0 <= w < s.len() && s[w] == x;
    if w < k {
        assert(s.remove(k)[w] == x);
    } else {
        assert(s.remove(k)[w - 1] == x);
    }
}

/// What `receive_message` returns to the IPC layer.
#[derive(Debug, Eq, PartialEq, Clone, Copy, Structural)]
pub enum ReceiveOutcome {
    /// A matching blocked sender was waiting: its message was consumed,
    /// deposited into the caller's context along with success status, the
    /// sender was unblocked with success status, and `next` now runs.
    Delivered { message: Message, next: TaskId },
    /// No matching sender was waiting: the caller recorded its filter and
    /// blocked; `next` now runs (`None` if no task can run).
    Blocked { next: Option<TaskId> },
}

/// What `send_message` returns to the IPC layer on success.
#[derive(Debug, Eq, PartialEq, Clone, Copy, Structural)]
pub enum SendOutcome {
    /// The receiver was blocked with a matching filter: the message was
    /// deposited into its context, it was unblocked, success status was
    /// staged for the sender, and `next` now runs.
    Delivered { next: TaskId },
    /// The receiver was not matching: the message was parked in the
    /// sender's outgoing slot, the sender was queued on the receiver and
    /// blocked; `next` now runs (`None` if no task can run).
    SenderBlocked { next: Option<TaskId> },
}

/// Why a `send_message` call was rejected, leaving the kernel unchanged.
#[derive(Debug, Eq, PartialEq, Clone, Copy, Structural)]
pub enum SendError {
    /// The message's `sender` field does not name the calling task.
    ForgedSender,
    /// The message's `receiver` field names no registered task.
    UnknownReceiver,
}

/// Owner of the task registry and of the currently running task.
pub struct Scheduler {
    tasks: Vec<Task>,
    current: Option<TaskId>,
}

impl Scheduler {
    /// The registry, by slot.
    pub closed spec fn tasks_seq(self) -> Seq<Task> {
        self.tasks@
    }

    /// Number of registered tasks.
    pub open spec fn n_tasks(self) -> nat {
        self.tasks_seq().len()
    }

    /// Is `id` a registered task?
    pub open spec fn has_task(self, id: TaskId) -> bool {
        id.0 < self.n_tasks()
    }

    /// The registered task named `id`.
    pub open spec fn task(self, id: TaskId) -> Task
        recommends
            self.has_task(id),
    {
        self.tasks_seq()[id.0 as int]
    }

    /// The currently running task, if any.
    pub closed spec fn current_id(self) -> Option<TaskId> {
        self.current
    }

    /// The registry invariant; established by [`Scheduler::new`] and
    /// preserved by every operation.
    pub closed spec fn wf(self) -> bool {
        &&& ids_ok(self.tasks@)
        &&& running_ok(self.tasks@, self.current)
        &&& tasks_ok(self.tasks@)
        &&& senders_ok(self.tasks@)
        &&& senders_distinct(self.tasks@)
        &&& outgoing_ok(self.tasks@)
    }

    /// The invariant with the per-task consistency of one task exempted:
    /// the transient shape while an IPC operation updates that task.
    pub closed spec fn wf_except(self, e: TaskId) -> bool {
        &&& ids_ok(self.tasks@)
        &&& running_ok(self.tasks@, self.current)
        &&& tasks_ok_except(self.tasks@, e.0 as int)
        &&& senders_ok(self.tasks@)
        &&& senders_distinct(self.tasks@)
        &&& outgoing_ok(self.tasks@)
    }

    /// An empty scheduler: no tasks, nothing running.
    pub fn new() -> (s: Self)
        ensures
            s.wf(),
            s.n_tasks() == 0,
            s.current_id() is None,
    {
        Scheduler { tasks: Vec::new(), current: None }
    }

    /// Insert a freshly built task into the registry, marked Ready. The
    /// registry owns the task from here on; its identifier is returned.
    pub fn register_new_task(&mut self, task: Task) -> (id: TaskId)
        requires
            old(self).wf(),
            task.spec_id().0 == old(self).n_tasks(),
            task.state() == TaskState::Ready,
            task.receive_filter() is None,
            task.outgoing() is None,
            task.senders() == Seq::<TaskId>::empty(),
            task.highwater() <= USER_SPACE_END,
        ensures
            final(self).wf(),
            id == task.spec_id(),
            id.0 == old(self).n_tasks(),
            final(self).n_tasks() == old(self).n_tasks() + 1,
            final(self).tasks_seq() == old(self).tasks_seq().push(task),
            final(self).task(id) == task,
            final(self).current_id() == old(self).current_id(),
            forall|j: int| 0 <= j < old(self).n_tasks() ==> final(self).tasks_seq()[j] == old(
                self).tasks_seq()[j],
    {
        let id = task.id();
        self.tasks.push(task);
        proof {
            let s0 = old(self).tasks@;
            let s1 = self.tasks@;
            assert forall|i: int| 0 <= i < s1.len() implies (#[trigger] s1[i]).spec_id() == TaskId(
                i as usize) by {
                if i < s0.len() {
                    assert(s1[i] == s0[i]);
                }
            }
            assert(self.current matches Some(c) ==> c.0 < s1.len() && !(s1[c.0 as int].state()
                is Ready)) by {
                if let Some(c) = self.current {
                    assert(s1[c.0 as int] == s0[c.0 as int]);
                }
            }
            assert forall|i: int| 0 <= i < s1.len() && (#[trigger] s1[i]).state() is Running
                implies self.current == Some(TaskId(i as usize)) by {
                if i < s0.len() {
                    assert(s1[i] == s0[i]);
                } else {
                    assert(s1[i].state() == TaskState::Ready);
                }
            }
            assert forall|i: int| 0 <= i < s1.len() implies task_ok(#[trigger] s1[i]) by {
                if i < s0.len() {
                    assert(s1[i] == s0[i]);
                }
            }
            assert forall|i: int, k: int| 0 <= i < s1.len() && 0 <= k < s1[i].senders().len()
                implies #[trigger] senders_entry_ok(s1, i, k) by {
                if i < s0.len() {
                    assert(s1[i] == s0[i]);
                    assert(senders_entry_ok(s0, i, k));
                    let sid = s0[i].senders()[k];
                    assert(s1[sid.0 as int] == s0[sid.0 as int]);
                }
            }
            assert forall|i: int, k1: int, k2: int|
                0 <= i < s1.len() && 0 <= k1 < k2 < s1[i].senders().len() implies (
                #[trigger] s1[i].senders()[k1]) != (#[trigger] s1[i].senders()[k2]) by {
                if i < s0.len() {
                    assert(s1[i] == s0[i]);
                }
            }
            assert forall|j: int| 0 <= j < s1.len() implies match (#[trigger] s1[j].outgoing()) {
                Some(m) => {
                    &&& m.sender == TaskId(j as usize)
                    &&& m.receiver.0 < s1.len()
                    &&& s1[m.receiver.0 as int].senders().contains(TaskId(j as usize))
                },
                None => true,
            } by {
                if j < s0.len() {
                    assert(s1[j] == s0[j]);
                    if let Some(m) = s0[j].outgoing() {
                        assert(s1[m.receiver.0 as int] == s0[m.receiver.0 as int]);
                        let w = choose|w: int| 0 <= w < s0[m.receiver.0 as int].senders().len()
                            && s0[m.receiver.0 as int].senders()[w] == TaskId(j as usize);
                        assert(s1[m.receiver.0 as int].senders()[w] == TaskId(j as usize));
                    }
                }
            }
        }
        id
    }

    /// The identifier of the currently running task, if any.
    pub fn current_task_id(&self) -> (r: Option<TaskId>)
        ensures
            r == self.current_id(),
    {
        self.current
    }

    /// Number of registered tasks.
    pub fn task_count(&self) -> (n: usize)
        ensures
            n == self.n_tasks(),
    {
        self.tasks.len()
    }

    /// Look up a task by identifier; `None` exactly when no task has it.
    /// In a well-formed registry the returned task names itself `id`
    /// ([`lemma_registered_task_has_its_id`]).
    pub fn get_task_by_id(&self, id: TaskId) -> (r: Option<&Task>)
        ensures
            match r {
                Some(t) => self.has_task(id) && *t == self.task(id),
                None => !self.has_task(id),
            },
    {
        if id.0 < self.tasks.len() {
            Some(&self.tasks[id.0])
        } else {
            None
        }
    }

    /// The currently running task, if control is in task context.
    pub fn get_current_task(&self) -> (r: Option<&Task>)
        requires
            self.wf(),
        ensures
            match r {
                Some(t) => self.current_id() is Some && *t == self.task(
                    self.current_id().unwrap()),
                None => self.current_id() is None,
            },
    {
        match self.current {
            Some(c) => Some(&self.tasks[c.0]),
            None => None,
        }
    }

    /// Exclusive access to a registered task, for its owner's operations
    /// (growing its address space, staging into its context).
    pub fn task_mut(&mut self, id: TaskId) -> (t: &mut Task)
        requires
            old(self).has_task(id),
        ensures
            (*t == old(self).task(id)),
            (final(self).tasks_seq() == old(self).tasks_seq().update(id.0 as int, *final(t))),
            final(self).current_id() == old(self).current_id(),
    {
        &mut self.tasks[id.0]
    }

    /// Scan `[lo, hi)` for the first eligible slot.
    fn find_eligible_in(&self, lo: usize, hi: usize) -> (r: Option<usize>)
        requires
            lo <= hi <= self.n_tasks(),
        ensures
            (match r {
                Some(k) => Some(k as int),
                None => None,
            }) == find_eligible(self.tasks_seq(), self.current_id(), lo as int, hi as int),
            r matches Some(k) ==> lo <= k < hi,
    {
        let mut i = lo;
        while i < hi
            invariant
                lo <= i <= hi,
                hi <= self.n_tasks(),
                find_eligible(self.tasks_seq(), self.current_id(), lo as int, hi as int)
                    == find_eligible(self.tasks_seq(), self.current_id(), i as int, hi as int),
            decreases hi - i,
        {
            let st = self.tasks[i].scheduler_state();
            let is_cur = match self.current {
                Some(c) => c.0 == i,
                None => false,
            };
            if st == TaskState::Ready || (is_cur && st == TaskState::Running) {
                proof {
                    assert(eligible(self.tasks_seq(), self.current_id(), i as int));
                }
                return Some(i);
            }
            proof {
                assert(!eligible(self.tasks_seq(), self.current_id(), i as int));
            }
            i += 1;
        }
        None
    }

    /// Pick the next task to run — the first eligible slot scanning
    /// cyclically from the slot after the current task — mark it Running
    /// (demoting the previously Running task to Ready), and record it as
    /// current. Returns `None`, leaving no task current, exactly when no
    /// task can run. On hardware this is where the context switch into the
    /// picked task happens; control then continues inside that task.
    #[verifier::rlimit(60)]
    pub fn schedule(&mut self) -> (r: Option<TaskId>)
        requires
            old(self).wf(),
        ensures
            final(self).wf(),
            final(self).n_tasks() == old(self).n_tasks(),
            match r {
                Some(t) => {
                    &&& chosen_slot(old(self).tasks_seq(), old(self).current_id()) == Some(
                        t.0 as int)
                    &&& t.0 < old(self).n_tasks()
                    &&& final(self).current_id() == Some(t)
                    &&& final(self).task(t).state() is Running
                    &&& same_except_state(old(self).task(t), final(self).task(t))
                    &&& (old(self).task(t).state() is Ready || (old(self).current_id() == Some(t)
                        && old(self).task(t).state() is Running))
                    &&& forall|j: int| #![trigger old(self).tasks_seq()[j]]
                        0 <= j < old(self).n_tasks() && j != t.0 ==> {
                            if old(self).current_id() == Some(TaskId(j as usize)) && old(
                                self).tasks_seq()[j].state() is Running {
                                &&& same_except_state(old(self).tasks_seq()[j], final(
                                    self).tasks_seq()[j])
                                &&& final(self).tasks_seq()[j].state() is Ready
                            } else {
                                final(self).tasks_seq()[j] == old(self).tasks_seq()[j]
                            }
                        }
                },
                None => {
                    &&& chosen_slot(old(self).tasks_seq(), old(self).current_id()) is None
                    &&& final(self).tasks_seq() == old(self).tasks_seq()
                    &&& final(self).current_id() is None
                    &&& forall|j: int| 0 <= j < old(self).n_tasks() ==> !((#[trigger] old(
                        self).tasks_seq()[j]).state() is Ready)
                },
            },
    {
        let len = self.tasks.len();
        let start: usize = match self.current {
            Some(c) => if c.0 + 1 < len {
                c.0 + 1
            } else {
                0
            },
            None => 0,
        };
        let first = self.find_eligible_in(start, len);
        let picked_opt = match first {
            Some(k) => Some(k),
            None => self.find_eligible_in(0, start),
        };
        proof {
            lemma_find_eligible(self.tasks@, self.current, start as int, len as int);
            lemma_find_eligible(self.tasks@, self.current, 0, start as int);
        }
        match picked_opt {
            None => {
                proof {
                    assert forall|j: int| 0 <= j < self.tasks@.len() implies !((
                    #[trigger] self.tasks@[j]).state() is Ready) by {
                        if j < start {
                            assert(!eligible(self.tasks@, self.current, j));
                        } else {
                            assert(!eligible(self.tasks@, self.current, j));
                        }
                    }
                    assert forall|i: int| 0 <= i < self.tasks@.len() implies !((
                    #[trigger] self.tasks@[i]).state() is Running) by {
                        if self.current == Some(TaskId(i as usize)) {
                            assert(!eligible(self.tasks@, self.current, i));
                        }
                    }
                }
                self.current = None;
                None
            },
            Some(p) => {
                let ghost s0 = self.tasks@;
                let ghost cur0 = self.current;
                proof {
                    assert(eligible(s0, cur0, p as int));
                }
                match self.current {
                    Some(c) => {
                        if c.0 != p {
                            let t = &mut self.tasks[c.0];
                            if t.scheduler_state() == TaskState::Running {
                                t.set_state(TaskState::Ready);
                            }
                        }
                    },
                    None => {},
                }
                let ghost s1 = self.tasks@;
                let t = &mut self.tasks[p];
                t.set_state(TaskState::Running);
                self.current = Some(TaskId(p));
                proof {
                    let s2 = self.tasks@;
                    assert forall|i: int| 0 <= i < s0.len() implies same_ipc_fields(
                        #[trigger] s0[i], s2[i]) by {
                        assert(same_except_state(s1[p as int], s2[p as int]));
                        if i != p {
                            assert(s2[i] == s1[i]);
                        }
                    }
                    lemma_ipc_fields_preserve(s0, s2);
                    assert forall|i: int| 0 <= i < s2.len() && (#[trigger] s2[i]).state()
                        is Running implies self.current == Some(TaskId(i as usize)) by {
                        if i != p {
                            assert(s2[i] == s1[i]);
                            if cur0 == Some(TaskId(i as usize)) {
                                assert(!(s1[i].state() is Running));
                            } else {
                                assert(s1[i] == s0[i]);
                                assert(!(s0[i].state() is Running));
                            }
                        }
                    }
                    assert(!(s2[p as int].state() is Ready));
                    assert forall|i: int| 0 <= i < s2.len() implies task_ok(#[trigger] s2[i]) by {
                        assert(task_ok(s0[i]));
                        if i != p {
                            assert(s2[i] == s1[i]);
                            if cur0 == Some(TaskId(i as usize)) && s0[i].state() is Running {
                                assert(same_except_state(s0[i], s2[i]) || s2[i] == s0[i]);
                            } else {
                                assert(s2[i] == s0[i]);
                            }
                        } else {
                            assert(same_except_state(s0[i], s2[i]));
                            assert(!(s0[i].state() is Blocked));
                        }
                    }
                }
                Some(TaskId(p))
            },
        }
    }

    /// Mark the current task Blocked — its sending reason (the pending
    /// outgoing message) already recorded on it by the IPC layer — and
    /// switch away. Returns the task picked to run next, or `None` if no
    /// task can run.
    pub fn block_current_task_as_sending(&mut self) -> (r: Option<TaskId>)
        requires
            old(self).current_id() is Some,
            old(self).wf_except(old(self).current_id().unwrap()),
            old(self).task(old(self).current_id().unwrap()).state() is Running,
            old(self).task(old(self).current_id().unwrap()).outgoing() is Some,
            old(self).task(old(self).current_id().unwrap()).receive_filter() is None,
            old(self).task(old(self).current_id().unwrap()).highwater() <= USER_SPACE_END,
        ensures
            final(self).wf(),
            final(self).n_tasks() == old(self).n_tasks(),
            final(self).task(old(self).current_id().unwrap()).state() is Blocked,
            same_except_state(old(self).task(old(self).current_id().unwrap()), final(self).task(
                old(self).current_id().unwrap())),
            blocked_and_switched(*old(self), *final(self), old(self).current_id().unwrap(), r),
    {
        self.block_current_and_schedule()
    }

    /// Mark the current task Blocked — its receiving reason (the receive
    /// filter) already recorded on it by the IPC layer — and switch away.
    /// Returns the task picked to run next, or `None` if no task can run.
    pub fn block_current_task_as_receiving(&mut self) -> (r: Option<TaskId>)
        requires
            old(self).current_id() is Some,
            old(self).wf_except(old(self).current_id().unwrap()),
            old(self).task(old(self).current_id().unwrap()).state() is Running,
            old(self).task(old(self).current_id().unwrap()).receive_filter() is Some,
            old(self).task(old(self).current_id().unwrap()).outgoing() is None,
            old(self).task(old(self).current_id().unwrap()).highwater() <= USER_SPACE_END,
        ensures
            final(self).wf(),
            final(self).n_tasks() == old(self).n_tasks(),
            final(self).task(old(self).current_id().unwrap()).state() is Blocked,
            same_except_state(old(self).task(old(self).current_id().unwrap()), final(self).task(
                old(self).current_id().unwrap())),
            blocked_and_switched(*old(self), *final(self), old(self).current_id().unwrap(), r),
    {
        self.block_current_and_schedule()
    }

    /// Shared body of the two blocking entry points.
    fn block_current_and_schedule(&mut self) -> (r: Option<TaskId>)
        requires
            old(self).current_id() is Some,
            old(self).wf_except(old(self).current_id().unwrap()),
            old(self).task(old(self).current_id().unwrap()).state() is Running,
            (old(self).task(old(self).current_id().unwrap()).receive_filter() is Some || old(
                self).task(old(self).current_id().unwrap()).outgoing() is Some),
            !(old(self).task(old(self).current_id().unwrap()).receive_filter() is Some && old(
                self).task(old(self).current_id().unwrap()).outgoing() is Some),
            old(self).task(old(self).current_id().unwrap()).highwater() <= USER_SPACE_END,
        ensures
            final(self).wf(),
            final(self).n_tasks() == old(self).n_tasks(),
            final(self).task(old(self).current_id().unwrap()).state() is Blocked,
            same_except_state(old(self).task(old(self).current_id().unwrap()), final(self).task(
                old(self).current_id().unwrap())),
            blocked_and_switched(*old(self), *final(self), old(self).current_id().unwrap(), r),
    {
        let c = self.current.unwrap();
        let total = self.tasks.len();
        let ghost s0 = self.tasks@;
        proof {
            assert(s0.len() == total as int);
        }
        let t = &mut self.tasks[c.0];
        t.set_state(TaskState::Blocked);
        proof {
            let s1 = self.tasks@;
            assert forall|i: int| 0 <= i < s0.len() implies same_ipc_fields(#[trigger] s0[i],
                s1[i]) by {
                if i != c.0 {
                    assert(s1[i] == s0[i]);
                }
            }
            lemma_ipc_fields_preserve(s0, s1);
            assert forall|i: int| 0 <= i < s1.len() && (#[trigger] s1[i]).state() is Running
                implies self.current == Some(TaskId(i as usize)) by {
                if i != c.0 {
                    assert(s1[i] == s0[i]);
                }
            }
            assert forall|i: int| 0 <= i < s1.len() implies task_ok(#[trigger] s1[i]) by {
                if i != c.0 {
                    assert(s1[i] == s0[i]);
                    assert(task_ok(s0[i]));
                }
            }
        }
        let ghost mid = *self;
        let r = self.schedule();
        proof {
            let pre = *old(self);
            let post = *self;
            let n = pre.n_tasks() as int;
            assert forall|j: int| 0 <= j < n && j != c.0 implies mid.tasks_seq()[j]
                == pre.tasks_seq()[j] by {}
            if r is Some {
                let t = r.unwrap();
                assert(eligible(mid.tasks_seq(), mid.current_id(), t.0 as int)) by {
                    lemma_find_eligible(mid.tasks_seq(), mid.current_id(), scan_start(
                        mid.current_id(), n), n);
                    lemma_find_eligible(mid.tasks_seq(), mid.current_id(), 0, scan_start(
                        mid.current_id(), n));
                }
                assert(mid.tasks_seq()[c.0 as int].state() is Blocked);
                assert(t.0 != c.0);
                assert(mid.tasks_seq()[t.0 as int] == pre.tasks_seq()[t.0 as int]);
                assert(pre.task(t).state() is Ready);
                assert forall|j: int| #![trigger post.tasks_seq()[j]]
                    0 <= j < n && j != c.0 && j != t.0 implies post.tasks_seq()[j]
                        == pre.tasks_seq()[j] by {
                    assert(mid.tasks_seq()[j] == pre.tasks_seq()[j]);
                    assert(j <= total as int);
                    assert(!(mid.current_id() == Some(TaskId(j as usize))
                        && mid.tasks_seq()[j].state() is Running)) by {
                        if mid.current_id() == Some(TaskId(j as usize)) {
                            assert(TaskId(j as usize) == c);
                            assert(j as usize == c.0);
                        }
                    }
                    assert(post.tasks_seq()[j] == mid.tasks_seq()[j]);
                }
                assert(0 <= t.0 < n && t.0 != c.0 && (pre.tasks_seq()[t.0 as int]).state()
                    is Ready);
            } else {
                assert forall|j: int| #![trigger post.tasks_seq()[j]]
                    0 <= j < n && j != c.0 implies post.tasks_seq()[j] == pre.tasks_seq()[j] by {
                    assert(post.tasks_seq()[j] == mid.tasks_seq()[j]);
                }
                assert forall|j: int|
                    0 <= j < n && j != c.0 implies !((#[trigger] pre.tasks_seq()[j]).state()
                        is Ready) by {
                    assert(mid.tasks_seq()[j] == pre.tasks_seq()[j]);
                    assert(!(mid.tasks_seq()[j].state() is Ready));
                }
            }
        }
        r
    }

    /// Mark the named task — Blocked as a sender whose message has just been
    /// consumed — Ready again, staging `status` as the value its `send` will
    /// be seen to return.
    pub fn unblock_sending_task(&mut self, id: TaskId, status: isize)
        requires
            old(self).has_task(id),
            old(self).wf_except(id),
            old(self).current_id() != Some(id),
            old(self).task(id).state() is Blocked,
            old(self).task(id).outgoing() is None,
            old(self).task(id).receive_filter() is None,
            old(self).task(id).highwater() <= USER_SPACE_END,
        ensures
            final(self).wf(),
            final(self).n_tasks() == old(self).n_tasks(),
            final(self).current_id() == old(self).current_id(),
            forall|j: int| 0 <= j < old(self).n_tasks() && j != id.0 ==> final(
                self).tasks_seq()[j] == #[trigger] old(self).tasks_seq()[j],
            same_except_state_and_context(old(self).task(id), final(self).task(id)),
            final(self).task(id).state() is Ready,
            final(self).task(id).ctx().response_status() == Some(status),
            final(self).task(id).ctx().response_message() == old(self).task(
                id).ctx().response_message(),
            final(self).task(id).ctx().frames() == old(self).task(id).ctx().frames(),
            final(self).task(id).ctx().entry_pc() == old(self).task(id).ctx().entry_pc(),
            final(self).task(id).ctx().wf() == old(self).task(id).ctx().wf(),
    {
        let ghost s0 = self.tasks@;
        let t = &mut self.tasks[id.0];
        t.set_state(TaskState::Ready);
        t.stage_status(status);
        proof {
            self.lemma_unblock_wf(s0, id);
        }
    }

    /// Mark the named task — Blocked as a receiver whose filter has just
    /// been matched and cleared — Ready again, depositing the delivered
    /// message and `status` as the values its `receive` will be seen to
    /// return. The deposit and the state change are one step: the task is
    /// never Ready without its message staged.
    pub fn unblock_receiving_task(&mut self, id: TaskId, status: isize, m: Message)
        requires
            old(self).has_task(id),
            old(self).wf_except(id),
            old(self).current_id() != Some(id),
            old(self).task(id).state() is Blocked,
            old(self).task(id).outgoing() is None,
            old(self).task(id).receive_filter() is None,
            old(self).task(id).highwater() <= USER_SPACE_END,
        ensures
            final(self).wf(),
            final(self).n_tasks() == old(self).n_tasks(),
            final(self).current_id() == old(self).current_id(),
            forall|j: int| 0 <= j < old(self).n_tasks() && j != id.0 ==> final(
                self).tasks_seq()[j] == #[trigger] old(self).tasks_seq()[j],
            same_except_state_and_context(old(self).task(id), final(self).task(id)),
            final(self).task(id).state() is Ready,
            final(self).task(id).ctx().response_status() == Some(status),
            final(self).task(id).ctx().response_message() == Some(m),
            final(self).task(id).ctx().frames() == old(self).task(id).ctx().frames(),
            final(self).task(id).ctx().entry_pc() == old(self).task(id).ctx().entry_pc(),
            final(self).task(id).ctx().wf() == old(self).task(id).ctx().wf(),
    {
        let ghost s0 = self.tasks@;
        let t = &mut self.tasks[id.0];
        t.set_state(TaskState::Ready);
        t.stage_message_and_status(m, status);
        proof {
            self.lemma_unblock_wf(s0, id);
        }
    }

    /// After setting a flagless Blocked task Ready and touching only its
    /// context, the registry invariant holds again.
    proof fn lemma_unblock_wf(&self, s0: Seq<Task>, id: TaskId)
        requires
            id.0 < s0.len(),
            self.tasks@.len() == s0.len(),
            forall|j: int| 0 <= j < s0.len() && j != id.0 ==> self.tasks@[j] == #[trigger] s0[j],
            same_except_state_and_context(s0[id.0 as int], self.tasks@[id.0 as int]),
            self.tasks@[id.0 as int].state() is Ready,
            s0[id.0 as int].outgoing() is None,
            s0[id.0 as int].receive_filter() is None,
            s0[id.0 as int].highwater() <= USER_SPACE_END,
            ids_ok(s0),
            running_ok(s0, self.current_id()),
            self.current_id() != Some(id),
            tasks_ok_except(s0, id.0 as int),
            senders_ok(s0),
            senders_distinct(s0),
            outgoing_ok(s0),
        ensures
            self.wf(),
    {
        let s1 = self.tasks@;
        assert forall|i: int| 0 <= i < s0.len() implies same_ipc_fields(#[trigger] s0[i], s1[i])
            by {}
        lemma_ipc_fields_preserve(s0, s1);
        assert(self.current_id() matches Some(c) ==> c.0 < s1.len() && !(s1[c.0 as int].state()
            is Ready)) by {
            if let Some(c) = self.current_id() {
                assert(s1[c.0 as int] == s0[c.0 as int]);
            }
        }
        assert forall|i: int| 0 <= i < s1.len() && (#[trigger] s1[i]).state() is Running implies
            self.current_id() == Some(TaskId(i as usize)) by {
            if i != id.0 {
                assert(s1[i] == s0[i]);
            }
        }
        assert forall|i: int| 0 <= i < s1.len() implies task_ok(#[trigger] s1[i]) by {
            if i != id.0 {
                assert(s1[i] == s0[i]);
                assert(task_ok(s0[i]));
            }
        }
    }

    /// Touching only one task's register context preserves the registry
    /// invariant: the invariant never reads contexts.
    proof fn lemma_ctx_only_wf(&self, s0: Seq<Task>, cur0: Option<TaskId>, id: TaskId)
        requires
            id.0 < s0.len(),
            self.tasks@.len() == s0.len(),
            self.current_id() == cur0,
            forall|j: int| 0 <= j < s0.len() && j != id.0 ==> self.tasks@[j] == #[trigger] s0[j],
            crate::task::same_except_context(s0[id.0 as int], self.tasks@[id.0 as int]),
            ids_ok(s0),
            running_ok(s0, cur0),
            tasks_ok(s0),
            senders_ok(s0),
            senders_distinct(s0),
            outgoing_ok(s0),
        ensures
            self.wf(),
    {
        let s1 = self.tasks@;
        assert forall|i: int| 0 <= i < s0.len() implies same_ipc_fields(#[trigger] s0[i], s1[i])
            by {}
        lemma_ipc_fields_preserve(s0, s1);
        assert(cur0 matches Some(c) ==> c.0 < s1.len() && !(s1[c.0 as int].state() is Ready)) by {
            if let Some(c) = cur0 {
                if c.0 != id.0 {
                    assert(s1[c.0 as int] == s0[c.0 as int]);
                }
            }
        }
        assert forall|i: int| 0 <= i < s1.len() && (#[trigger] s1[i]).state() is Running implies
            cur0 == Some(TaskId(i as usize)) by {
            if i != id.0 {
                assert(s1[i] == s0[i]);
            }
        }
        assert forall|i: int| 0 <= i < s1.len() implies task_ok(#[trigger] s1[i]) by {
            assert(task_ok(s0[i]));
            if i != id.0 {
                assert(s1[i] == s0[i]);
            }
        }
    }
}

/// The relation between a scheduler before and after "block the current
/// task `c`, then switch": who runs next, and that nothing else moved.
pub open spec fn blocked_and_switched(pre: Scheduler, post: Scheduler, c: TaskId, r: Option<
    TaskId>) -> bool {
    &&& match r {
        Some(t) => {
            &&& t != c
            &&& t.0 < pre.n_tasks()
            &&& post.current_id() == Some(t)
            &&& post.task(t).state() is Running
            &&& pre.task(t).state() is Ready
            &&& same_except_state(pre.task(t), post.task(t))
            &&& forall|j: int| #![trigger post.tasks_seq()[j]]
                0 <= j < pre.n_tasks() && j != c.0 && j != t.0 ==> post.tasks_seq()[j]
                    == pre.tasks_seq()[j]
        },
        None => {
            &&& post.current_id() is None
            &&& forall|j: int| #![trigger post.tasks_seq()[j]]
                0 <= j < pre.n_tasks() && j != c.0 ==> post.tasks_seq()[j] == pre.tasks_seq()[j]
        },
    }
    &&& (r is Some <==> exists|j: int|
        0 <= j < pre.n_tasks() && j != c.0 && (#[trigger] pre.tasks_seq()[j]).state() is Ready)
}

impl Task {
    /// Receive a message for the calling (current) task.
    ///
    /// If a blocked sender passing `from` is already queued, the first such
    /// sender in arrival order is chosen: it leaves the queue, its pending
    /// message is consumed and deposited — together with success status —
    /// into the caller's context, the sender is unblocked with success
    /// status, and the scheduler switches (possibly straight back to the
    /// caller). Otherwise the caller records `from` as its receive filter,
    /// blocks, and the scheduler switches away; the caller runs again only
    /// once a matching `send_message` unblocks it.
    #[verifier::rlimit(100)]
    pub fn receive_message(sched: &mut Scheduler, from: Option<TaskId>) -> (r: ReceiveOutcome)
        requires
            old(sched).wf(),
            old(sched).current_id() is Some,
            old(sched).task(old(sched).current_id().unwrap()).state() is Running,
        ensures
            final(sched).wf(),
            final(sched).n_tasks() == old(sched).n_tasks(),
            ({
                let c = old(sched).current_id().unwrap();
                let pre = *old(sched);
                let post = *final(sched);
                let n = pre.n_tasks() as int;
                match first_matching_sender(pre.task(c).senders(), from) {
                    Some(k) => {
                        let sid = pre.task(c).senders()[k];
                        let m = pre.task(sid).outgoing().unwrap();
                        &&& r matches ReceiveOutcome::Delivered { message, next }
                        &&& message == m
                        &&& m.sender == sid
                        &&& m.receiver == c
                        &&& sid != c
                        &&& sender_matches(sid, from)
                        &&& post.task(c).senders() == pre.task(c).senders().remove(k)
                        &&& post.task(c).receive_filter() is None
                        &&& post.task(c).outgoing() is None
                        &&& post.task(c).ctx().response_message() == Some(m)
                        &&& post.task(c).ctx().response_status() == Some(0isize)
                        &&& post.task(c).ctx().frames() == pre.task(c).ctx().frames()
                        &&& post.task(c).ctx().entry_pc() == pre.task(c).ctx().entry_pc()
                        &&& post.task(sid).outgoing() is None
                        &&& post.task(sid).receive_filter() is None
                        &&& post.task(sid).ctx().response_status() == Some(0isize)
                        &&& post.task(sid).ctx().response_message() == pre.task(
                            sid).ctx().response_message()
                        &&& (post.task(sid).state() is Ready || next == sid)
                        &&& next.0 < n
                        &&& post.current_id() == Some(next)
                        &&& post.task(next).state() is Running
                        &&& (next != c && next != sid ==> pre.task(next).state() is Ready
                            && same_except_state(pre.task(next), post.task(next)))
                        &&& forall|j: int| #![trigger post.tasks_seq()[j]]
                            0 <= j < n && j != c.0 && j != sid.0 && j != next.0
                                ==> post.tasks_seq()[j] == pre.tasks_seq()[j]
                    },
                    None => {
                        &&& r matches ReceiveOutcome::Blocked { next }
                        &&& post.task(c).state() is Blocked
                        &&& post.task(c).receive_filter() == Some(from)
                        &&& post.task(c).outgoing() is None
                        &&& post.task(c).senders() == pre.task(c).senders()
                        &&& post.task(c).ctx() == pre.task(c).ctx()
                        &&& match next {
                            Some(t) => {
                                &&& t != c
                                &&& t.0 < n
                                &&& post.current_id() == Some(t)
                                &&& post.task(t).state() is Running
                                &&& pre.task(t).state() is Ready
                                &&& same_except_state(pre.task(t), post.task(t))
                                &&& forall|j: int| #![trigger post.tasks_seq()[j]]
                                    0 <= j < n && j != c.0 && j != t.0 ==> post.tasks_seq()[j]
                                        == pre.tasks_seq()[j]
                            },
                            None => {
                                &&& post.current_id() is None
                                &&& forall|j: int| #![trigger post.tasks_seq()[j]]
                                    0 <= j < n && j != c.0 ==> post.tasks_seq()[j]
                                        == pre.tasks_seq()[j]
                            },
                        }
                        &&& (next is Some <==> exists|j: int|
                            0 <= j < n && j != c.0 && (#[trigger] pre.tasks_seq()[j]).state()
                                is Ready)
                    },
                }
            }),
    {
        let c = sched.current.unwrap();
        let total = sched.tasks.len();
        let ghost s0 = sched.tasks@;
        let ghost cur0 = sched.current;
        proof {
            assert(s0.len() == total as int);
        }
        let k_opt = sched.tasks[c.0].find_matching_sender(from);
        proof {
            let seq = s0[c.0 as int].senders();
            lemma_find_match(seq, from, 0);
            match k_opt {
                Some(k) => {
                    match first_matching_sender(seq, from) {
                        Some(k2) => {
                            if k2 < k as int {
                                assert(!sender_matches(seq[k2], from));
                                assert(false);
                            }
                            if k2 > k as int {
                                assert(!sender_matches(seq[k as int], from));
                                assert(false);
                            }
                        },
                        None => {
                            assert(!sender_matches(seq[k as int], from));
                            assert(false);
                        },
                    }
                },
                None => {
                    if let Some(k2) = first_matching_sender(seq, from) {
                        assert(!sender_matches(seq[k2], from));
                        assert(false);
                    }
                },
            }
        }
        match k_opt {
            Some(k) => {
                let t = &mut sched.tasks[c.0];
                let sender_id = t.remove_sender(k);
                proof {
                    assert(senders_entry_ok(s0, c.0 as int, k as int));
                }
                let t2 = &mut sched.tasks[sender_id.0];
                let m_taken = t2.take_outgoing();
                let m = m_taken.unwrap();
                let ghost s2 = sched.tasks@;
                proof {
                    let rc = c.0 as int;
                    let sd = sender_id.0 as int;
                    let seq0 = s0[rc].senders();
                    assert(m.sender == sender_id && m.receiver == TaskId(c.0));
                    assert(TaskId(c.0) == c);
                    assert(task_ok(s0[sd]));
                    assert(s0[sd].state() is Blocked);
                    assert(sd != rc);
                    assert(sender_id == TaskId(sd as usize));
                    // the two updated slots
                    assert(s2[rc].senders() == seq0.remove(k as int));
                    assert(crate::task::same_except_senders(s0[rc], s2[rc]));
                    assert(crate::task::same_except_outgoing(s0[sd], s2[sd]));
                    assert(forall|j: int| 0 <= j < s2.len() && j != rc && j != sd
                        ==> #[trigger] s2[j] == s0[j]);
                    // identities and run states are untouched
                    assert forall|i: int| 0 <= i < s2.len() implies (#[trigger] s2[i]).spec_id()
                        == TaskId(i as usize) by {
                        if i != rc && i != sd {
                            assert(s2[i] == s0[i]);
                        }
                    }
                    assert forall|i: int| 0 <= i < s2.len() && (#[trigger] s2[i]).state()
                        is Running implies cur0 == Some(TaskId(i as usize)) by {
                        if i != rc && i != sd {
                            assert(s2[i] == s0[i]);
                        }
                    }
                    assert(!(s2[rc].state() is Ready));
                    // per-task consistency, except at the just-emptied sender
                    assert forall|i: int| 0 <= i < s2.len() && i != sd implies task_ok(
                        #[trigger] s2[i]) by {
                        assert(task_ok(s0[i]));
                        if i != rc {
                            assert(s2[i] == s0[i]);
                        }
                    }
                    // blocked-sender entries still link correctly
                    assert forall|i: int, w: int| 0 <= i < s2.len() && 0 <= w
                        < s2[i].senders().len() implies #[trigger] senders_entry_ok(s2, i, w) by {
                        if i == rc {
                            let worig: int = if w < k as int { w } else { w + 1 };
                            assert(s2[rc].senders()[w] == seq0[worig]);
                            assert(senders_entry_ok(s0, rc, worig));
                            let x = seq0[worig];
                            assert(x != sender_id) by {
                                if x == sender_id {
                                    assert(seq0[worig] == seq0[k as int]);
                                    assert(false);
                                }
                            }
                            assert(x.0 != sd as int || x != sender_id);
                            assert(x.0 as int != sd) by {
                                if x.0 as int == sd {
                                    assert(s0[sd].spec_id() == TaskId(sd as usize));
                                    assert(senders_entry_ok(s0, rc, worig));
                                    assert(s0[x.0 as int].outgoing() matches Some(mm)
                                        && mm.sender == x);
                                    assert(m.sender == x);
                                    assert(false);
                                }
                            }
                            assert(s2[x.0 as int] == s0[x.0 as int]);
                        } else {
                            assert(s2[i].senders() == s0[i].senders());
                            assert(senders_entry_ok(s0, i, w));
                            let x = s0[i].senders()[w];
                            assert(x.0 as int != sd) by {
                                if x.0 as int == sd {
                                    assert(s0[sd].outgoing() matches Some(mm) && mm.receiver
                                        == TaskId(i as usize));
                                    assert(m.receiver == TaskId(i as usize));
                                    assert(i == rc);
                                    assert(false);
                                }
                            }
                            assert(s2[x.0 as int] == s0[x.0 as int]);
                        }
                    }
                    assert forall|i: int, w1: int, w2: int|
                        0 <= i < s2.len() && 0 <= w1 < w2 < s2[i].senders().len() implies (
                    #[trigger] s2[i].senders()[w1]) != (#[trigger] s2[i].senders()[w2]) by {
                        if i == rc {
                            let o1: int = if w1 < k as int { w1 } else { w1 + 1 };
                            let o2: int = if w2 < k as int { w2 } else { w2 + 1 };
                            assert(s2[rc].senders()[w1] == seq0[o1]);
                            assert(s2[rc].senders()[w2] == seq0[o2]);
                            assert(seq0[o1] != seq0[o2]);
                        } else {
                            assert(s2[i].senders() == s0[i].senders());
                        }
                    }
                    assert forall|j: int| 0 <= j < s2.len() implies match (
                    #[trigger] s2[j].outgoing()) {
                        Some(mm) => {
                            &&& mm.sender == TaskId(j as usize)
                            &&& mm.receiver.0 < s2.len()
                            &&& s2[mm.receiver.0 as int].senders().contains(TaskId(j as usize))
                        },
                        None => true,
                    } by {
                        if j != sd {
                            if j != rc {
                                assert(s2[j] == s0[j]);
                            }
                            assert(s2[j].outgoing() == s0[j].outgoing());
                            if let Some(mm) = s0[j].outgoing() {
                                assert(task_ok(s0[j]));
                                if mm.receiver.0 as int == rc {
                                    assert(seq0.contains(TaskId(j as usize)));
                                    assert(seq0[k as int] == sender_id);
                                    assert(TaskId(j as usize) != sender_id);
                                    lemma_remove_keeps_others(seq0, k as int, TaskId(
                                        j as usize));
                                } else {
                                    assert(s2[mm.receiver.0 as int].senders()
                                        == s0[mm.receiver.0 as int].senders());
                                }
                            }
                        }
                    }
                }
                let ghost sch2 = *sched;
                sched.unblock_sending_task(sender_id, 0);
                let ghost sch3 = *sched;
                let ghost s3 = sched.tasks@;
                let ghost cur3 = sched.current_id();
                let t3 = &mut sched.tasks[c.0];
                t3.stage_message_and_status(m, 0);
                proof {
                    sched.lemma_ctx_only_wf(s3, cur3, c);
                }
                let ghost mid = *sched;
                let next_opt = sched.schedule();
                proof {
                    let n = s0.len() as int;
                    if next_opt is None {
                        lemma_find_eligible(mid.tasks_seq(), mid.current_id(), scan_start(
                            mid.current_id(), n), n);
                        lemma_find_eligible(mid.tasks_seq(), mid.current_id(), 0, scan_start(
                            mid.current_id(), n));
                        assert(eligible(mid.tasks_seq(), mid.current_id(), c.0 as int));
                        assert(false);
                    }
                }
                let next = next_opt.unwrap();
                proof {
                    let rc = c.0 as int;
                    let sd = sender_id.0 as int;
                    let post = *sched;
                    let n = s0.len() as int;
                    assert forall|j: int| #![trigger post.tasks_seq()[j]]
                        0 <= j < n && j != rc && j != sd && j != next.0 implies
                        post.tasks_seq()[j] == s0[j] by {
                        assert(sch2.tasks_seq()[j] == s2[j]);
                        assert(sch3.tasks_seq()[j] == sch2.tasks_seq()[j]);
                        assert(mid.tasks_seq()[j] == sch3.tasks_seq()[j]);
                        assert(mid.tasks_seq()[j] == s0[j]);
                        assert(!(mid.current_id() == Some(TaskId(j as usize))
                            && mid.tasks_seq()[j].state() is Running)) by {
                            if mid.current_id() == Some(TaskId(j as usize)) {
                                assert(TaskId(j as usize) == c);
                                assert(j as usize == c.0);
                            }
                        }
                    }
                    if next.0 as int != rc && next.0 as int != sd {
                        let w = next.0 as int;
                        assert(sch2.tasks_seq()[w] == s2[w]);
                        assert(sch3.tasks_seq()[w] == sch2.tasks_seq()[w]);
                        assert(mid.tasks_seq()[w] == sch3.tasks_seq()[w]);
                        assert(mid.tasks_seq()[w] == s0[w]);
                        assert(!(mid.current_id() == Some(next) && mid.tasks_seq()[
                            next.0 as int].state() is Running));
                    }
                    // sender-side facts survive the switch: the schedule step
                    // changes at most its run state
                    assert(crate::task::same_except_outgoing(s0[sd], s2[sd]));
                    assert(sch2.tasks_seq()[sd] == s2[sd]);
                    assert(sch3.task(sender_id).outgoing() is None);
                    assert(sch3.task(sender_id).receive_filter() is None);
                    assert(sch3.task(sender_id).ctx().response_status() == Some(0isize));
                    assert(sch3.task(sender_id).ctx().response_message() == s0[
                        sd].ctx().response_message());
                    assert(mid.tasks_seq()[sd] == sch3.tasks_seq()[sd]);
                    assert(mid.task(sender_id) == sch3.task(sender_id));
                    if next == sender_id {
                        assert(same_except_state(mid.task(sender_id), post.task(sender_id)));
                    } else {
                        assert(!(mid.current_id() == Some(TaskId(sd as usize))
                            && mid.tasks_seq()[sd].state() is Running)) by {
                            if mid.current_id() == Some(TaskId(sd as usize)) {
                                assert(TaskId(sd as usize) == c);
                            }
                        }
                        assert(post.tasks_seq()[sd] == mid.tasks_seq()[sd]);
                        assert(post.task(sender_id).state() is Ready);
                    }
                }
                ReceiveOutcome::Delivered { message: m, next }
            },
            None => {
                let t = &mut sched.tasks[c.0];
                t.set_receive_filter(Some(from));
                proof {
                    let rc = c.0 as int;
                    let s1 = sched.tasks@;
                    assert forall|i: int| 0 <= i < s0.len() implies same_ipc_fields(
                        #[trigger] s0[i], s1[i]) by {
                        if i != rc {
                            assert(s1[i] == s0[i]);
                        }
                    }
                    lemma_ipc_fields_preserve(s0, s1);
                    assert forall|i: int| 0 <= i < s1.len() && (#[trigger] s1[i]).state()
                        is Running implies cur0 == Some(TaskId(i as usize)) by {
                        if i != rc {
                            assert(s1[i] == s0[i]);
                        }
                    }
                    assert forall|i: int| 0 <= i < s1.len() && i != rc implies task_ok(
                        #[trigger] s1[i]) by {
                        assert(s1[i] == s0[i]);
                        assert(task_ok(s0[i]));
                    }
                    assert(task_ok(s0[rc]));
                }
                let ghost mid = *sched;
                let next = sched.block_current_task_as_receiving();
                proof {
                    let rc = c.0 as int;
                    let post = *sched;
                    let n = s0.len() as int;
                    assert forall|j: int| 0 <= j < n && j != rc implies mid.tasks_seq()[j]
                        == s0[j] by {}
                    if let Some(tn) = next {
                        assert(mid.tasks_seq()[tn.0 as int] == s0[tn.0 as int]);
                    } else {
                        assert forall|j: int|
                            0 <= j < n && j != rc implies !((#[trigger] s0[j]).state() is Ready)
                            by {
                            assert(mid.tasks_seq()[j] == s0[j]);
                        }
                    }
                }
                ReceiveOutcome::Blocked { next }
            },
        }
    }

    /// Send `m` from the calling (current) task, which must be the task
    /// named by `m.sender`, to the task named by `m.receiver`.
    ///
    /// If the receiver is blocked on receive with a filter passing this
    /// sender, the message and success status are deposited into the
    /// receiver's context, the receiver is unblocked, success status is
    /// staged for the sender, and the scheduler switches. Otherwise the
    /// message is parked in the sender's outgoing slot, the sender is
    /// queued on the receiver — exactly once; a second send cannot occur
    /// while the first is pending, because the sender stays Blocked until
    /// delivery — and the scheduler switches away.
    ///
    /// A forged `sender` field and an unknown `receiver` are rejected with
    /// the kernel left untouched.
    #[verifier::rlimit(100)]
    pub fn send_message(sched: &mut Scheduler, m: Message) -> (r: Result<SendOutcome, SendError>)
        requires
            old(sched).wf(),
            old(sched).current_id() is Some,
            old(sched).task(old(sched).current_id().unwrap()).state() is Running,
        ensures
            final(sched).wf(),
            final(sched).n_tasks() == old(sched).n_tasks(),
            ({
                let c = old(sched).current_id().unwrap();
                let pre = *old(sched);
                let post = *final(sched);
                let n = pre.n_tasks() as int;
                if m.sender != c {
                    &&& r == Result::<SendOutcome, SendError>::Err(SendError::ForgedSender)
                    &&& post.tasks_seq() == pre.tasks_seq()
                    &&& post.current_id() == pre.current_id()
                } else if !pre.has_task(m.receiver) {
                    &&& r == Result::<SendOutcome, SendError>::Err(SendError::UnknownReceiver)
                    &&& post.tasks_seq() == pre.tasks_seq()
                    &&& post.current_id() == pre.current_id()
                } else if pre.task(m.receiver).receive_filter() matches Some(f)
                    && sender_matches(c, f) {
                    &&& m.receiver != c
                    &&& r matches Ok(SendOutcome::Delivered { next })
                    &&& post.task(m.receiver).receive_filter() is None
                    &&& post.task(m.receiver).outgoing() is None
                    &&& post.task(m.receiver).senders() == pre.task(m.receiver).senders()
                    &&& post.task(m.receiver).ctx().response_message() == Some(m)
                    &&& post.task(m.receiver).ctx().response_status() == Some(0isize)
                    &&& post.task(m.receiver).ctx().frames() == pre.task(
                        m.receiver).ctx().frames()
                    &&& post.task(m.receiver).ctx().entry_pc() == pre.task(
                        m.receiver).ctx().entry_pc()
                    &&& (post.task(m.receiver).state() is Ready || next == m.receiver)
                    &&& post.task(c).outgoing() is None
                    &&& post.task(c).receive_filter() is None
                    &&& post.task(c).senders() == pre.task(c).senders()
                    &&& post.task(c).ctx().response_status() == Some(0isize)
                    &&& post.task(c).ctx().response_message() == pre.task(
                        c).ctx().response_message()
                    &&& next.0 < n
                    &&& post.current_id() == Some(next)
                    &&& post.task(next).state() is Running
                    &&& (next != c && next != m.receiver ==> pre.task(next).state() is Ready
                        && same_except_state(pre.task(next), post.task(next)))
                    &&& forall|j: int| #![trigger post.tasks_seq()[j]]
                        0 <= j < n && j != c.0 && j != m.receiver.0 && j != next.0
                            ==> post.tasks_seq()[j] == pre.tasks_seq()[j]
                } else {
                    &&& r matches Ok(SendOutcome::SenderBlocked { next })
                    &&& post.task(c).state() is Blocked
                    &&& post.task(c).outgoing() == Some(m)
                    &&& post.task(c).receive_filter() is None
                    &&& post.task(c).ctx() == pre.task(c).ctx()
                    &&& !pre.task(m.receiver).senders().contains(c)
                    &&& post.task(m.receiver).senders() == pre.task(m.receiver).senders().push(c)
                    &&& post.task(m.receiver).receive_filter() == pre.task(
                        m.receiver).receive_filter()
                    &&& post.task(m.receiver).ctx() == pre.task(m.receiver).ctx()
                    &&& match next {
                        Some(t) => {
                            &&& t != c
                            &&& t.0 < n
                            &&& post.current_id() == Some(t)
                            &&& post.task(t).state() is Running
                            &&& pre.task(t).state() is Ready
                            &&& forall|j: int| #![trigger post.tasks_seq()[j]]
                                0 <= j < n && j != c.0 && j != m.receiver.0 && j != t.0
                                    ==> post.tasks_seq()[j] == pre.tasks_seq()[j]
                        },
                        None => {
                            &&& post.current_id() is None
                            &&& forall|j: int| #![trigger post.tasks_seq()[j]]
                                0 <= j < n && j != c.0 && j != m.receiver.0
                                    ==> post.tasks_seq()[j] == pre.tasks_seq()[j]
                        },
                    }
                    &&& (next is Some <==> exists|j: int|
                        0 <= j < n && j != c.0 && (#[trigger] pre.tasks_seq()[j]).state()
                            is Ready)
                }
            }),
    {
        let c = sched.current.unwrap();
        let total = sched.tasks.len();
        let ghost s0 = sched.tasks@;
        let ghost cur0 = sched.current;
        proof {
            assert(s0.len() == total as int);
        }
        if m.sender.0 != c.0 {
            proof {
                assert(m.sender != c);
            }
            return Err(SendError::ForgedSender);
        }
        proof {
            assert(m.sender == c);
        }
        if m.receiver.0 >= total {
            return Err(SendError::UnknownReceiver);
        }
        let ghost rv = m.receiver.0 as int;
        let ghost rc = c.0 as int;
        let filt = sched.tasks[m.receiver.0].get_receive_filter();
        let matching = match filt {
            Some(f) => match f {
                None => true,
                Some(x) => x.0 == c.0,
            },
            None => false,
        };
        proof {
            if let Some(f) = s0[rv].receive_filter() {
                if let Some(x) = f {
                    assert(x.0 == c.0 ==> x == c);
                    assert(x == c ==> x.0 == c.0);
                }
                assert(matching == sender_matches(c, f));
            } else {
                assert(!matching);
            }
        }
        if matching {
            proof {
                assert(task_ok(s0[rv]));
                assert(s0[rv].state() is Blocked);
                assert(rv != rc);
                assert(m.receiver != c);
                assert(s0[rv].outgoing() is None);
            }
            let t = &mut sched.tasks[m.receiver.0];
            t.set_receive_filter(None);
            proof {
                let s1 = sched.tasks@;
                assert forall|i: int| 0 <= i < s0.len() implies same_ipc_fields(#[trigger] s0[i],
                    s1[i]) by {
                    if i != rv {
                        assert(s1[i] == s0[i]);
                    }
                }
                lemma_ipc_fields_preserve(s0, s1);
                assert forall|i: int| 0 <= i < s1.len() && (#[trigger] s1[i]).state() is Running
                    implies cur0 == Some(TaskId(i as usize)) by {
                    if i != rv {
                        assert(s1[i] == s0[i]);
                    }
                }
                assert(!(s1[rc].state() is Ready));
                assert forall|i: int| 0 <= i < s1.len() && i != rv implies task_ok(
                    #[trigger] s1[i]) by {
                    assert(s1[i] == s0[i]);
                    assert(task_ok(s0[i]));
                }
            }
            let ghost sch2 = *sched;
            sched.unblock_receiving_task(m.receiver, 0, m);
            let ghost sch3 = *sched;
            let ghost s3 = sched.tasks@;
            let ghost cur3 = sched.current_id();
            let t2 = &mut sched.tasks[c.0];
            t2.stage_status(0);
            proof {
                sched.lemma_ctx_only_wf(s3, cur3, c);
            }
            let ghost mid = *sched;
            let next_opt = sched.schedule();
            proof {
                let n = s0.len() as int;
                if next_opt is None {
                    lemma_find_eligible(mid.tasks_seq(), mid.current_id(), scan_start(
                        mid.current_id(), n), n);
                    lemma_find_eligible(mid.tasks_seq(), mid.current_id(), 0, scan_start(
                        mid.current_id(), n));
                    assert(eligible(mid.tasks_seq(), mid.current_id(), rc));
                    assert(false);
                }
            }
            let next = next_opt.unwrap();
            proof {
                let post = *sched;
                let n = s0.len() as int;
                // untouched slots
                assert forall|j: int| #![trigger post.tasks_seq()[j]]
                    0 <= j < n && j != rc && j != rv && j != next.0 implies post.tasks_seq()[j]
                        == s0[j] by {
                    assert(sch2.tasks_seq()[j] == s0[j]);
                    assert(sch3.tasks_seq()[j] == sch2.tasks_seq()[j]);
                    assert(mid.tasks_seq()[j] == sch3.tasks_seq()[j]);
                    assert(!(mid.current_id() == Some(TaskId(j as usize))
                        && mid.tasks_seq()[j].state() is Running)) by {
                        if mid.current_id() == Some(TaskId(j as usize)) {
                            assert(TaskId(j as usize) == c);
                            assert(j as usize == c.0);
                        }
                    }
                }
                if next.0 as int != rc && next.0 as int != rv {
                    let w = next.0 as int;
                    assert(sch2.tasks_seq()[w] == s0[w]);
                    assert(sch3.tasks_seq()[w] == sch2.tasks_seq()[w]);
                    assert(mid.tasks_seq()[w] == sch3.tasks_seq()[w]);
                    assert(!(mid.current_id() == Some(next) && mid.tasks_seq()[w].state()
                        is Running));
                }
                // receiver-side facts survive the switch
                assert(crate::task::same_except_filter(s0[rv], sch2.tasks_seq()[rv]));
                assert(sch3.task(m.receiver).receive_filter() is None);
                assert(sch3.task(m.receiver).outgoing() is None);
                assert(sch3.task(m.receiver).senders() == s0[rv].senders());
                assert(sch3.task(m.receiver).ctx().response_message() == Some(m));
                assert(sch3.task(m.receiver).ctx().response_status() == Some(0isize));
                assert(sch3.task(m.receiver).ctx().frames() == s0[rv].ctx().frames());
                assert(sch3.task(m.receiver).ctx().entry_pc() == s0[rv].ctx().entry_pc());
                assert(sch3.task(m.receiver).state() is Ready);
                assert(mid.tasks_seq()[rv] == sch3.tasks_seq()[rv]);
                if next == m.receiver {
                    assert(same_except_state(mid.task(m.receiver), post.task(m.receiver)));
                } else {
                    assert(!(mid.current_id() == Some(TaskId(rv as usize))
                        && mid.tasks_seq()[rv].state() is Running)) by {
                        if mid.current_id() == Some(TaskId(rv as usize)) {
                            assert(TaskId(rv as usize) == c);
                        }
                    }
                    assert(post.tasks_seq()[rv] == mid.tasks_seq()[rv]);
                }
                // sender-side facts survive the switch
                assert(sch2.tasks_seq()[rc] == s0[rc]);
                assert(sch3.tasks_seq()[rc] == sch2.tasks_seq()[rc]);
                assert(mid.task(c).ctx().response_status() == Some(0isize));
                assert(mid.task(c).ctx().response_message() == s0[rc].ctx().response_message());
                assert(crate::task::same_except_context(sch3.tasks_seq()[rc],
                    mid.tasks_seq()[rc]));
                if next == c {
                    assert(same_except_state(mid.task(c), post.task(c)));
                } else {
                    assert(same_except_state(mid.tasks_seq()[rc], post.tasks_seq()[rc]));
                }
            }
            Ok(SendOutcome::Delivered { next })
        } else {
            let t = &mut sched.tasks[c.0];
            t.set_outgoing(Some(m));
            let ghost s1 = sched.tasks@;
            let t2 = &mut sched.tasks[m.receiver.0];
            t2.push_sender(c);
            let ghost s2 = sched.tasks@;
            proof {
                let seq0 = s0[rv].senders();
                assert(task_ok(s0[rc]));
                assert(s0[rc].outgoing() is None);
                assert(s0[rc].receive_filter() is None);
                // the sender was not yet queued anywhere: every queued sender
                // has a pending outgoing message, and this one had none
                assert forall|w: int| 0 <= w < seq0.len() implies seq0[w] != c by {
                    assert(senders_entry_ok(s0, rv, w));
                    if seq0[w] == c {
                        assert(s0[rc].outgoing() is Some);
                    }
                }
                assert(!seq0.contains(c));
                assert(s2[rv].senders() == seq0.push(c));
                assert(s2[rc].outgoing() == Some(m));
                assert(forall|j: int| 0 <= j < s2.len() && j != rc && j != rv
                    ==> #[trigger] s2[j] == s0[j]);
                assert(s2[rc].state() == s0[rc].state());
                assert(s2[rv].state() == s0[rv].state());
                assert(s2[rc].receive_filter() is None);
                // identities, run states
                assert forall|i: int| 0 <= i < s2.len() implies (#[trigger] s2[i]).spec_id()
                    == TaskId(i as usize) by {
                    if i != rc && i != rv {
                        assert(s2[i] == s0[i]);
                    }
                }
                assert forall|i: int| 0 <= i < s2.len() && (#[trigger] s2[i]).state() is Running
                    implies cur0 == Some(TaskId(i as usize)) by {
                    if i != rc && i != rv {
                        assert(s2[i] == s0[i]);
                    }
                }
                assert(!(s2[rc].state() is Ready));
                // per-task consistency except at the sender
                assert forall|i: int| 0 <= i < s2.len() && i != rc implies task_ok(
                    #[trigger] s2[i]) by {
                    assert(task_ok(s0[i]));
                    if i != rv {
                        assert(s2[i] == s0[i]);
                    }
                }
                // blocked-sender entries
                assert forall|i: int, w: int| 0 <= i < s2.len() && 0 <= w
                    < s2[i].senders().len() implies #[trigger] senders_entry_ok(s2, i, w) by {
                    if i == rv && w == seq0.len() {
                        assert(s2[rv].senders()[w] == c);
                        assert(s2[rc].outgoing() == Some(m));
                        assert(m.sender == c && m.receiver == TaskId(rv as usize));
                    } else {
                        let x: TaskId = if i == rv {
                            seq0[w]
                        } else {
                            s0[i].senders()[w]
                        };
                        assert(s2[i].senders()[w] == x);
                        assert(senders_entry_ok(s0, i, w));
                        assert(x.0 as int != rc) by {
                            if x.0 as int == rc {
                                assert(s0[rc].outgoing() is Some);
                            }
                        }
                        assert(s2[x.0 as int].outgoing() == s0[x.0 as int].outgoing());
                    }
                }
                assert forall|i: int, w1: int, w2: int|
                    0 <= i < s2.len() && 0 <= w1 < w2 < s2[i].senders().len() implies (
                #[trigger] s2[i].senders()[w1]) != (#[trigger] s2[i].senders()[w2]) by {
                    if i == rv {
                        if w2 == seq0.len() {
                            assert(s2[rv].senders()[w1] == seq0[w1]);
                            assert(seq0[w1] != c);
                        } else {
                            assert(s2[rv].senders()[w1] == seq0[w1]);
                            assert(s2[rv].senders()[w2] == seq0[w2]);
                        }
                    } else {
                        assert(s2[i].senders() == s0[i].senders());
                    }
                }
                assert forall|j: int| 0 <= j < s2.len() implies match (
                #[trigger] s2[j].outgoing()) {
                    Some(mm) => {
                        &&& mm.sender == TaskId(j as usize)
                        &&& mm.receiver.0 < s2.len()
                        &&& s2[mm.receiver.0 as int].senders().contains(TaskId(j as usize))
                    },
                    None => true,
                } by {
                    if j == rc {
                        assert(s2[rc].outgoing() == Some(m));
                        assert(s2[rv].senders()[seq0.len() as int] == c);
                        assert(s2[rv].senders().contains(c));
                    } else {
                        if j != rv {
                            assert(s2[j] == s0[j]);
                        }
                        assert(s2[j].outgoing() == s0[j].outgoing());
                        if let Some(mm) = s0[j].outgoing() {
                            if mm.receiver.0 as int == rv {
                                let w = choose|w: int| 0 <= w < seq0.len() && seq0[w] == TaskId(
                                    j as usize);
                                assert(s2[rv].senders()[w] == TaskId(j as usize));
                            } else {
                                assert(s2[mm.receiver.0 as int].senders() == s0[
                                    mm.receiver.0 as int].senders());
                            }
                        }
                    }
                }
            }
            let ghost mid = *sched;
            let next = sched.block_current_task_as_sending();
            proof {
                let post = *sched;
                let n = s0.len() as int;
                assert forall|j: int| 0 <= j < n && j != rc && j != rv implies mid.tasks_seq()[j]
                    == s0[j] by {}
                assert(mid.tasks_seq()[rv].state() == s0[rv].state());
                if let Some(tn) = next {
                    assert(mid.tasks_seq()[tn.0 as int].state() is Ready);
                    if tn.0 as int != rv {
                        assert(mid.tasks_seq()[tn.0 as int] == s0[tn.0 as int]);
                    }
                    assert(s0[tn.0 as int].state() is Ready);
                } else {
                    assert forall|j: int|
                        0 <= j < n && j != rc implies !((#[trigger] s0[j]).state() is Ready) by {
                        assert(mid.tasks_seq()[j].state() == s0[j].state());
                        assert(!(mid.tasks_seq()[j].state() is Ready));
                    }
                }
                // the receiver slot after the switch; for a self-send the
                // receiver is the just-blocked sender itself
                if rv == rc {
                    assert(same_except_state(mid.task(c), post.task(c)));
                } else if next == Some(m.receiver) {
                    assert(same_except_state(mid.task(m.receiver), post.task(m.receiver)));
                } else {
                    assert(post.tasks_seq()[rv] == mid.tasks_seq()[rv]);
                }
                assert(post.task(m.receiver).senders() == s0[rv].senders().push(c));
                assert(post.task(m.receiver).receive_filter() == s0[rv].receive_filter());
                assert(post.task(m.receiver).ctx() == s0[rv].ctx());
            }
            Ok(SendOutcome::SenderBlocked { next })
        }
    }
}

/// Two distinct registered tasks never share an identifier: identifiers are
/// unique for the registry's whole life. Together with
/// [`Task::create_kernel_task`]'s postcondition that a new identifier is
/// strictly greater than every identifier already issued, identifiers over
/// any sequence of creations are unique and strictly increasing.
pub proof fn lemma_registered_ids_unique(s: Scheduler, a: TaskId, b: TaskId)
    requires
        s.wf(),
        s.has_task(a),
        s.has_task(b),
        a != b,
    ensures
        s.task(a).spec_id() != s.task(b).spec_id(),
{
    assert(s.task(a).spec_id() == TaskId(a.0));
    assert(s.task(b).spec_id() == TaskId(b.0));
}

/// The currently running task is always a registered task, and every
/// registered task satisfies the per-task consistency predicate.
pub proof fn lemma_current_is_registered(s: Scheduler)
    requires
        s.wf(),
        s.current_id() is Some,
    ensures
        s.has_task(s.current_id().unwrap()),
{
}

/// Every registered task of a well-formed kernel satisfies the per-task
/// consistency predicate.
pub proof fn lemma_registered_task_ok(s: Scheduler, id: TaskId)
    requires
        s.wf(),
        s.has_task(id),
    ensures
        task_ok(s.task(id)),
{
}

/// A lookup returns the task that carries the queried identifier: in a
/// well-formed registry, the task registered under `id` names itself `id`.
pub proof fn lemma_registered_task_has_its_id(s: Scheduler, id: TaskId)
    requires
        s.wf(),
        s.has_task(id),
    ensures
        s.task(id).spec_id() == id,
{
    assert(s.tasks_seq()[id.0 as int].spec_id() == TaskId(id.0));
}

/// A task's receive filter and outgoing-message slot are never set at the
/// same time: no task is blocked as sender and as receiver at once. This
/// holds in every well-formed kernel state, hence after every operation.
pub proof fn lemma_ipc_exclusive(s: Scheduler, id: TaskId)
    requires
        s.wf(),
        s.has_task(id),
    ensures
        s.task(id).ipc_exclusive(),
        !(s.task(id).receive_filter() is Some && s.task(id).outgoing() is Some),
{
    assert(task_ok(s.task(id)));
}

/// The running task never has a pending outgoing message or a receive
/// filter: a task cannot issue a second `send` while its first is still
/// undelivered, because it stays Blocked — and off the processor — until
/// delivery clears the slot.
pub proof fn lemma_no_double_send(s: Scheduler)
    requires
        s.wf(),
        s.current_id() is Some,
        s.task(s.current_id().unwrap()).state() is Running,
    ensures
        s.task(s.current_id().unwrap()).outgoing() is None,
        s.task(s.current_id().unwrap()).receive_filter() is None,
{
    assert(task_ok(s.task(s.current_id().unwrap())));
}

/// A delivered message reaches exactly one task. For sender `a` and
/// receiver `b`, `send_message`'s delivery branch deposits `m` into `b`'s
/// context and touches no other context (the sender gets only a status, the
/// switched-to task only a run state): if no task had `m` staged before the
/// send, then afterwards `b` — and only `b` — will observe `m` on
/// resumption. The hypotheses are exactly what `send_message`'s contract
/// gives when it returns `Delivered { next }`.
pub proof fn lemma_message_delivered_to_one_task(
    pre: Scheduler,
    post: Scheduler,
    a: TaskId,
    b: TaskId,
    m: Message,
    next: TaskId,
)
    requires
        pre.n_tasks() == post.n_tasks(),
        a != b,
        m.sender == a,
        m.receiver == b,
        a.0 < pre.n_tasks(),
        b.0 < pre.n_tasks(),
        next.0 < pre.n_tasks(),
        // before the send, the message was staged nowhere
        forall|j: int| 0 <= j < pre.n_tasks() ==> (
        #[trigger] pre.tasks_seq()[j]).ctx().response_message() != Some(m),
        // what the delivery branch of `send_message` ensures
        post.task(b).ctx().response_message() == Some(m),
        post.task(b).ctx().response_status() == Some(0isize),
        post.task(a).ctx().response_status() == Some(0isize),
        post.task(a).ctx().response_message() == pre.task(a).ctx().response_message(),
        (next != a && next != b ==> same_except_state(pre.task(next), post.task(next))),
        forall|j: int| #![trigger post.tasks_seq()[j]]
            0 <= j < pre.n_tasks() && j != a.0 && j != b.0 && j != next.0
                ==> post.tasks_seq()[j] == pre.tasks_seq()[j],
    ensures
        post.task(b).ctx().response_message() == Some(m),
        forall|j: int| 0 <= j < post.n_tasks() && j != b.0 ==> (
        #[trigger] post.tasks_seq()[j]).ctx().response_message() != Some(m),
{
    assert forall|j: int| 0 <= j < post.n_tasks() && j != b.0 implies (
    #[trigger] post.tasks_seq()[j]).ctx().response_message() != Some(m) by {
        assert(pre.tasks_seq()[j].ctx().response_message() != Some(m));
        if j == a.0 {
        } else if j == next.0 {
            assert(same_except_state(pre.tasks_seq()[j], post.tasks_seq()[j]));
        } else {
            assert(post.tasks_seq()[j] == pre.tasks_seq()[j]);
        }
    }
}

/// A blocked sender appears at most once in its receiver's blocked-senders
/// set: two distinct queue positions always hold distinct senders.
pub proof fn lemma_sender_queued_once(s: Scheduler, receiver: TaskId, w1: int, w2: int)
    requires
        s.wf(),
        s.has_task(receiver),
        0 <= w1 < w2 < s.task(receiver).senders().len(),
    ensures
        s.task(receiver).senders()[w1] != s.task(receiver).senders()[w2],
{
    assert(s.tasks_seq()[receiver.0 as int].senders()[w1]
        != s.tasks_seq()[receiver.0 as int].senders()[w2]);
}

impl Task {
    /// Allocate a fresh identifier, build a register context that will first
    /// resume at `entry` with `init_arg` staged as its argument, and register
    /// the new task with the scheduler, Ready to run.
    pub fn create_kernel_task(sched: &mut Scheduler, entry: usize, init_arg: isize) -> (id: TaskId)
        requires
            old(sched).wf(),
        ensures
            final(sched).wf(),
            // Identifiers are issued strictly increasing: the new task's is
            // larger than every previously issued one.
            id.0 == old(sched).n_tasks(),
            forall|j: int| 0 <= j < old(sched).n_tasks() ==> (#[trigger] old(
                sched).tasks_seq()[j]).spec_id().0 < id.0,
            final(sched).n_tasks() == old(sched).n_tasks() + 1,
            final(sched).current_id() == old(sched).current_id(),
            forall|j: int| 0 <= j < old(sched).n_tasks() ==> final(sched).tasks_seq()[j] == old(
                sched).tasks_seq()[j],
            final(sched).task(id).spec_id() == id,
            final(sched).task(id).state() == TaskState::Ready,
            final(sched).task(id).receive_filter() is None,
            final(sched).task(id).outgoing() is None,
            final(sched).task(id).senders() == Seq::<TaskId>::empty(),
            final(sched).task(id).resource_table() == Seq::<(Resource, SchemeId)>::empty(),
            final(sched).task(id).highwater() == USER_SPACE_START,
            final(sched).task(id).ctx().frames() == Seq::<usize>::empty(),
            final(sched).task(id).ctx().entry_pc() == entry,
            final(sched).task(id).ctx().response_message() is None,
            final(sched).task(id).ctx().response_status() == Some(init_arg),
            final(sched).task(id).ctx().wf(),
    {
        let n = sched.tasks.len();
        let id = TaskId(n);
        let context = AArch64Context::new(entry, init_arg);
        let task = Task::new_task(id, context, USER_SPACE_START);
        proof {
            assert(USER_SPACE_START <= USER_SPACE_END);
            assert forall|j: int| 0 <= j < old(sched).n_tasks() implies (#[trigger] old(
                sched).tasks_seq()[j]).spec_id().0 < n by {
                assert(ids_ok(old(sched).tasks@));
                assert(old(sched).tasks@[j].spec_id() == TaskId(j as usize));
            }
        }
        sched.register_new_task(task)
    }

    /// Look up a task in the scheduler's registry.
    pub fn by_id(sched: &Scheduler, id: TaskId) -> (r: Option<&Task>)
        ensures
            match r {
                Some(t) => sched.has_task(id) && *t == sched.task(id),
                None => !sched.has_task(id),
            },
    {
        sched.get_task_by_id(id)
    }

    /// The task identified as running by the scheduler, or `None` outside
    /// task context.
    pub fn current(sched: &Scheduler) -> (r: Option<&Task>)
        requires
            sched.wf(),
        ensures
            match r {
                Some(t) => sched.current_id() is Some && *t == sched.task(
                    sched.current_id().unwrap()),
                None => sched.current_id() is None,
            },
    {
        sched.get_current_task()
    }
}

} // verus!
