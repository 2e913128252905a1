//! Task identity, run states, IPC messages, and the task structure itself.
//!
//! A [`Task`] is the unit of scheduling and of IPC identity. Its blocking
//! state is described by two mutually exclusive slots: the receive filter
//! (set while the task is blocked waiting for a message) and the outgoing
//! message (set while the task is blocked trying to send). The scheduler's
//! registry owns every task; the mutators here are the only way the rest of
//! the kernel changes a task's bookkeeping, so each carries a contract that
//! pins exactly what changed.

use vstd::prelude::*;

use crate::arch::AbstractMemoryManager;
use crate::context::AArch64Context;
use crate::mem::spec_align_up;
use crate::mem::align_up_page;
use crate::mem::user_data_flags_4k;
use crate::mem::Page;
use crate::mem::PageFlags;
use crate::mem::PageRange;
use crate::mem::PAGE_BYTES;

verus! {

/// Process-wide unique task identifier. Identifiers are issued at task
/// creation, strictly increasing, and never reused.
#[derive(Debug, Hash, Eq, PartialEq, Ord, PartialOrd, Clone, Copy, Structural)]
pub struct TaskId(pub usize);

/// Run state of a task, as tracked by the scheduler.
#[derive(Debug, Hash, Eq, PartialEq, Ord, PartialOrd, Clone, Copy, Structural)]
pub enum TaskState {
    Ready,
    Running,
    Blocked,
}

/// A fixed-shape IPC message, copied by value at delivery time.
#[derive(Debug, Eq, PartialEq, Clone, Copy, Structural)]
pub struct Message {
    pub sender: TaskId,
    pub receiver: TaskId,
    /// Opaque payload; the kernel never interprets it.
    pub payload: u64,
}

/// Handle to an open resource, as held in a task's resource table.
#[derive(Debug, Eq, PartialEq, Clone, Copy, Structural)]
pub struct Resource(pub usize);

/// Identity of the scheme (service) that owns an open resource.
#[derive(Debug, Eq, PartialEq, Clone, Copy, Structural)]
pub struct SchemeId(pub usize);

/// Lowest virtual address of the dynamically grown user region; the initial
/// high-water mark of every task.
pub const USER_SPACE_START: usize = 0x1000_0000;

/// One past the highest virtual address the user region may grow to.
pub const USER_SPACE_END: usize = 0x8000_0000;

/// Does `sender` pass a receive filter? An absent filter accepts any sender;
/// a present one accepts exactly the named task.
pub open spec fn sender_matches(sender: TaskId, filter: Option<TaskId>) -> bool {
    match filter {
        None => true,
        Some(f) => f == sender,
    }
}

/// The unit of scheduling and IPC identity.
pub struct Task {
    pub(crate) id: TaskId,
    pub(crate) scheduler_state: TaskState,
    /// The task's register context, exclusively owned by the holder.
    pub context: AArch64Context,
    pub(crate) block_to_receive_from: Option<Option<TaskId>>,
    pub(crate) block_to_send: Option<Message>,
    pub(crate) blocked_senders: Vec<TaskId>,
    pub(crate) resources: Vec<(Resource, SchemeId)>,
    pub(crate) virtual_memory_highwater: usize,
}

impl Task {
    /// The task's identifier.
    pub closed spec fn spec_id(self) -> TaskId {
        self.id
    }

    /// The task's run state.
    pub closed spec fn state(self) -> TaskState {
        self.scheduler_state
    }

    /// `None`: not blocked on receive. `Some(None)`: blocked awaiting any
    /// sender. `Some(Some(id))`: blocked awaiting exactly sender `id`.
    pub closed spec fn receive_filter(self) -> Option<Option<TaskId>> {
        self.block_to_receive_from
    }

    /// The message the holder is blocked trying to send, if any.
    pub closed spec fn outgoing(self) -> Option<Message> {
        self.block_to_send
    }

    /// Identifiers of the tasks blocked trying to send here, in
    /// arrival order.
    pub closed spec fn senders(self) -> Seq<TaskId> {
        self.blocked_senders@
    }

    /// The task's open-resource table.
    pub closed spec fn resource_table(self) -> Seq<(Resource, SchemeId)> {
        self.resources@
    }

    /// Top of the task's dynamically grown address space.
    pub closed spec fn highwater(self) -> usize {
        self.virtual_memory_highwater
    }

    /// The task's register context.
    pub closed spec fn ctx(self) -> AArch64Context {
        self.context
    }

    /// The receive filter and the outgoing slot are never set together: a
    /// task is never blocked as sender and as receiver at once.
    pub open spec fn ipc_exclusive(self) -> bool {
        !(self.receive_filter() is Some && self.outgoing() is Some)
    }

    /// The task's identifier.
    pub fn id(&self) -> (r: TaskId)
        ensures
            r == self.spec_id(),
    {
        self.id
    }

    /// The task's run state, as the scheduler sees it.
    pub fn scheduler_state(&self) -> (r: TaskState)
        ensures
            r == self.state(),
    {
        self.scheduler_state
    }

    /// The receive filter, if the task is blocked on receive.
    pub fn get_receive_filter(&self) -> (r: Option<Option<TaskId>>)
        ensures
            r == self.receive_filter(),
    {
        self.block_to_receive_from
    }

    /// The pending outgoing message, if the task is blocked on send.
    pub fn get_outgoing(&self) -> (r: Option<Message>)
        ensures
            r == self.outgoing(),
    {
        self.block_to_send
    }

    /// The tasks blocked trying to send here, in arrival order.
    pub fn blocked_senders_list(&self) -> (r: &Vec<TaskId>)
        ensures
            r@ == self.senders(),
    {
        &self.blocked_senders
    }

    /// Top of the task's dynamically grown address space.
    pub fn get_highwater(&self) -> (r: usize)
        ensures
            r == self.highwater(),
    {
        self.virtual_memory_highwater
    }

    /// Read access to the task's register context.
    pub fn context_ref(&self) -> (c: &AArch64Context)
        ensures
            *c == self.ctx(),
    {
        &self.context
    }

    /// The task's register context, for resumption and staging of results.
    pub fn get_context(&mut self) -> (c: &mut AArch64Context)
        ensures
            (*c == old(self).ctx()),
            (final(self).ctx() == *final(c)),
            same_except_context(*old(self), *final(self)),
    {
        &mut self.context
    }
}

impl PartialEq for Task {
    /// Tasks compare by identity: the identifier is the registry's sole
    /// cross-referencing key.
    fn eq(&self, other: &Task) -> (r: bool) {
        self.id.0 == other.id.0
    }
}

impl vstd::std_specs::cmp::PartialEqSpecImpl for Task {
    open spec fn obeys_eq_spec() -> bool {
        true
    }

    open spec fn eq_spec(&self, other: &Task) -> bool {
        self.spec_id() == other.spec_id()
    }
}

/// `post` is `pre` with at most the run state changed.
pub open spec fn same_except_state(pre: Task, post: Task) -> bool {
    &&& post.spec_id() == pre.spec_id()
    &&& post.receive_filter() == pre.receive_filter()
    &&& post.outgoing() == pre.outgoing()
    &&& post.senders() == pre.senders()
    &&& post.resource_table() == pre.resource_table()
    &&& post.highwater() == pre.highwater()
    &&& post.ctx() == pre.ctx()
}

/// `post` is `pre` with at most the receive filter changed.
pub open spec fn same_except_filter(pre: Task, post: Task) -> bool {
    &&& post.spec_id() == pre.spec_id()
    &&& post.state() == pre.state()
    &&& post.outgoing() == pre.outgoing()
    &&& post.senders() == pre.senders()
    &&& post.resource_table() == pre.resource_table()
    &&& post.highwater() == pre.highwater()
    &&& post.ctx() == pre.ctx()
}

/// `post` is `pre` with at most the outgoing-message slot changed.
pub open spec fn same_except_outgoing(pre: Task, post: Task) -> bool {
    &&& post.spec_id() == pre.spec_id()
    &&& post.state() == pre.state()
    &&& post.receive_filter() == pre.receive_filter()
    &&& post.senders() == pre.senders()
    &&& post.resource_table() == pre.resource_table()
    &&& post.highwater() == pre.highwater()
    &&& post.ctx() == pre.ctx()
}

/// `post` is `pre` with at most the blocked-senders set changed.
pub open spec fn same_except_senders(pre: Task, post: Task) -> bool {
    &&& post.spec_id() == pre.spec_id()
    &&& post.state() == pre.state()
    &&& post.receive_filter() == pre.receive_filter()
    &&& post.outgoing() == pre.outgoing()
    &&& post.resource_table() == pre.resource_table()
    &&& post.highwater() == pre.highwater()
    &&& post.ctx() == pre.ctx()
}

/// `post` is `pre` with at most the register context changed.
pub open spec fn same_except_context(pre: Task, post: Task) -> bool {
    &&& post.spec_id() == pre.spec_id()
    &&& post.state() == pre.state()
    &&& post.receive_filter() == pre.receive_filter()
    &&& post.outgoing() == pre.outgoing()
    &&& post.senders() == pre.senders()
    &&& post.resource_table() == pre.resource_table()
    &&& post.highwater() == pre.highwater()
}

/// `post` is `pre` with at most the run state and the register context
/// changed (the shape of an unblock: a state change plus staged results).
pub open spec fn same_except_state_and_context(pre: Task, post: Task) -> bool {
    &&& post.spec_id() == pre.spec_id()
    &&& post.receive_filter() == pre.receive_filter()
    &&& post.outgoing() == pre.outgoing()
    &&& post.senders() == pre.senders()
    &&& post.resource_table() == pre.resource_table()
    &&& post.highwater() == pre.highwater()
}

/// `post` is `pre` with at most the high-water mark changed.
pub open spec fn same_except_highwater(pre: Task, post: Task) -> bool {
    &&& post.spec_id() == pre.spec_id()
    &&& post.state() == pre.state()
    &&& post.receive_filter() == pre.receive_filter()
    &&& post.outgoing() == pre.outgoing()
    &&& post.senders() == pre.senders()
    &&& post.resource_table() == pre.resource_table()
    &&& post.ctx() == pre.ctx()
}

impl Task {
    /// A freshly created task: Ready, with no IPC state, an empty resource
    /// table, and the given context and address-space high-water mark.
    pub(crate) fn new_task(id: TaskId, context: AArch64Context, highwater: usize) -> (t: Task)
        ensures
            t.spec_id() == id,
            t.state() == TaskState::Ready,
            t.receive_filter() is None,
            t.outgoing() is None,
            t.senders() == Seq::<TaskId>::empty(),
            t.resource_table() == Seq::<(Resource, SchemeId)>::empty(),
            t.highwater() == highwater,
            t.ctx() == context,
    {
        Task {
            id,
            scheduler_state: TaskState::Ready,
            context,
            block_to_receive_from: None,
            block_to_send: None,
            blocked_senders: Vec::new(),
            resources: Vec::new(),
            virtual_memory_highwater: highwater,
        }
    }

    pub(crate) fn set_state(&mut self, st: TaskState)
        ensures
            final(self).state() == st,
            same_except_state(*old(self), *final(self)),
    {
        self.scheduler_state = st;
    }

    pub(crate) fn set_receive_filter(&mut self, f: Option<Option<TaskId>>)
        ensures
            final(self).receive_filter() == f,
            same_except_filter(*old(self), *final(self)),
    {
        self.block_to_receive_from = f;
    }

    pub(crate) fn set_outgoing(&mut self, m: Option<Message>)
        ensures
            final(self).outgoing() == m,
            same_except_outgoing(*old(self), *final(self)),
    {
        self.block_to_send = m;
    }

    /// Take the pending outgoing message, leaving the slot empty.
    pub(crate) fn take_outgoing(&mut self) -> (r: Option<Message>)
        ensures
            r == old(self).outgoing(),
            final(self).outgoing() is None,
            same_except_outgoing(*old(self), *final(self)),
    {
        let m = self.block_to_send;
        self.block_to_send = None;
        m
    }

    /// Record that `sender` is now blocked trying to send here.
    pub(crate) fn push_sender(&mut self, sender: TaskId)
        ensures
            final(self).senders() == old(self).senders().push(sender),
            same_except_senders(*old(self), *final(self)),
    {
        self.blocked_senders.push(sender);
    }

    /// Remove the `k`-th recorded blocked sender.
    pub(crate) fn remove_sender(&mut self, k: usize) -> (r: TaskId)
        requires
            k < old(self).senders().len(),
        ensures
            r == old(self).senders()[k as int],
            final(self).senders() == old(self).senders().remove(k as int),
            same_except_senders(*old(self), *final(self)),
    {
        self.blocked_senders.remove(k)
    }

    /// Find the first blocked sender that passes `filter`, scanning in
    /// arrival order: delivery is first-come-first-served among matching
    /// senders.
    pub(crate) fn find_matching_sender(&self, filter: Option<TaskId>) -> (r: Option<usize>)
        ensures
            match r {
                Some(k) => {
                    &&& k < self.senders().len()
                    &&& sender_matches(self.senders()[k as int], filter)
                    &&& forall|j: int| 0 <= j < k ==> !sender_matches(
                        self.senders()[j], filter)
                },
                None => forall|j: int| 0 <= j < self.senders().len() ==> !sender_matches(
                    self.senders()[j], filter),
            },
    {
        let n = self.blocked_senders.len();
        let mut k: usize = 0;
        while k < n
            invariant
                k <= n,
                n == self.senders().len(),
                forall|j: int| 0 <= j < k ==> !sender_matches(self.senders()[j], filter),
            decreases n - k,
        {
            let candidate = self.blocked_senders[k];
            let matched = match filter {
                None => true,
                Some(f) => f == candidate,
            };
            if matched {
                return Some(k);
            }
            k += 1;
        }
        None
    }

    /// Stage a resume status into the owner's context.
    pub(crate) fn stage_status(&mut self, s: isize)
        ensures
            same_except_context(*old(self), *final(self)),
            final(self).ctx().response_status() == Some(s),
            final(self).ctx().response_message() == old(self).ctx().response_message(),
            final(self).ctx().frames() == old(self).ctx().frames(),
            final(self).ctx().entry_pc() == old(self).ctx().entry_pc(),
            final(self).ctx().kernel_stack_top() == old(self).ctx().kernel_stack_top(),
            final(self).ctx().wf() == old(self).ctx().wf(),
    {
        self.context.set_response_status(s);
    }

    /// Stage a delivered message and a resume status into the owner's
    /// context, as one deposit.
    pub(crate) fn stage_message_and_status(&mut self, m: Message, s: isize)
        ensures
            same_except_context(*old(self), *final(self)),
            final(self).ctx().response_status() == Some(s),
            final(self).ctx().response_message() == Some(m),
            final(self).ctx().frames() == old(self).ctx().frames(),
            final(self).ctx().entry_pc() == old(self).ctx().entry_pc(),
            final(self).ctx().kernel_stack_top() == old(self).ctx().kernel_stack_top(),
            final(self).ctx().wf() == old(self).ctx().wf(),
    {
        self.context.set_response_message(m);
        self.context.set_response_status(s);
    }

    pub(crate) fn set_highwater(&mut self, hw: usize)
        ensures
            final(self).highwater() == hw,
            same_except_highwater(*old(self), *final(self)),
    {
        self.virtual_memory_highwater = hw;
    }

    /// Grow the task's address space by `num_pages` pages: advance the
    /// high-water mark — rounded up to the page granularity in effect — and
    /// back the newly claimed range with fresh physical frames mapped
    /// user-writable. Only the owning task calls this, so the advance never
    /// loses a race and always claims the range right at the rounded-up
    /// mark. Fails, changing nothing, exactly when the range would leave
    /// the user region or the frame allocator cannot supply `num_pages`
    /// frames.
    pub fn sbrk<M: AbstractMemoryManager>(&mut self, num_pages: usize, mm: &mut M) -> (r: Option<
        PageRange>)
        requires
            old(self).highwater() <= USER_SPACE_END,
        ensures
            match r {
                Some(pr) => {
                    &&& pr.start.0 as int == spec_align_up(old(self).highwater() as int,
                        PAGE_BYTES as int) / (PAGE_BYTES as int)
                    &&& pr.end.0 == pr.start.0 + num_pages
                    &&& final(self).highwater() == pr.end.0 * PAGE_BYTES
                    &&& final(self).highwater() <= USER_SPACE_END
                    &&& same_except_highwater(*old(self), *final(self))
                    &&& final(mm).free_frames() == old(mm).free_frames() - num_pages
                    &&& forall|p: int| pr.start.0 <= p < pr.end.0 ==> final(
                        mm).mappings().contains_key(Page(p as usize)) && (#[trigger] final(
                        mm).mappings()[Page(p as usize)]).1 == (PageFlags {
                        user: true,
                        writable: true,
                        executable: false,
                    })
                    // each claimed page is backed by its own fresh frame
                    &&& forall|p1: int, p2: int|
                        pr.start.0 <= p1 < p2 < pr.end.0 ==> (#[trigger] final(
                        mm).mappings()[Page(p1 as usize)]).0 != (#[trigger] final(
                        mm).mappings()[Page(p2 as usize)]).0
                    &&& forall|q: Page| !(pr.start.0 <= q.0 < pr.end.0) ==> (#[trigger] final(
                        mm).mappings().contains_key(q)) == old(mm).mappings().contains_key(q)
                    &&& forall|q: Page| !(pr.start.0 <= q.0 < pr.end.0) && old(
                        mm).mappings().contains_key(q) ==> (#[trigger] final(mm).mappings()[q])
                        == old(mm).mappings()[q]
                },
                None => {
                    &&& *final(self) == *old(self)
                    &&& final(mm).mappings() == old(mm).mappings()
                    &&& final(mm).free_frames() == old(mm).free_frames()
                },
            },
            (r is Some <==> (spec_align_up(old(self).highwater() as int, PAGE_BYTES as int)
                + num_pages * PAGE_BYTES <= USER_SPACE_END && old(mm).free_frames()
                >= num_pages)),
    {
        let aligned = align_up_page(self.virtual_memory_highwater);
        proof {
            assert(aligned <= USER_SPACE_END + PAGE_BYTES);
        }
        let start_page = aligned / PAGE_BYTES;
        proof {
            assert(start_page * PAGE_BYTES == aligned);
            assert(spec_align_up(self.virtual_memory_highwater as int, PAGE_BYTES as int)
                / (PAGE_BYTES as int) == start_page as int);
        }
        if aligned > USER_SPACE_END {
            proof {
                assert(aligned as int + num_pages * PAGE_BYTES > USER_SPACE_END) by {
                    assert(num_pages * PAGE_BYTES >= 0) by (nonlinear_arith);
                }
            }
            return None;
        }
        let max_pages = (USER_SPACE_END - aligned) / PAGE_BYTES;
        if num_pages > max_pages {
            proof {
                let p = PAGE_BYTES as int;
                let avail = (USER_SPACE_END - aligned) as int;
                assert((avail / p) * p <= avail) by {
                    vstd::arithmetic::div_mod::lemma_fundamental_div_mod(avail, p);
                    vstd::arithmetic::div_mod::lemma_mod_bound(avail, p);
                }
                assert(num_pages as int * p >= (max_pages as int + 1) * p) by (nonlinear_arith)
                    requires num_pages as int >= max_pages as int + 1, p > 0;
                assert((max_pages as int + 1) * p == (max_pages as int) * p + p);
                assert(aligned as int + num_pages * PAGE_BYTES > USER_SPACE_END);
            }
            return None;
        }
        proof {
            let p = PAGE_BYTES as int;
            assert(num_pages as int * p <= max_pages as int * p) by (nonlinear_arith)
                requires num_pages as int <= max_pages as int, p > 0;
            assert((max_pages as int) * p <= (USER_SPACE_END - aligned) as int) by {
                vstd::arithmetic::div_mod::lemma_fundamental_div_mod((USER_SPACE_END
                    - aligned) as int, p);
                vstd::arithmetic::div_mod::lemma_mod_bound((USER_SPACE_END - aligned) as int, p);
            }
        }
        if mm.frames_available() < num_pages {
            return None;
        }
        let new_top = aligned + num_pages * PAGE_BYTES;
        self.set_highwater(new_top);
        proof {
            assert(new_top as int == (start_page as int + num_pages as int) * (
            PAGE_BYTES as int)) by (nonlinear_arith)
                requires
                    aligned as int == start_page as int * PAGE_BYTES as int,
                    new_top as int == aligned as int + num_pages as int * PAGE_BYTES as int,
            ;
        }
        proof {
            assert(start_page as int + num_pages as int <= usize::MAX as int) by (
            nonlinear_arith)
                requires
                    (start_page as int + num_pages as int) * (PAGE_BYTES as int) == new_top
                        as int,
                    PAGE_BYTES as int >= 1,
                    start_page as int >= 0,
                    num_pages as int >= 0,
                    new_top as int <= usize::MAX as int,
            ;
        }
        let flags = user_data_flags_4k();
        let mut i: usize = 0;
        while i < num_pages
            invariant
                i <= num_pages,
                start_page + num_pages <= usize::MAX,
                old(mm).free_frames() >= num_pages,
                mm.free_frames() == old(mm).free_frames() - i,
                flags == (PageFlags { user: true, writable: true, executable: false }),
                self.highwater() == new_top,
                same_except_highwater(*old(self), *self),
                new_top as int == (start_page as int + num_pages as int) * (PAGE_BYTES as int),
                new_top <= USER_SPACE_END,
                forall|p: int| start_page <= p < start_page + i
                    ==> #[trigger] mm.mappings().contains_key(Page(p as usize)),
                forall|p: int| start_page <= p < start_page + i ==> (
                #[trigger] mm.mappings()[Page(p as usize)]).1 == flags,
                forall|p: int| start_page <= p < start_page + i ==> mm.issued().contains((
                #[trigger] mm.mappings()[Page(p as usize)]).0),
                forall|p1: int, p2: int|
                    start_page <= p1 < p2 < start_page + i ==> (
                    #[trigger] mm.mappings()[Page(p1 as usize)]).0 != (
                    #[trigger] mm.mappings()[Page(p2 as usize)]).0,
                forall|q: Page| !(start_page <= q.0 < start_page + i) ==> (
                #[trigger] mm.mappings().contains_key(q)) == old(mm).mappings().contains_key(q),
                forall|q: Page| !(start_page <= q.0 < start_page + i) && old(
                    mm).mappings().contains_key(q) ==> (#[trigger] mm.mappings()[q]) == old(
                    mm).mappings()[q],
            decreases num_pages - i,
        {
            let ghost mb = mm.mappings();
            let ghost isb = mm.issued();
            let frame_opt = mm.alloc_frame();
            let frame = frame_opt.unwrap();
            mm.map(Page(start_page + i), frame, flags);
            proof {
                let newk = Page((start_page + i) as usize);
                assert(mm.mappings() == mb.insert(newk, (frame, flags)));
                assert(mm.issued() == isb.insert(frame));
                assert(!isb.contains(frame));
                assert forall|p: int| start_page <= p < start_page + i + 1 implies
                    mm.issued().contains((#[trigger] mm.mappings()[Page(p as usize)]).0) by {
                    if p < start_page + i {
                        assert(Page(p as usize) != newk);
                        assert(mm.mappings()[Page(p as usize)] == mb[Page(p as usize)]);
                        assert(isb.contains(mb[Page(p as usize)].0));
                    } else {
                        assert(mm.mappings()[newk] == (frame, flags));
                    }
                }
                assert forall|p1: int, p2: int|
                    start_page <= p1 < p2 < start_page + i + 1 implies (
                #[trigger] mm.mappings()[Page(p1 as usize)]).0 != (
                #[trigger] mm.mappings()[Page(p2 as usize)]).0 by {
                    assert(Page(p1 as usize) != newk);
                    assert(mm.mappings()[Page(p1 as usize)] == mb[Page(p1 as usize)]);
                    if p2 < start_page + i {
                        assert(mm.mappings()[Page(p2 as usize)] == mb[Page(p2 as usize)]);
                        assert(mb[Page(p1 as usize)].0 != mb[Page(p2 as usize)].0);
                    } else {
                        assert(mm.mappings()[Page(p2 as usize)] == (frame, flags));
                        assert(isb.contains(mb[Page(p1 as usize)].0));
                    }
                }
                assert forall|p: int| start_page <= p < start_page + i + 1
                    implies #[trigger] mm.mappings().contains_key(Page(p as usize)) by {
                    if p < start_page + i {
                        assert(mb.contains_key(Page(p as usize)));
                    }
                }
                assert forall|p: int| start_page <= p < start_page + i + 1 implies (
                #[trigger] mm.mappings()[Page(p as usize)]).1 == flags by {
                    if p < start_page + i {
                        assert((mb[Page(p as usize)]).1 == flags);
                        assert(Page(p as usize) != newk);
                    }
                }
                assert forall|q: Page| !(start_page <= q.0 < start_page + i + 1) implies (
                #[trigger] mm.mappings().contains_key(q)) == old(mm).mappings().contains_key(q)
                    by {
                    assert(q != newk);
                    assert(mb.contains_key(q) == old(mm).mappings().contains_key(q));
                }
                assert forall|q: Page| !(start_page <= q.0 < start_page + i + 1) && old(
                    mm).mappings().contains_key(q) implies (#[trigger] mm.mappings()[q]) == old(
                    mm).mappings()[q] by {
                    assert(q != newk);
                    assert(mb[q] == old(mm).mappings()[q]);
                }
            }
            i += 1;
        }
        let r = PageRange { start: Page(start_page), end: Page(start_page + num_pages) };
        proof {
            assert forall|p: int| r.start.0 <= p < r.end.0 implies mm.mappings().contains_key(
                Page(p as usize)) && (#[trigger] mm.mappings()[Page(p as usize)]).1 == (PageFlags {
                user: true,
                writable: true,
                executable: false,
            }) by {
                assert(mm.mappings().contains_key(Page(p as usize)));
                assert((mm.mappings()[Page(p as usize)]).1 == flags);
            }
            assert forall|p1: int, p2: int|
                r.start.0 <= p1 < p2 < r.end.0 implies (
            #[trigger] mm.mappings()[Page(p1 as usize)]).0 != (
            #[trigger] mm.mappings()[Page(p2 as usize)]).0 by {}
        }
        Some(r)
    }
}


/// Address-space growths compose: two `sbrk` calls by one task, with no
/// interleaving from other tasks, claim disjoint, contiguous page ranges
/// whose union holds exactly `n1 + n2` pages, starting at the prior
/// high-water mark rounded up to the page granularity. The hypotheses are
/// exactly what `sbrk`'s postcondition gives for two successive successful
/// calls with the first call's new mark fed into the second.
pub proof fn lemma_sbrk_ranges_contiguous(
    hw0: usize,
    n1: usize,
    r1: PageRange,
    hw1: usize,
    n2: usize,
    r2: PageRange,
)
    requires
        r1.start.0 as int == spec_align_up(hw0 as int, PAGE_BYTES as int) / (PAGE_BYTES as int),
        r1.end.0 == r1.start.0 + n1,
        hw1 as int == r1.end.0 * PAGE_BYTES,
        r2.start.0 as int == spec_align_up(hw1 as int, PAGE_BYTES as int) / (PAGE_BYTES as int),
        r2.end.0 == r2.start.0 + n2,
    ensures
        r2.start == r1.end,
        r1.start.0 + n1 + n2 == r2.end.0,
{
    let p = PAGE_BYTES as int;
    let k = r1.end.0 as int;
    assert((k * p + p - 1) / p == k) by (nonlinear_arith)
        requires
            p > 0,
    ;
    assert(spec_align_up(hw1 as int, p) == k * p);
    assert((k * p) / p == k) by (nonlinear_arith)
        requires
            p > 0,
    ;
    assert(r2.start.0 == r1.end.0);
}

} // verus!
