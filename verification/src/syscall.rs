//! System-call dispatch: decode the identifier the trapping task left in
//! its frame's result register, run the matching handler, and write the
//! handler's result back into that register, where the task will find it
//! on resumption.

use vstd::prelude::*;

use crate::exception::ExceptionFrame;
use crate::scheduler::Scheduler;
use crate::task::Task;
use crate::task::TaskId;
use crate::task::TaskState;

verus! {

/// The system calls this kernel dispatches.
#[derive(Debug, Eq, PartialEq, Copy, Clone, Structural)]
#[allow(non_camel_case_types)]
pub enum SysCall {
    Fork,
    __MAX_SYSCALLS,
}

/// Which system call an identifier names, if any.
pub open spec fn spec_decode_syscall(x: usize) -> Option<SysCall> {
    if x == 0 {
        Some(SysCall::Fork)
    } else {
        None
    }
}

/// Decode a system-call identifier.
pub fn decode_syscall(x: usize) -> (r: Option<SysCall>)
    ensures
        r == spec_decode_syscall(x),
{
    if x == 0 {
        Some(SysCall::Fork)
    } else {
        None
    }
}

/// Dispatch the system call recorded in `frame`. An identifier outside the
/// dispatch table is excluded by precondition, as the table bound excludes
/// it on the machine.
///
/// `Fork` duplicates the calling task: a new task is registered whose
/// context is a fork of the caller's — same resume target, same pending
/// frames, a copy of the kernel stack — with zero staged as the value the
/// child observes on first resumption. The caller's result, written back
/// into the frame's result register, is the child's identifier.
pub fn handle_syscall(sched: &mut Scheduler, frame: &mut ExceptionFrame) -> (r: isize)
    requires
        old(sched).wf(),
        old(sched).current_id() is Some,
        old(sched).task(old(sched).current_id().unwrap()).ctx().wf(),
        spec_decode_syscall(old(frame).x0) is Some,
    ensures
        final(sched).wf(),
        ({
            let c = old(sched).current_id().unwrap();
            let pre = *old(sched);
            let post = *final(sched);
            let child = TaskId(pre.n_tasks() as usize);
            &&& post.n_tasks() == pre.n_tasks() + 1
            &&& post.current_id() == pre.current_id()
            &&& forall|j: int| 0 <= j < pre.n_tasks() ==> post.tasks_seq()[j]
                == #[trigger] pre.tasks_seq()[j]
            &&& post.task(child).state() == TaskState::Ready
            &&& post.task(child).ctx().frames() == pre.task(c).ctx().frames()
            &&& post.task(child).ctx().entry_pc() == pre.task(c).ctx().entry_pc()
            &&& post.task(child).ctx().stack_bytes() == pre.task(c).ctx().stack_bytes()
            &&& post.task(child).ctx().response_status() == Some(0isize)
            &&& post.task(child).ctx().response_message() is None
            &&& post.task(child).highwater() == pre.task(c).highwater()
            &&& r == child.0 as isize
            &&& final(frame).x0 == r as usize
            &&& *final(frame) == (ExceptionFrame { x0: ((child.0 as isize) as usize), ..*old(
                frame) })
        }),
{
    let id = decode_syscall(frame.x0).unwrap();
    let result: isize = match id {
        SysCall::Fork => fork_current(sched),
        SysCall::__MAX_SYSCALLS => 0,
    };
    frame.x0 = result as usize;
    proof {
        assert(final(frame).x0 == result as usize);
    }
    result
}

/// The `Fork` handler: register a duplicate of the calling task and return
/// the child's identifier.
fn fork_current(sched: &mut Scheduler) -> (r: isize)
    requires
        old(sched).wf(),
        old(sched).current_id() is Some,
        old(sched).task(old(sched).current_id().unwrap()).ctx().wf(),
    ensures
        final(sched).wf(),
        ({
            let c = old(sched).current_id().unwrap();
            let pre = *old(sched);
            let post = *final(sched);
            let child = TaskId(pre.n_tasks() as usize);
            &&& post.n_tasks() == pre.n_tasks() + 1
            &&& post.current_id() == pre.current_id()
            &&& forall|j: int| 0 <= j < pre.n_tasks() ==> post.tasks_seq()[j]
                == #[trigger] pre.tasks_seq()[j]
            &&& post.task(child).state() == TaskState::Ready
            &&& post.task(child).ctx().frames() == pre.task(c).ctx().frames()
            &&& post.task(child).ctx().entry_pc() == pre.task(c).ctx().entry_pc()
            &&& post.task(child).ctx().stack_bytes() == pre.task(c).ctx().stack_bytes()
            &&& post.task(child).ctx().response_status() == Some(0isize)
            &&& post.task(child).ctx().response_message() is None
            &&& post.task(child).highwater() == pre.task(c).highwater()
            &&& r == child.0 as isize
        }),
{
    let c = sched.current_task_id().unwrap();
    proof {
        crate::scheduler::lemma_current_is_registered(*sched);
        crate::scheduler::lemma_registered_task_ok(*sched, c);
    }
    let highwater = sched.get_task_by_id(c).unwrap().get_highwater();
    let parent = sched.get_task_by_id(c).unwrap();
    let mut child_ctx = parent.context_ref().fork();
    child_ctx.set_response_status(0);
    let n = sched.task_count();
    let child = Task::new_task(TaskId(n), child_ctx, highwater);
    let id = sched.register_new_task(child);
    proof {
        assert(id.0 as int == old(sched).n_tasks());
    }
    id.0 as isize
}

} // verus!
