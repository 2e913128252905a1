//! Scenario tests for task creation, scheduling, and the rendezvous IPC
//! protocol.

use sophon::scheduler::{ReceiveOutcome, Scheduler, SendError, SendOutcome};
use sophon::task::{Message, Task, TaskId, TaskState};

fn fresh_kernel(n: usize) -> Scheduler {
    let mut sched = Scheduler::new();
    for i in 0..n {
        let id = Task::create_kernel_task(&mut sched, 0x4000 + i, i as isize);
        assert_eq!(id, TaskId(i));
    }
    sched
}

fn state_of(sched: &Scheduler, id: TaskId) -> TaskState {
    sched.get_task_by_id(id).unwrap().scheduler_state()
}

fn assert_ipc_slots_exclusive(sched: &Scheduler, n: usize) {
    for i in 0..n {
        let t = sched.get_task_by_id(TaskId(i)).unwrap();
        assert!(!(t.get_receive_filter().is_some() && t.get_outgoing().is_some()));
    }
}

#[test]
fn task_ids_are_unique_and_increasing() {
    let mut sched = Scheduler::new();
    let mut last: Option<usize> = None;
    let mut seen = Vec::new();
    for i in 0..5 {
        let id = Task::create_kernel_task(&mut sched, 0x1000, i);
        if let Some(prev) = last {
            assert!(id.0 > prev);
        }
        assert!(!seen.contains(&id.0));
        seen.push(id.0);
        last = Some(id.0);
    }
}

#[test]
fn schedule_round_robin_picks_first_ready() {
    let mut sched = fresh_kernel(3);
    assert_eq!(sched.schedule(), Some(TaskId(0)));
    assert_eq!(state_of(&sched, TaskId(0)), TaskState::Running);
    // the running task is demoted and the next slot runs
    assert_eq!(sched.schedule(), Some(TaskId(1)));
    assert_eq!(state_of(&sched, TaskId(0)), TaskState::Ready);
    assert_eq!(sched.schedule(), Some(TaskId(2)));
    assert_eq!(sched.schedule(), Some(TaskId(0)));
}

#[test]
fn schedule_with_no_tasks_idles() {
    let mut sched = Scheduler::new();
    assert_eq!(sched.schedule(), None);
    assert!(sched.current_task_id().is_none());
}

#[test]
fn receive_with_no_sender_blocks() {
    let mut sched = fresh_kernel(2);
    sched.schedule();
    let r = Task::receive_message(&mut sched, Some(TaskId(1)));
    match r {
        ReceiveOutcome::Blocked { next } => assert_eq!(next, Some(TaskId(1))),
        _ => panic!("expected the receiver to block"),
    }
    let a = sched.get_task_by_id(TaskId(0)).unwrap();
    assert_eq!(a.scheduler_state(), TaskState::Blocked);
    assert_eq!(a.get_receive_filter(), Some(Some(TaskId(1))));
    assert_ipc_slots_exclusive(&sched, 2);
}

#[test]
fn receive_then_send_delivers_payload_and_status() {
    // Task 0 blocks on receive(any); task 1 sends; both end runnable and
    // both observe success on their next resumption.
    let mut sched = fresh_kernel(2);
    assert_eq!(sched.schedule(), Some(TaskId(0)));
    let r = Task::receive_message(&mut sched, None);
    assert!(matches!(r, ReceiveOutcome::Blocked { next: Some(TaskId(1)) }));
    assert_ipc_slots_exclusive(&sched, 2);

    let m = Message { sender: TaskId(1), receiver: TaskId(0), payload: 0xC0FFEE };
    let s = Task::send_message(&mut sched, m).unwrap();
    match s {
        SendOutcome::Delivered { next } => assert_eq!(next, TaskId(0)),
        _ => panic!("expected immediate delivery"),
    }
    assert_ipc_slots_exclusive(&sched, 2);
    // no task is left blocked
    assert_eq!(state_of(&sched, TaskId(0)), TaskState::Running);
    assert_eq!(state_of(&sched, TaskId(1)), TaskState::Ready);
    // the receiver's next resumption observes exactly the message and status 0
    let fa = sched.task_mut(TaskId(0)).get_context().return_to_user(false, 7, 7);
    assert_eq!(fa.message, Some(m));
    assert_eq!(fa.status, Some(0));
    // the sender's next resumption observes status 0 and no message
    let fb = sched.task_mut(TaskId(1)).get_context().return_to_user(false, 7, 7);
    assert_eq!(fb.message, None);
    assert_eq!(fb.status, Some(0));
}

#[test]
fn send_before_receive_queues_then_delivers() {
    // Task 0 sends before task 1 receives: the sender blocks and is queued
    // exactly once; the later receive delivers without blocking.
    let mut sched = fresh_kernel(2);
    assert_eq!(sched.schedule(), Some(TaskId(0)));
    let m = Message { sender: TaskId(0), receiver: TaskId(1), payload: 42 };
    let s = Task::send_message(&mut sched, m).unwrap();
    match s {
        SendOutcome::SenderBlocked { next } => assert_eq!(next, Some(TaskId(1))),
        _ => panic!("expected the sender to block"),
    }
    assert_eq!(state_of(&sched, TaskId(0)), TaskState::Blocked);
    {
        let b = sched.get_task_by_id(TaskId(1)).unwrap();
        let queued = b.blocked_senders_list();
        assert_eq!(queued.len(), 1);
        assert_eq!(queued[0], TaskId(0));
    }
    assert_ipc_slots_exclusive(&sched, 2);

    let r = Task::receive_message(&mut sched, None);
    match r {
        ReceiveOutcome::Delivered { message, next } => {
            assert_eq!(message, m);
            assert_eq!(next, TaskId(0));
        },
        _ => panic!("a queued sender must deliver immediately"),
    }
    // the sender was unblocked with status 0
    assert_ne!(state_of(&sched, TaskId(0)), TaskState::Blocked);
    let fa = sched.task_mut(TaskId(0)).get_context().return_to_user(false, 7, 7);
    assert_eq!(fa.status, Some(0));
    // the receiver obtained the message in the same call, without blocking
    assert_ne!(state_of(&sched, TaskId(1)), TaskState::Blocked);
    let fb = sched.task_mut(TaskId(1)).get_context().return_to_user(false, 7, 7);
    assert_eq!(fb.message, Some(m));
    assert_eq!(fb.status, Some(0));
    assert_eq!(sched.get_task_by_id(TaskId(1)).unwrap().blocked_senders_list().len(), 0);
}

#[test]
fn filtered_receive_takes_only_the_named_sender() {
    // Tasks 0 and 1 both queue on task 2; receive(Some(1)) must consume
    // exactly task 1's message and leave task 0 queued and blocked.
    let mut sched = fresh_kernel(3);
    assert_eq!(sched.schedule(), Some(TaskId(0)));
    let m0 = Message { sender: TaskId(0), receiver: TaskId(2), payload: 10 };
    assert!(matches!(
        Task::send_message(&mut sched, m0).unwrap(),
        SendOutcome::SenderBlocked { .. }
    ));
    // task 1 runs next and also sends to task 2
    let m1 = Message { sender: TaskId(1), receiver: TaskId(2), payload: 11 };
    assert!(matches!(
        Task::send_message(&mut sched, m1).unwrap(),
        SendOutcome::SenderBlocked { .. }
    ));
    // task 2 runs now; it receives only from task 1
    assert_eq!(sched.current_task_id(), Some(TaskId(2)));
    let r = Task::receive_message(&mut sched, Some(TaskId(1)));
    match r {
        ReceiveOutcome::Delivered { message, .. } => assert_eq!(message, m1),
        _ => panic!("task 1's message was queued and matches the filter"),
    }
    // exactly one match was consumed: task 0 stays queued and blocked
    let queued = sched.get_task_by_id(TaskId(2)).unwrap().blocked_senders_list().clone();
    assert_eq!(queued.len(), 1);
    assert_eq!(queued[0], TaskId(0));
    assert_eq!(state_of(&sched, TaskId(0)), TaskState::Blocked);
    assert_ne!(state_of(&sched, TaskId(1)), TaskState::Blocked);
}

#[test]
fn queued_senders_deliver_in_arrival_order() {
    // With two matching senders queued, receive(None) takes the one that
    // arrived first.
    let mut sched = fresh_kernel(3);
    assert_eq!(sched.schedule(), Some(TaskId(0)));
    let m0 = Message { sender: TaskId(0), receiver: TaskId(2), payload: 10 };
    Task::send_message(&mut sched, m0).unwrap();
    let m1 = Message { sender: TaskId(1), receiver: TaskId(2), payload: 11 };
    Task::send_message(&mut sched, m1).unwrap();
    assert_eq!(sched.current_task_id(), Some(TaskId(2)));
    let r = Task::receive_message(&mut sched, None);
    match r {
        ReceiveOutcome::Delivered { message, .. } => assert_eq!(message, m0),
        _ => panic!("two senders were queued"),
    }
}

#[test]
fn forged_sender_is_rejected() {
    let mut sched = fresh_kernel(2);
    sched.schedule();
    let m = Message { sender: TaskId(1), receiver: TaskId(0), payload: 1 };
    assert_eq!(Task::send_message(&mut sched, m), Err(SendError::ForgedSender));
    // nothing moved
    assert_eq!(state_of(&sched, TaskId(0)), TaskState::Running);
    assert_eq!(state_of(&sched, TaskId(1)), TaskState::Ready);
}

#[test]
fn unknown_receiver_is_rejected() {
    let mut sched = fresh_kernel(1);
    sched.schedule();
    let m = Message { sender: TaskId(0), receiver: TaskId(9), payload: 1 };
    assert_eq!(Task::send_message(&mut sched, m), Err(SendError::UnknownReceiver));
    assert_eq!(state_of(&sched, TaskId(0)), TaskState::Running);
}

#[test]
fn lookup_by_id_reports_absence() {
    let sched = fresh_kernel(1);
    assert!(Task::by_id(&sched, TaskId(0)).is_some());
    assert!(Task::by_id(&sched, TaskId(3)).is_none());
    assert!(Task::current(&sched).is_none());
}
