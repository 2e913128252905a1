//! Per-task register context: the saved state that lets a task be suspended
//! and later resumed, together with its privately owned kernel stack and the
//! LIFO stack of in-flight exception frames.
//!
//! The model works on plain values: a "frame address" is an offset into the
//! owning task's kernel stack, and the hardware privilege transition itself
//! (an `eret` on the real machine) is represented by the [`ResumeFrame`]
//! value that [`AArch64Context::return_to_user`] hands back, describing
//! exactly what the resuming task will observe.

use vstd::prelude::*;

use crate::mem::PAGE_BYTES;
use crate::task::Message;

verus! {

/// Pages backing one kernel stack (guard page excluded).
pub const KERNEL_STACK_PAGES: usize = 8;

/// Bytes in one kernel stack.
pub const KERNEL_STACK_SIZE: usize = KERNEL_STACK_PAGES * PAGE_BYTES;

/// Bytes occupied by one saved exception frame.
pub const EXCEPTION_FRAME_BYTES: usize = 272;

/// The saved-program-status word for a fresh kernel-mode entry (EL1h with
/// interrupts enabled), written into synthesized first-entry frames.
pub const SPSR_KERNEL_FRESH_ENTRY: usize = 0b0101;

/// A task's kernel-mode execution stack. On hardware the first page below it
/// is a guard page mapped to fault on overflow; the model owns the stack
/// bytes themselves and leaves the guard mapping to the memory manager.
pub struct KernelStack {
    stack: Vec<u8>,
}

impl KernelStack {
    /// The stack is fully allocated.
    pub closed spec fn wf(self) -> bool {
        self.stack@.len() == KERNEL_STACK_SIZE
    }

    /// The stack contents, bottom to top.
    pub closed spec fn bytes(self) -> Seq<u8> {
        self.stack@
    }

    /// Allocate a zero-filled kernel stack.
    pub fn new() -> (s: Self)
        ensures
            s.wf(),
            s.bytes() == Seq::new(KERNEL_STACK_SIZE as nat, |i: int| 0u8),
    {
        let stack: Vec<u8> = vec![0u8; KERNEL_STACK_SIZE];
        let mut s = KernelStack { stack };
        s.init();
        s
    }

    /// Zero every byte of the stack.
    pub fn init(&mut self)
        requires
            old(self).wf(),
        ensures
            final(self).wf(),
            final(self).bytes() == Seq::new(KERNEL_STACK_SIZE as nat, |i: int| 0u8),
    {
        let mut i: usize = 0;
        while i < KERNEL_STACK_SIZE
            invariant
                i <= KERNEL_STACK_SIZE,
                self.stack@.len() == KERNEL_STACK_SIZE,
                forall|j: int| 0 <= j < i ==> self.stack@[j] == 0u8,
            decreases KERNEL_STACK_SIZE - i,
        {
            self.stack[i] = 0u8;
            i += 1;
        }
        proof {
            assert(self.bytes() =~= Seq::new(KERNEL_STACK_SIZE as nat, |j: int| 0u8));
        }
    }

    /// The addressable range of the stack, as (start, end) offsets.
    pub fn range(&self) -> (r: (usize, usize))
        ensures
            r.0 == 0,
            r.1 == KERNEL_STACK_SIZE,
    {
        (0, KERNEL_STACK_SIZE)
    }

    /// Offset of the lowest stack byte.
    pub fn start_address(&self) -> (r: usize)
        ensures
            r == 0,
    {
        0
    }

    /// Offset one past the highest stack byte; the initial stack pointer.
    pub fn end_address(&self) -> (r: usize)
        ensures
            r == KERNEL_STACK_SIZE,
    {
        KERNEL_STACK_SIZE
    }

    /// Copy another stack's contents into this one, byte for byte.
    pub fn copy_from(&mut self, other: &KernelStack)
        requires
            old(self).wf(),
            other.wf(),
        ensures
            final(self).wf(),
            final(self).bytes() == other.bytes(),
    {
        let mut i: usize = 0;
        while i < KERNEL_STACK_SIZE
            invariant
                i <= KERNEL_STACK_SIZE,
                self.stack@.len() == KERNEL_STACK_SIZE,
                other.wf(),
                forall|j: int| 0 <= j < i ==> self.stack@[j] == other.bytes()[j],
            decreases KERNEL_STACK_SIZE - i,
        {
            self.stack[i] = other.stack[i];
            i += 1;
        }
        proof {
            assert(self.bytes() =~= other.bytes());
        }
    }
}

/// Copy a frame-address stack.
fn clone_frames(v: &Vec<usize>) -> (r: Vec<usize>)
    ensures
        r@ == v@,
{
    let mut r: Vec<usize> = Vec::new();
    let mut i: usize = 0;
    while i < v.len()
        invariant
            i <= v@.len(),
            r@ == v@.take(i as int),
        decreases v@.len() - i,
    {
        r.push(v[i]);
        proof {
            assert(r@ =~= v@.take(i as int + 1));
        }
        i += 1;
    }
    proof {
        assert(v@.take(v@.len() as int) =~= v@);
    }
    r
}

/// Everything the resuming task will observe at the moment control is handed
/// back to it: which frame is restored, whether the address-space root must
/// be switched first, and the staged IPC results written into the frame.
#[derive(Debug, Eq, PartialEq, Clone, Copy, Structural)]
pub struct ResumeFrame {
    /// Offset of the restored frame within the task's kernel stack.
    pub frame_address: usize,
    /// True when no pending exception frame existed and a fresh first-entry
    /// frame was synthesized at the top of the kernel stack.
    pub synthesized: bool,
    /// Resume program counter; meaningful only for synthesized frames (a
    /// popped frame keeps the counter saved when the task was interrupted).
    pub elr: usize,
    /// Saved program status; meaningful only for synthesized frames.
    pub spsr: usize,
    /// True when the task's address-space root differs from the active one
    /// and must be installed before the transition.
    pub switch_address_space: bool,
    /// Message written into the frame's message slot, if one was staged.
    pub message: Option<Message>,
    /// Status written into the frame's result register, if one was staged.
    pub status: Option<isize>,
}

/// The architecture-specific CPU state of one task: the resume target, the
/// stack it runs on in kernel mode, pending exception frames, and the IPC
/// results staged for delivery on next resumption.
pub struct AArch64Context {
    exception_frames: Vec<usize>,
    entry_pc: usize,
    kernel_stack: Option<KernelStack>,
    kernel_stack_top: usize,
    response_message: Option<Message>,
    response_status: Option<isize>,
}

impl AArch64Context {
    /// The pending exception frames, oldest first.
    pub closed spec fn frames(self) -> Seq<usize> {
        self.exception_frames@
    }

    /// The configured first-entry program counter.
    pub closed spec fn entry_pc(self) -> usize {
        self.entry_pc
    }

    /// The initial kernel stack pointer.
    pub closed spec fn kernel_stack_top(self) -> usize {
        self.kernel_stack_top
    }

    /// The message staged for delivery on next resumption, if any.
    pub closed spec fn response_message(self) -> Option<Message> {
        self.response_message
    }

    /// The status staged for delivery on next resumption, if any.
    pub closed spec fn response_status(self) -> Option<isize> {
        self.response_status
    }

    /// A context fit for resumption: it owns a fully allocated kernel stack
    /// whose top leaves room to synthesize one exception frame.
    pub closed spec fn wf(self) -> bool {
        &&& self.kernel_stack matches Some(s) && s.wf()
        &&& self.kernel_stack_top == KERNEL_STACK_SIZE
    }

    /// The owned kernel stack's contents, empty if none is allocated.
    pub closed spec fn stack_bytes(self) -> Seq<u8> {
        match self.kernel_stack {
            Some(s) => s.bytes(),
            None => Seq::empty(),
        }
    }

    /// Duplicate this context: same resume target, same pending frames, and
    /// a fresh kernel stack holding a byte-for-byte copy of the original's.
    /// The duplicate shares no state with the original and carries no
    /// staged results; what its first resumption observes is the caller's
    /// to stage.
    pub fn fork(&self) -> (c: Self)
        requires
            self.wf(),
        ensures
            c.wf(),
            c.frames() == self.frames(),
            c.entry_pc() == self.entry_pc(),
            c.kernel_stack_top() == self.kernel_stack_top(),
            c.stack_bytes() == self.stack_bytes(),
            c.response_message() is None,
            c.response_status() is None,
    {
        let mut stack = KernelStack::new();
        match &self.kernel_stack {
            Some(s) => stack.copy_from(s),
            None => {},
        }
        let frames = clone_frames(&self.exception_frames);
        AArch64Context {
            exception_frames: frames,
            entry_pc: self.entry_pc,
            kernel_stack: Some(stack),
            kernel_stack_top: self.kernel_stack_top,
            response_message: None,
            response_status: None,
        }
    }

    /// A placeholder context with no meaningful state, used before real
    /// initialization.
    pub fn empty() -> (c: Self)
        ensures
            !c.wf(),
            c.frames() == Seq::<usize>::empty(),
            c.entry_pc() == 0,
            c.kernel_stack_top() == 0,
            c.stack_bytes() == Seq::<u8>::empty(),
            c.response_message() is None,
            c.response_status() is None,
    {
        AArch64Context {
            exception_frames: Vec::new(),
            entry_pc: 0,
            kernel_stack: None,
            kernel_stack_top: 0,
            response_message: None,
            response_status: None,
        }
    }

    /// Build the context for a fresh task: allocate its kernel stack, point
    /// first entry at `entry`, and stage `init_arg` so the entry code finds
    /// its argument in the result register on first resumption.
    pub fn new(entry: usize, init_arg: isize) -> (c: Self)
        ensures
            c.wf(),
            c.frames() == Seq::<usize>::empty(),
            c.entry_pc() == entry,
            c.kernel_stack_top() == KERNEL_STACK_SIZE,
            c.stack_bytes() == Seq::new(KERNEL_STACK_SIZE as nat, |i: int| 0u8),
            c.response_message() is None,
            c.response_status() == Some(init_arg),
    {
        let kernel_stack = KernelStack::new();
        let sp = kernel_stack.end_address();
        let mut ctx = Self::empty();
        ctx.entry_pc = entry;
        ctx.kernel_stack_top = sp;
        ctx.kernel_stack = Some(kernel_stack);
        ctx.set_response_status(init_arg);
        ctx
    }

    /// Record a frame trapped while the owner was already resuming from an
    /// earlier exception (nested re-entry).
    pub fn push_exception_frame(&mut self, exception_frame: usize)
        ensures
            final(self).frames() == old(self).frames().push(exception_frame),
            final(self).entry_pc() == old(self).entry_pc(),
            final(self).kernel_stack_top() == old(self).kernel_stack_top(),
            final(self).response_message() == old(self).response_message(),
            final(self).response_status() == old(self).response_status(),
            final(self).wf() == old(self).wf(),
    {
        self.exception_frames.push(exception_frame);
    }

    /// Take the most recently pushed exception frame, if any.
    pub fn pop_exception_frame(&mut self) -> (r: Option<usize>)
        ensures
            old(self).frames().len() == 0 ==> r is None && final(self).frames()
                == old(self).frames(),
            old(self).frames().len() > 0 ==> r == Some(old(self).frames().last())
                && final(self).frames() == old(self).frames().drop_last(),
            final(self).entry_pc() == old(self).entry_pc(),
            final(self).kernel_stack_top() == old(self).kernel_stack_top(),
            final(self).response_message() == old(self).response_message(),
            final(self).response_status() == old(self).response_status(),
            final(self).wf() == old(self).wf(),
    {
        self.exception_frames.pop()
    }

    /// Stage a message for delivery into the resuming frame's message slot.
    pub fn set_response_message(&mut self, m: Message)
        ensures
            final(self).stack_bytes() == old(self).stack_bytes(),
            final(self).response_message() == Some(m),
            final(self).response_status() == old(self).response_status(),
            final(self).frames() == old(self).frames(),
            final(self).entry_pc() == old(self).entry_pc(),
            final(self).kernel_stack_top() == old(self).kernel_stack_top(),
            final(self).wf() == old(self).wf(),
    {
        self.response_message = Some(m);
    }

    /// Stage a status for delivery into the resuming frame's result register.
    pub fn set_response_status(&mut self, s: isize)
        ensures
            final(self).stack_bytes() == old(self).stack_bytes(),
            final(self).response_status() == Some(s),
            final(self).response_message() == old(self).response_message(),
            final(self).frames() == old(self).frames(),
            final(self).entry_pc() == old(self).entry_pc(),
            final(self).kernel_stack_top() == old(self).kernel_stack_top(),
            final(self).wf() == old(self).wf(),
    {
        self.response_status = Some(s);
    }

    /// Decide everything the privilege transition will do: pop the most
    /// recent pending frame, or synthesize a fresh first-entry frame at the
    /// top of the kernel stack; inject the staged IPC results exactly once;
    /// and note whether the address-space root must be switched. Interrupts
    /// must already be disabled, and the transition itself — restoring the
    /// frame and dropping privilege — is the architecture layer's last step.
    pub fn return_to_user(&mut self, interrupts_enabled: bool, active_root: usize,
        task_root: usize) -> (f: ResumeFrame)
        requires
            !interrupts_enabled,
            old(self).wf(),
        ensures
            final(self).wf(),
            // The staged results are consumed by exactly this resumption.
            final(self).response_message() is None,
            final(self).response_status() is None,
            f.message == old(self).response_message(),
            f.status == old(self).response_status(),
            f.switch_address_space == (active_root != task_root),
            final(self).entry_pc() == old(self).entry_pc(),
            final(self).kernel_stack_top() == old(self).kernel_stack_top(),
            // Resume exactly where the task was interrupted, if it was.
            old(self).frames().len() > 0 ==> !f.synthesized
                && f.frame_address == old(self).frames().last()
                && final(self).frames() == old(self).frames().drop_last(),
            // Otherwise begin at the configured entry point.
            old(self).frames().len() == 0 ==> f.synthesized
                && f.frame_address == KERNEL_STACK_SIZE - EXCEPTION_FRAME_BYTES
                && f.elr == old(self).entry_pc()
                && f.spsr == SPSR_KERNEL_FRESH_ENTRY
                && final(self).frames() == old(self).frames(),
    {
        let switch_address_space = active_root != task_root;
        let (frame_address, synthesized, elr, spsr) = match self.pop_exception_frame() {
            Some(frame) => (frame, false, 0usize, 0usize),
            None => (
                KERNEL_STACK_SIZE - EXCEPTION_FRAME_BYTES,
                true,
                self.entry_pc,
                SPSR_KERNEL_FRESH_ENTRY,
            ),
        };
        let message = self.response_message;
        let status = self.response_status;
        self.response_message = None;
        self.response_status = None;
        ResumeFrame { frame_address, synthesized, elr, spsr, switch_address_space, message, status }
    }
}

/// A full callee-saved register context, for cooperative switching between
/// kernel-mode continuations: the callee-saved general registers, the
/// vector register file, the address-space root, and an owned kernel
/// stack. The switch itself — saving one register file and restoring the
/// other — is a few instructions of architecture assembly outside this
/// model; everything it switches between is built and duplicated here.
pub struct Context {
    pub sp: usize,
    pub x19: usize,
    pub x20: usize,
    pub x21: usize,
    pub x22: usize,
    pub x23: usize,
    pub x24: usize,
    pub x25: usize,
    pub x26: usize,
    pub x27: usize,
    pub x28: usize,
    /// Frame pointer.
    pub x29: usize,
    /// Resume program counter.
    pub pc: usize,
    /// Vector registers.
    pub q: [u128; 32],
    /// Address-space root.
    pub p4: crate::mem::Frame,
    /// The owned kernel stack, present once the context is initialized.
    pub kernel_stack: Option<KernelStack>,
}

impl Context {
    /// The owned kernel stack's contents, empty if none is allocated.
    pub closed spec fn stack_bytes(self) -> Seq<u8> {
        match self.kernel_stack {
            Some(s) => s.bytes(),
            None => Seq::empty(),
        }
    }

    /// The context owns a fully allocated kernel stack.
    pub closed spec fn wf(self) -> bool {
        self.kernel_stack matches Some(s) && s.wf()
    }

    /// A context with no meaningful register state, used as a placeholder
    /// before real initialization.
    pub fn empty() -> (c: Self)
        ensures
            c.sp == 0,
            c.pc == 0,
            !c.wf(),
    {
        Context {
            sp: 0,
            x19: 0,
            x20: 0,
            x21: 0,
            x22: 0,
            x23: 0,
            x24: 0,
            x25: 0,
            x26: 0,
            x27: 0,
            x28: 0,
            x29: 0,
            pc: 0,
            q: [0u128; 32],
            p4: crate::mem::Frame(0),
            kernel_stack: None,
        }
    }

    /// Build a context whose first resumption begins at `entry`: allocate a
    /// fresh address-space root from the memory manager (its page-table
    /// initialization is the manager's concern) and a zero-filled kernel
    /// stack whose top becomes the initial stack pointer. Fails, changing
    /// nothing but the allocator, exactly when no frame is left for the
    /// root; stack allocation failure is fatal to task creation and
    /// surfaces the same way.
    pub fn new<M: crate::arch::AbstractMemoryManager>(entry: usize, mm: &mut M) -> (r: Option<
        Context>)
        ensures
            (r is Some <==> old(mm).free_frames() > 0),
            final(mm).mappings() == old(mm).mappings(),
            r matches Some(c) ==> {
                &&& c.wf()
                &&& c.pc == entry
                &&& c.sp == KERNEL_STACK_SIZE
                &&& c.stack_bytes() == Seq::new(KERNEL_STACK_SIZE as nat, |i: int| 0u8)
                &&& final(mm).free_frames() == old(mm).free_frames() - 1
                &&& final(mm).issued().contains(c.p4)
                &&& !old(mm).issued().contains(c.p4)
            },
            r is None ==> final(mm).free_frames() == old(mm).free_frames(),
    {
        let p4 = match mm.alloc_frame() {
            Some(f) => f,
            None => {
                return None;
            },
        };
        let kernel_stack = KernelStack::new();
        let sp = kernel_stack.end_address();
        let mut ctx = Context::empty();
        ctx.pc = entry;
        ctx.sp = sp;
        ctx.p4 = p4;
        ctx.kernel_stack = Some(kernel_stack);
        Some(ctx)
    }

    /// Duplicate this context for a forked task: the same register state, a
    /// fresh kernel stack holding a byte-for-byte copy of the original's —
    /// the stack pointer keeps its offset, so it points at the copy of the
    /// same frame — and a copy of the address-space root requested from the
    /// memory manager. The duplicate shares no mutable state with the
    /// original. Fails, changing nothing but the allocator, exactly when no
    /// frame is left for the copied root.
    pub fn fork<M: crate::arch::AbstractMemoryManager>(&self, mm: &mut M) -> (r: Option<Context>)
        requires
            self.wf(),
            old(mm).issued().contains(self.p4),
        ensures
            (r is Some <==> old(mm).free_frames() > 0),
            final(mm).mappings() == old(mm).mappings(),
            r matches Some(c) ==> {
                &&& c.wf()
                &&& c.p4 != self.p4
                &&& final(mm).issued().contains(c.p4)
                &&& c.sp == self.sp
                &&& c.pc == self.pc
                &&& c.x19 == self.x19 && c.x20 == self.x20 && c.x21 == self.x21
                &&& c.x22 == self.x22 && c.x23 == self.x23 && c.x24 == self.x24
                &&& c.x25 == self.x25 && c.x26 == self.x26 && c.x27 == self.x27
                &&& c.x28 == self.x28 && c.x29 == self.x29
                &&& c.q == self.q
                &&& c.stack_bytes() == self.stack_bytes()
                &&& final(mm).free_frames() == old(mm).free_frames() - 1
            },
            r is None ==> final(mm).free_frames() == old(mm).free_frames(),
    {
        let p4 = match mm.fork_address_space(self.p4) {
            Some(f) => f,
            None => {
                return None;
            },
        };
        let mut kernel_stack = KernelStack::new();
        match &self.kernel_stack {
            Some(s) => kernel_stack.copy_from(s),
            None => {},
        }
        Some(
            Context {
                sp: self.sp,
                x19: self.x19,
                x20: self.x20,
                x21: self.x21,
                x22: self.x22,
                x23: self.x23,
                x24: self.x24,
                x25: self.x25,
                x26: self.x26,
                x27: self.x27,
                x28: self.x28,
                x29: self.x29,
                pc: self.pc,
                q: self.q,
                p4,
                kernel_stack: Some(kernel_stack),
            },
        )
    }
}

} // verus!
