//! The saved trap frame: the register state captured when an exception or
//! system call interrupts a task, used to resume it exactly where it was
//! interrupted. The register-slot assignment is fixed, because user code
//! depends on it: `x0` carries the system-call identifier in and the result
//! out, and `x2` names the caller's message buffer.

use vstd::prelude::*;

verus! {

/// One saved trap frame. Only the slots this kernel reads and writes are
/// modeled; the remaining register file is saved and restored unchanged by
/// the architecture layer.
#[derive(Debug, Eq, PartialEq, Clone, Copy, Structural)]
pub struct ExceptionFrame {
    /// Argument and result register: syscall id in, handler result out.
    pub x0: usize,
    pub x1: usize,
    /// For IPC calls, the user-space address of the message buffer.
    pub x2: usize,
    pub x3: usize,
    pub x4: usize,
    pub x5: usize,
    /// Program counter to return to.
    pub elr_el1: usize,
    /// Saved program status to restore.
    pub spsr_el1: usize,
}

} // verus!
