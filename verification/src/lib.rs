//! Task core of a small microkernel: task identity and lifecycle, a
//! round-robin scheduler over an owned task registry, synchronous rendezvous
//! message passing between tasks, and the per-task register context and
//! exception-frame bookkeeping that make suspension and resumption possible.
//!
//! All kernel state is held in one owned [`scheduler::Scheduler`] value; the
//! surrounding system decides how that value is shared (on real hardware, a
//! lock taken inside interrupt-disabled sections).

pub mod arch;
pub mod context;
pub mod dtb;
pub mod exception;
pub mod mem;
pub mod scheduler;
pub mod syscall;
pub mod task;
pub mod uart;
