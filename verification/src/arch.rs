//! The architecture capability interfaces the kernel consumes: interrupt
//! control, a timer, the memory manager, the register context, and a
//! character logger. Each concern is one interface with one concrete
//! implementation selected at build time; the reference implementations in
//! this crate ground every contract stated here.
//!
//! The original interfaces expose free functions over processor-global
//! state; here each capability is an owned value, so the same operations
//! take the capability explicitly.

use vstd::prelude::*;

use crate::mem::Frame;
use crate::mem::Page;
use crate::mem::PageFlags;
use crate::task::Message;

verus! {

/// The interrupt sources this kernel distinguishes.
#[derive(Debug, Eq, PartialEq, Clone, Copy, Structural)]
pub enum InterruptId {
    Timer,
    Soft,
    PageFault,
}

impl InterruptId {
    /// The interrupt's slot in the handler table.
    pub open spec fn spec_index(self) -> int {
        match self {
            InterruptId::Timer => 0,
            InterruptId::Soft => 1,
            InterruptId::PageFault => 2,
        }
    }

    /// The interrupt's slot in the handler table.
    pub fn index(self) -> (r: usize)
        ensures
            r as int == self.spec_index(),
    {
        match self {
            InterruptId::Timer => 0,
            InterruptId::Soft => 1,
            InterruptId::PageFault => 2,
        }
    }
}

/// An installed interrupt handler, named by an opaque routine token (the
/// routine's address on the real machine).
pub type InterruptHandler = usize;

/// Control over the processor's interrupt delivery.
pub trait AbstractInterruptController: Sized {
    /// Is interrupt delivery enabled?
    spec fn enabled(&self) -> bool;

    /// The handler installed for an interrupt source, if any.
    spec fn handler(&self, id: InterruptId) -> Option<InterruptHandler>;

    fn init(&mut self);

    fn is_enabled(&self) -> (r: bool)
        ensures
            r == self.enabled(),
    ;

    fn enable(&mut self)
        ensures
            final(self).enabled(),
            forall|id: InterruptId| final(self).handler(id) == old(self).handler(id),
    ;

    fn disable(&mut self)
        ensures
            !final(self).enabled(),
            forall|id: InterruptId| final(self).handler(id) == old(self).handler(id),
    ;

    fn set_handler(&mut self, id: InterruptId, handler: Option<InterruptHandler>)
        ensures
            final(self).handler(id) == handler,
            forall|other: InterruptId| other != id ==> final(self).handler(other) == old(
                self).handler(other),
            final(self).enabled() == old(self).enabled(),
    ;

    /// Run `f` with interrupts disabled — the uninterruptable critical
    /// section every piece of IPC bookkeeping runs inside — restoring the
    /// previous delivery state afterwards.
    fn uninterruptable<R, F: FnOnce() -> R>(&mut self, f: F) -> (r: R)
        requires
            call_requires(f, ()),
        ensures
            call_ensures(f, (), r),
            final(self).enabled() == old(self).enabled(),
    {
        let enabled = self.is_enabled();
        if enabled {
            self.disable();
        }
        let ret = f();
        if enabled {
            self.enable();
        }
        ret
    }
}

/// A page held mapped only for the duration of one operation; the holder
/// unmaps it when done with it.
pub struct TemporaryPage {
    pub page: Page,
}

/// The memory-manager collaborator: frame allocation and page-table
/// mutation, consumed through this narrow interface and not re-specified
/// here beyond it.
pub trait AbstractMemoryManager: Sized {
    /// Frames still available for allocation.
    spec fn free_frames(&self) -> nat;

    /// Every frame the allocator has ever handed out. Allocation is always
    /// fresh: this allocator interface never re-issues a frame, so frames
    /// from different allocations are always distinct.
    spec fn issued(&self) -> Set<Frame>;

    /// The current virtual-to-physical mapping.
    spec fn mappings(&self) -> Map<Page, (Frame, PageFlags)>;

    /// Number of frames still available.
    fn frames_available(&self) -> (n: usize)
        ensures
            n == self.free_frames(),
    ;

    /// Allocate one physical frame; fails exactly when none are left. A
    /// returned frame is fresh: it was never issued before.
    fn alloc_frame(&mut self) -> (r: Option<Frame>)
        ensures
            (r is Some <==> old(self).free_frames() > 0),
            r is Some ==> final(self).free_frames() == old(self).free_frames() - 1,
            r matches Some(f) ==> !old(self).issued().contains(f) && final(self).issued() == old(
                self).issued().insert(f),
            r is None ==> final(self).free_frames() == old(self).free_frames() && final(
                self).issued() == old(self).issued(),
            final(self).mappings() == old(self).mappings(),
    ;

    /// Return one frame to the allocator. The pool does not shrink; how
    /// much it grows is the allocator's own affair (an allocator that
    /// never re-issues frames may retire them instead).
    fn dealloc_frame(&mut self, frame: Frame)
        ensures
            final(self).free_frames() >= old(self).free_frames(),
            final(self).mappings() == old(self).mappings(),
            final(self).issued() == old(self).issued(),
    ;

    /// Map `page` to `frame` with `flags`.
    fn map(&mut self, page: Page, frame: Frame, flags: PageFlags)
        ensures
            final(self).mappings() == old(self).mappings().insert(page, (frame, flags)),
            final(self).free_frames() == old(self).free_frames(),
            final(self).issued() == old(self).issued(),
    ;

    /// Remove a page's mapping, if any.
    fn unmap(&mut self, page: Page)
        ensures
            final(self).mappings() == old(self).mappings().remove(page),
            final(self).free_frames() == old(self).free_frames(),
            final(self).issued() == old(self).issued(),
    ;

    /// Look up the frame and flags a page is mapped to.
    fn translate(&self, page: Page) -> (r: Option<(Frame, PageFlags)>)
        ensures
            match r {
                Some(fp) => self.mappings().contains_key(page) && self.mappings()[page] == fp,
                None => !self.mappings().contains_key(page),
            },
    ;

    /// Change the flags of a mapped page, keeping its frame.
    fn update_flags(&mut self, page: Page, flags: PageFlags)
        requires
            old(self).mappings().contains_key(page),
        ensures
            final(self).mappings() == old(self).mappings().insert(page, (old(
                self).mappings()[page].0, flags)),
            final(self).free_frames() == old(self).free_frames(),
            final(self).issued() == old(self).issued(),
    ;

    /// Duplicate an address-space root for a forked task; fails exactly
    /// when no frame is left to hold the copy. The copy lands in a fresh
    /// frame, so it is distinct from every issued frame — in particular
    /// from `root` itself, whenever `root` was issued by this allocator.
    fn fork_address_space(&mut self, root: Frame) -> (r: Option<Frame>)
        ensures
            (r is Some <==> old(self).free_frames() > 0),
            r is Some ==> final(self).free_frames() == old(self).free_frames() - 1,
            r matches Some(f) ==> !old(self).issued().contains(f) && final(self).issued() == old(
                self).issued().insert(f),
            r is None ==> final(self).free_frames() == old(self).free_frames() && final(
                self).issued() == old(self).issued(),
            final(self).mappings() == old(self).mappings(),
    ;

    /// Map a page for the duration of one operation; the returned token
    /// names the page so the holder can unmap it when done.
    fn map_temporarily(&mut self, page: Page, frame: Frame, flags: PageFlags) -> (r:
        TemporaryPage)
        ensures
            final(self).mappings() == old(self).mappings().insert(page, (frame, flags)),
            final(self).free_frames() == old(self).free_frames(),
            final(self).issued() == old(self).issued(),
            r.page == page,
    {
        self.map(page, frame, flags);
        TemporaryPage { page }
    }
}

/// The timer collaborator.
pub trait AbstractTimer: Sized {
    /// Milliseconds of waiting performed through this timer.
    spec fn elapsed(&self) -> nat;

    fn init(&mut self);

    /// Busy-wait for `ms` milliseconds.
    fn wait(&mut self, ms: usize)
        requires
            old(self).elapsed() + ms <= u64::MAX,
        ensures
            final(self).elapsed() == old(self).elapsed() + ms,
    ;
}

/// The register-context capability: what the scheduler needs from an
/// architecture's saved-state representation.
pub trait AbstractContext: Sized {
    /// The message staged for delivery on next resumption, if any.
    spec fn staged_message(&self) -> Option<Message>;

    /// The status staged for delivery on next resumption, if any.
    spec fn staged_status(&self) -> Option<isize>;

    /// A context with no meaningful state, used before initialization.
    fn empty() -> Self;

    /// Stage a message for the owning task's next resumption.
    fn set_response_message(&mut self, m: Message)
        ensures
            final(self).staged_message() == Some(m),
            final(self).staged_status() == old(self).staged_status(),
    ;

    /// Stage a status for the owning task's next resumption.
    fn set_response_status(&mut self, s: isize)
        ensures
            final(self).staged_status() == Some(s),
            final(self).staged_message() == old(self).staged_message(),
    ;
}

/// The boot-time logger collaborator.
pub trait AbstractLogger: Sized {
    /// Everything written so far.
    spec fn log(&self) -> Seq<char>;

    /// Write one character.
    fn put(&mut self, c: char)
        ensures
            final(self).log() == old(self).log().push(c),
    ;
}

/// One architecture: a concrete choice for every capability, selected once
/// at build time. Boot-time processor and MMU bring-up stands outside this
/// model and is assumed done before the first task exists.
pub trait AbstractArch: Sized {
    type Interrupt: AbstractInterruptController;

    type Timer: AbstractTimer;

    type MemoryManager: AbstractMemoryManager;

    type Context: AbstractContext;

    type Logger: AbstractLogger;
}

/// Reference interrupt controller: a delivery flag and one handler slot
/// for each interrupt source.
pub struct ModelInterruptController {
    enabled: bool,
    timer_handler: Option<InterruptHandler>,
    soft_handler: Option<InterruptHandler>,
    fault_handler: Option<InterruptHandler>,
}

impl ModelInterruptController {
    /// A controller with delivery disabled and no handlers installed.
    pub fn new() -> (r: Self)
        ensures
            !r.enabled(),
            forall|id: InterruptId| r.handler(id) is None,
    {
        ModelInterruptController {
            enabled: false,
            timer_handler: None,
            soft_handler: None,
            fault_handler: None,
        }
    }
}

impl AbstractInterruptController for ModelInterruptController {
    closed spec fn enabled(&self) -> bool {
        self.enabled
    }

    closed spec fn handler(&self, id: InterruptId) -> Option<InterruptHandler> {
        match id {
            InterruptId::Timer => self.timer_handler,
            InterruptId::Soft => self.soft_handler,
            InterruptId::PageFault => self.fault_handler,
        }
    }

    fn init(&mut self) {
        self.enabled = false;
    }

    fn is_enabled(&self) -> (r: bool) {
        self.enabled
    }

    fn enable(&mut self) {
        self.enabled = true;
        proof {
            assert forall|id: InterruptId| self.handler(id) == old(self).handler(id) by {
                match id {
                    InterruptId::Timer => {},
                    InterruptId::Soft => {},
                    InterruptId::PageFault => {},
                }
            }
        }
    }

    fn disable(&mut self) {
        self.enabled = false;
        proof {
            assert forall|id: InterruptId| self.handler(id) == old(self).handler(id) by {
                match id {
                    InterruptId::Timer => {},
                    InterruptId::Soft => {},
                    InterruptId::PageFault => {},
                }
            }
        }
    }

    fn set_handler(&mut self, id: InterruptId, handler: Option<InterruptHandler>) {
        match id {
            InterruptId::Timer => {
                self.timer_handler = handler;
            },
            InterruptId::Soft => {
                self.soft_handler = handler;
            },
            InterruptId::PageFault => {
                self.fault_handler = handler;
            },
        }
    }
}

/// Reference timer: counts the waiting it performed.
pub struct ModelTimer {
    elapsed_ms: u64,
}

impl ModelTimer {
    /// A timer that has not waited yet.
    pub fn new() -> (r: Self)
        ensures
            r.elapsed() == 0,
    {
        ModelTimer { elapsed_ms: 0 }
    }
}

impl AbstractTimer for ModelTimer {
    closed spec fn elapsed(&self) -> nat {
        self.elapsed_ms as nat
    }

    fn init(&mut self) {
    }

    fn wait(&mut self, ms: usize) {
        self.elapsed_ms = self.elapsed_ms + ms as u64;
    }
}

/// Reference logger: records every character written.
pub struct ModelLogger {
    out: Vec<char>,
}

impl ModelLogger {
    /// A logger with an empty transcript.
    pub fn new() -> (r: Self)
        ensures
            r.log() == Seq::<char>::empty(),
    {
        ModelLogger { out: Vec::new() }
    }

    /// The transcript so far.
    pub fn transcript(&self) -> (r: &Vec<char>)
        ensures
            r@ == self.log(),
    {
        &self.out
    }
}

impl AbstractLogger for ModelLogger {
    closed spec fn log(&self) -> Seq<char> {
        self.out@
    }

    fn put(&mut self, c: char) {
        self.out.push(c);
    }
}

impl AbstractContext for crate::context::AArch64Context {
    closed spec fn staged_message(&self) -> Option<Message> {
        self.response_message()
    }

    closed spec fn staged_status(&self) -> Option<isize> {
        self.response_status()
    }

    fn empty() -> Self {
        crate::context::AArch64Context::empty()
    }

    fn set_response_message(&mut self, m: Message) {
        crate::context::AArch64Context::set_response_message(self, m);
    }

    fn set_response_status(&mut self, s: isize) {
        crate::context::AArch64Context::set_response_status(self, s);
    }
}

/// The build-time selection this crate ships: every capability bound to its
/// reference implementation.
pub struct ModelArch {}

impl AbstractArch for ModelArch {
    type Interrupt = ModelInterruptController;

    type Timer = ModelTimer;

    type MemoryManager = crate::mem::ModelMemoryManager;

    type Context = crate::context::AArch64Context;

    type Logger = ModelLogger;
}

} // verus!
