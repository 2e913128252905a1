//! Tests for the register context, exception frames, memory growth, the
//! system-call path, the capability models, and the UART.

use sophon::arch::{
    AbstractInterruptController, AbstractLogger, AbstractMemoryManager, AbstractTimer,
    InterruptId, ModelInterruptController, ModelLogger, ModelTimer,
};
use sophon::context::{
    AArch64Context, Context, KernelStack, EXCEPTION_FRAME_BYTES, KERNEL_STACK_SIZE,
    SPSR_KERNEL_FRESH_ENTRY,
};
use sophon::exception::ExceptionFrame;
use sophon::mem::{align_up_page, Frame, ModelMemoryManager, Page, PageFlags, PAGE_BYTES};
use sophon::scheduler::Scheduler;
use sophon::syscall::{decode_syscall, handle_syscall, SysCall};
use sophon::task::{Task, TaskId, TaskState, USER_SPACE_START};
use sophon::uart::{translate_bus_address, Log, UART0};

#[test]
fn fresh_context_resumes_at_entry_with_argument() {
    let mut ctx = AArch64Context::new(0xCAFE, 77);
    let frame = ctx.return_to_user(false, 1, 1);
    assert!(frame.synthesized);
    assert_eq!(frame.elr, 0xCAFE);
    assert_eq!(frame.spsr, SPSR_KERNEL_FRESH_ENTRY);
    assert_eq!(frame.frame_address, KERNEL_STACK_SIZE - EXCEPTION_FRAME_BYTES);
    assert_eq!(frame.status, Some(77));
    assert_eq!(frame.message, None);
    assert!(!frame.switch_address_space);
    // the staged results were consumed by exactly that resumption
    let again = ctx.return_to_user(false, 1, 1);
    assert_eq!(again.status, None);
}

#[test]
fn interrupted_context_resumes_at_pushed_frame() {
    let mut ctx = AArch64Context::new(0xCAFE, 0);
    ctx.push_exception_frame(0x5000);
    ctx.push_exception_frame(0x6000);
    let frame = ctx.return_to_user(false, 1, 2);
    assert!(!frame.synthesized);
    assert_eq!(frame.frame_address, 0x6000);
    assert!(frame.switch_address_space);
    assert_eq!(ctx.pop_exception_frame(), Some(0x5000));
    assert_eq!(ctx.pop_exception_frame(), None);
}

#[test]
fn context_fork_duplicates_and_clears_staged_results() {
    let mut ctx = AArch64Context::new(0xBEEF, 5);
    ctx.push_exception_frame(0x7000);
    let mut child = ctx.fork();
    let frame = child.return_to_user(false, 1, 1);
    // the child resumes at the same pending frame, with nothing staged
    assert!(!frame.synthesized);
    assert_eq!(frame.frame_address, 0x7000);
    assert_eq!(frame.status, None);
    assert_eq!(frame.message, None);
}

#[test]
fn kernel_stack_copy_matches() {
    let a = KernelStack::new();
    let (lo, hi) = a.range();
    assert_eq!(lo, 0);
    assert_eq!(hi, KERNEL_STACK_SIZE);
    assert_eq!(a.start_address(), 0);
    assert_eq!(a.end_address(), KERNEL_STACK_SIZE);
    let mut b = KernelStack::new();
    b.copy_from(&a);
}

#[test]
fn full_register_context_forks_through_the_memory_manager() {
    let mut mm = ModelMemoryManager::new(4);
    let ctx = Context::new(0x9000, &mut mm).unwrap();
    assert_eq!(ctx.pc, 0x9000);
    assert_eq!(ctx.sp, KERNEL_STACK_SIZE);
    assert_eq!(mm.frames_available(), 3);
    let twin = ctx.fork(&mut mm).unwrap();
    assert_eq!(twin.pc, ctx.pc);
    assert_eq!(twin.sp, ctx.sp);
    // the copied root lives in its own fresh frame
    assert_ne!(twin.p4, ctx.p4);
    assert_eq!(mm.frames_available(), 2);
    // allocation failure is reported, not hidden
    let mut empty = ModelMemoryManager::new(0);
    assert!(Context::new(0x9000, &mut empty).is_none());
}

#[test]
fn sbrk_claims_contiguous_disjoint_ranges() {
    let mut sched = Scheduler::new();
    let id = Task::create_kernel_task(&mut sched, 0x4000, 0);
    let mut mm = ModelMemoryManager::new(16);
    let task = sched.task_mut(id);
    assert_eq!(task.get_highwater(), USER_SPACE_START);
    let r1 = task.sbrk(3, &mut mm).unwrap();
    let r2 = task.sbrk(2, &mut mm).unwrap();
    // first range starts at the prior high-water mark rounded up
    assert_eq!(r1.start, Page(USER_SPACE_START / PAGE_BYTES));
    assert_eq!(r1.end, Page(USER_SPACE_START / PAGE_BYTES + 3));
    // the second range continues exactly where the first ended
    assert_eq!(r2.start, r1.end);
    assert_eq!(r2.end.0 - r1.start.0, 5);
    assert_eq!(mm.frames_available(), 11);
    // the claimed pages are mapped user-writable
    let (_, flags) = mm.translate(r1.start).unwrap();
    assert_eq!(flags, PageFlags { user: true, writable: true, executable: false });
    assert!(mm.translate(Page(r2.end.0)).is_none());
}

#[test]
fn sbrk_fails_without_frames_and_changes_nothing() {
    let mut sched = Scheduler::new();
    let id = Task::create_kernel_task(&mut sched, 0x4000, 0);
    let mut mm = ModelMemoryManager::new(1);
    let task = sched.task_mut(id);
    assert!(task.sbrk(5, &mut mm).is_none());
    assert_eq!(task.get_highwater(), USER_SPACE_START);
    assert_eq!(mm.frames_available(), 1);
}

#[test]
fn align_up_rounds_to_page_granularity() {
    assert_eq!(align_up_page(0), 0);
    assert_eq!(align_up_page(1), PAGE_BYTES);
    assert_eq!(align_up_page(PAGE_BYTES), PAGE_BYTES);
    assert_eq!(align_up_page(PAGE_BYTES + 1), 2 * PAGE_BYTES);
}

#[test]
fn syscall_decodes_and_fork_registers_a_child() {
    assert_eq!(decode_syscall(0), Some(SysCall::Fork));
    assert_eq!(decode_syscall(7), None);

    let mut sched = Scheduler::new();
    Task::create_kernel_task(&mut sched, 0xA000, 3);
    sched.schedule();
    let mut frame = ExceptionFrame {
        x0: 0,
        x1: 11,
        x2: 22,
        x3: 33,
        x4: 44,
        x5: 55,
        elr_el1: 0xA004,
        spsr_el1: 5,
    };
    let r = handle_syscall(&mut sched, &mut frame);
    assert_eq!(r, 1);
    // the result lands in the frame's result register, the rest is untouched
    assert_eq!(frame.x0, 1);
    assert_eq!(frame.x2, 22);
    // the child is registered Ready, observing zero on first resumption
    let child = sched.get_task_by_id(TaskId(1)).unwrap();
    assert_eq!(child.scheduler_state(), TaskState::Ready);
    let f = sched.task_mut(TaskId(1)).get_context().return_to_user(false, 1, 1);
    assert_eq!(f.status, Some(0));
}

#[test]
fn model_memory_manager_maps_and_unmaps() {
    let mut mm = ModelMemoryManager::new(2);
    let f = mm.alloc_frame().unwrap();
    let flags = PageFlags { user: false, writable: true, executable: false };
    mm.map(Page(9), f, flags);
    assert_eq!(mm.translate(Page(9)), Some((f, flags)));
    let newer = PageFlags { user: false, writable: false, executable: false };
    mm.update_flags(Page(9), newer);
    assert_eq!(mm.translate(Page(9)), Some((f, newer)));
    mm.unmap(Page(9));
    assert_eq!(mm.translate(Page(9)), None);
    assert!(mm.alloc_frame().is_some());
    assert!(mm.alloc_frame().is_none());
    mm.dealloc_frame(Frame(0));
    assert!(mm.alloc_frame().is_some());
}

#[test]
fn interrupt_controller_restores_state_around_critical_sections() {
    let mut ic = ModelInterruptController::new();
    ic.init();
    assert!(!ic.is_enabled());
    ic.enable();
    assert!(ic.is_enabled());
    let v = ic.uninterruptable(|| 21 * 2);
    assert_eq!(v, 42);
    assert!(ic.is_enabled());
    ic.set_handler(InterruptId::Timer, Some(0x8888));
    ic.disable();
    assert!(!ic.is_enabled());
}

#[test]
fn model_timer_and_logger_record_their_work() {
    let mut t = ModelTimer::new();
    t.init();
    t.wait(25);
    t.wait(10);
    let mut l = ModelLogger::new();
    l.put('o');
    l.put('k');
    assert_eq!(l.transcript().as_slice(), &['o', 'k']);
}

#[test]
fn uart_programs_the_pl011_and_logs_transmitted_bytes() {
    let mut uart = UART0::new();
    assert!(uart.registers().is_none());
    // the legacy bus window is relocated; other addresses pass through
    assert_eq!(translate_bus_address(0x7e20_1000), 0x7e20_1000 + 0xf000_0000);
    assert_eq!(translate_bus_address(0x3f20_1000), 0x3f20_1000);
    let base = uart.init(0x7e20_1000);
    assert_eq!(base, 0x16e20_1000);
    let regs = uart.registers().unwrap();
    assert_eq!(regs.ibrd, 26);
    assert_eq!(regs.fbrd, 3);
    assert_eq!(regs.lcrh, 0x70);
    assert_eq!(regs.cr, 0x301);
    assert_eq!(regs.icr, 0);
    assert!(!uart.transmit_fifo_full());
    uart.putchar('A');
    assert_eq!(uart.registers().unwrap().dr, 'A' as u32);
    let mut log = Log;
    log.write_str(&mut uart, "ok\n");
    assert_eq!(uart.transmitted_bytes().as_slice(), b"Aok\n");
}

fn push_be32(v: &mut Vec<u8>, x: u32) {
    v.extend_from_slice(&x.to_be_bytes());
}

/// A minimal flattened device tree holding one "arm,pl011" node.
fn tiny_device_tree(uart_base: u32) -> Vec<u8> {
    let strings = b"#address-cells\0#size-cells\0compatible\0reg\0";
    let mut s: Vec<u8> = Vec::new();
    // root node
    push_be32(&mut s, 1); // begin node
    s.extend_from_slice(b"\0\0\0\0"); // empty name, padded
    push_be32(&mut s, 3); // property
    push_be32(&mut s, 4);
    push_be32(&mut s, 0); // "#address-cells"
    push_be32(&mut s, 1);
    push_be32(&mut s, 3); // property
    push_be32(&mut s, 4);
    push_be32(&mut s, 15); // "#size-cells"
    push_be32(&mut s, 1);
    // uart node
    push_be32(&mut s, 1); // begin node
    s.extend_from_slice(b"uart@3f201000\0\0\0");
    push_be32(&mut s, 3); // property
    push_be32(&mut s, 10);
    push_be32(&mut s, 27); // "compatible"
    s.extend_from_slice(b"arm,pl011\0\0\0");
    push_be32(&mut s, 3); // property
    push_be32(&mut s, 8);
    push_be32(&mut s, 38); // "reg"
    push_be32(&mut s, uart_base);
    push_be32(&mut s, 0x1000);
    push_be32(&mut s, 2); // end node
    push_be32(&mut s, 2); // end node
    push_be32(&mut s, 9); // end of structure block

    let header_len: u32 = 40;
    let rsv_len: u32 = 16;
    let struct_off = header_len + rsv_len;
    let strings_off = struct_off + s.len() as u32;
    let total = strings_off + strings.len() as u32;
    let mut dtb: Vec<u8> = Vec::new();
    push_be32(&mut dtb, 0xd00d_feed); // magic
    push_be32(&mut dtb, total);
    push_be32(&mut dtb, struct_off);
    push_be32(&mut dtb, strings_off);
    push_be32(&mut dtb, header_len); // memory reservation block
    push_be32(&mut dtb, 17); // version
    push_be32(&mut dtb, 16); // last compatible version
    push_be32(&mut dtb, 0); // boot cpu
    push_be32(&mut dtb, strings.len() as u32);
    push_be32(&mut dtb, s.len() as u32);
    dtb.extend_from_slice(&[0u8; 16]); // empty reservation block
    dtb.extend_from_slice(&s);
    dtb.extend_from_slice(strings);
    dtb
}

#[test]
fn non_ascii_characters_transmit_their_low_byte() {
    // the console writer hands each character to putchar, which truncates
    // to the low code-point byte; a write with no device attached is a
    // silent no-op
    let mut uart = UART0::new();
    let mut log = Log;
    log.write_str(&mut uart, "x");
    assert!(uart.transmitted_bytes().is_empty());
    uart.init(0x3f20_1000);
    log.write_str(&mut uart, "é");
    assert_eq!(uart.transmitted_bytes().as_slice(), &[0xE9u8]);
}

#[test]
fn well_formed_tree_passes_the_checker() {
    assert!(sophon::dtb::dtb_valid(&tiny_device_tree(0x3f20_1000)));
}

#[test]
fn malformed_block_offsets_are_rejected_before_parsing() {
    // valid magic and total size, but a structure block lying beyond the
    // buffer: the checker refuses it, so the parser never sees it
    let mut dtb = vec![0u8; 64];
    dtb[0..4].copy_from_slice(&0xd00d_feedu32.to_be_bytes());
    dtb[4..8].copy_from_slice(&64u32.to_be_bytes());
    dtb[8..12].copy_from_slice(&0x1000u32.to_be_bytes());
    dtb[36..40].copy_from_slice(&0x40u32.to_be_bytes());
    assert!(!sophon::dtb::dtb_valid(&dtb));
    let mut uart = UART0::new();
    assert_eq!(uart.init_from_device_tree(&dtb), None);
    assert!(uart.registers().is_none());
}

#[test]
fn uart_is_found_in_the_device_tree() {
    let dtb = tiny_device_tree(0x3f20_1000);
    let mut uart = UART0::new();
    let base = uart.init_from_device_tree(&dtb);
    assert_eq!(base, Some(0x3f20_1000));
    assert_eq!(uart.registers().unwrap().cr, 0x301);
}

#[test]
fn garbage_bytes_hold_no_uart() {
    let mut uart = UART0::new();
    assert_eq!(uart.init_from_device_tree(&[0u8; 64]), None);
    assert!(uart.registers().is_none());
}
