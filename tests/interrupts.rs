use pc_keyboard::{KeyCode, KeyEvent, KeyState};
use rust_os::keyboard::key_event_of;
use rust_os::gdt::{double_fault_stack_top, selectors, DOUBLE_FAULT_IST_INDEX, STACK_SIZE};
use rust_os::interrupts::{
    handler_action, init_idt, timer_interrupt, ChainedPics, Controller, HandlerKind,
    InterruptIndex, TrapOutcome, PIC_1_OFFSET, PIC_2_OFFSET,
};
use rust_os::keyboard::{keyboard_interrupt, Key, KeyboardDecoder};
use rust_os::{test_runner, QemuExitCode, Testable};

#[test]
fn interrupt_index_vectors() {
    assert_eq!(InterruptIndex::Timer.as_u8(), 32);
    assert_eq!(InterruptIndex::Keyboard.as_u8(), 33);
    assert_eq!(InterruptIndex::Keyboard.as_usize(), 33usize);
    assert_eq!(PIC_1_OFFSET, 32);
    assert_eq!(PIC_2_OFFSET, 40);
}

#[test]
fn idt_has_the_five_handlers() {
    let idt = init_idt();
    assert_eq!(idt.entry(3).handler, Some(HandlerKind::Breakpoint));
    assert_eq!(idt.entry(14).handler, Some(HandlerKind::PageFault));
    assert_eq!(idt.entry(8).handler, Some(HandlerKind::DoubleFault));
    assert_eq!(idt.entry(32).handler, Some(HandlerKind::Timer));
    assert_eq!(idt.entry(33).handler, Some(HandlerKind::Keyboard));
    assert_eq!(idt.entry(0).handler, None);
    assert_eq!(idt.entry(255).handler, None);
}

#[test]
fn only_double_fault_switches_stack() {
    let idt = init_idt();
    for v in 0..=255u8 {
        let expected = if v == 8 { Some(DOUBLE_FAULT_IST_INDEX) } else { None };
        assert_eq!(idt.entry(v).stack_index, expected);
    }
}

#[test]
fn breakpoint_resumes() {
    let a = handler_action(HandlerKind::Breakpoint);
    assert_eq!(a.outcome, TrapOutcome::Resume);
    assert_eq!(a.acknowledge, None);
}

#[test]
fn faults_halt() {
    assert_eq!(handler_action(HandlerKind::DoubleFault).outcome, TrapOutcome::Halt);
    assert_eq!(handler_action(HandlerKind::PageFault).outcome, TrapOutcome::Halt);
}

#[test]
fn hardware_handlers_acknowledge_their_vector() {
    assert_eq!(handler_action(HandlerKind::Timer).acknowledge, Some(32));
    assert_eq!(handler_action(HandlerKind::Keyboard).acknowledge, Some(33));
}

#[test]
fn n_timer_interrupts_n_acknowledgments() {
    let mut pics = ChainedPics::new();
    for _ in 0..5 {
        assert!(pics.deliver(32));
        assert_eq!(timer_interrupt(&mut pics), TrapOutcome::Resume);
    }
    assert_eq!(pics.sent(), vec![Controller::Master; 5]);
}

#[test]
fn withheld_acknowledgment_blocks_line() {
    let mut pics = ChainedPics::new();
    assert!(pics.deliver(32));
    assert!(!pics.deliver(32));
    assert!(pics.deliver(33));
    pics.notify_end_of_interrupt(32);
    assert!(pics.deliver(32));
}

#[test]
fn slave_line_acknowledged_slave_first() {
    let mut pics = ChainedPics::new();
    assert!(pics.deliver(44));
    assert_eq!(pics.notify_end_of_interrupt(44), vec![Controller::Slave, Controller::Master]);
    assert_eq!(pics.notify_end_of_interrupt(3), vec![]);
    assert!(!pics.handles_interrupt(48));
    assert!(pics.handles_interrupt(47));
}

#[test]
fn keyboard_interrupt_decodes_and_acknowledges() {
    let mut decoder = KeyboardDecoder::new();
    let mut pics = ChainedPics::new();
    assert!(pics.deliver(33));
    match keyboard_interrupt(&mut decoder, &mut pics, 0x1e) {
        Some(Key::Unicode(c)) => assert_eq!(c, 'a'),
        _ => panic!("expected the key a"),
    }
    assert_eq!(pics.sent(), vec![Controller::Master]);
    // the release of the same key yields no key, and is acknowledged too
    assert!(pics.deliver(33));
    assert!(keyboard_interrupt(&mut decoder, &mut pics, 0x9e).is_none());
    assert_eq!(pics.sent().len(), 2);
}

#[test]
fn selectors_follow_null_descriptor() {
    let s = selectors();
    assert_eq!(s.code_selector, 8);
    assert_eq!(s.tss_selector, 16);
}

#[test]
fn backup_stack_top_is_end_of_region() {
    assert_eq!(double_fault_stack_top(0x1000), Some(0x1000 + STACK_SIZE));
    assert_eq!(STACK_SIZE, 20480);
    assert_eq!(double_fault_stack_top(u64::MAX - 10), None);
}

#[test]
fn exit_codes() {
    assert_eq!(QemuExitCode::Success.code(), 0x10);
    assert_eq!(QemuExitCode::Failed.code(), 0x11);
}

struct Counting<'a>(&'a std::cell::Cell<u32>);

impl Testable for Counting<'_> {
    fn run(&self) {
        self.0.set(self.0.get() + 1);
    }
}

#[test]
fn runner_runs_every_test() {
    let count = std::cell::Cell::new(0);
    let tests = [Counting(&count), Counting(&count), Counting(&count)];
    assert_eq!(test_runner(&tests), QemuExitCode::Success);
    assert_eq!(count.get(), 3);
}

#[test]
fn key_event_taken_only_when_complete() {
    let ev = KeyEvent::new(KeyCode::A, KeyState::Down);
    assert_eq!(key_event_of(Ok(Some(ev.clone()))), Some(ev));
    assert_eq!(key_event_of(Ok(None)), None);
    assert_eq!(key_event_of(Err(pc_keyboard::Error::BadStartBit)), None);
}
