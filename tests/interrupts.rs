use kernel::gdt::DOUBLE_FAULT_1ST_INDEX;
use kernel::interrupt::{
    pop_call_stack, push_call_stack, CallStack, InterruptIndex, InterruptStage, InterruptStep,
    PicState, TrapKind, TrapOutcome,
    PIC1_OFFSET, PIC1_STARTUP_MASK, PIC2_OFFSET, PIC2_STARTUP_MASK,
};

#[test]
fn call_stack_push_push_pop() {
    let mut cs = CallStack::new();
    push_call_stack(&mut cs, 0);
    push_call_stack(&mut cs, 1);
    pop_call_stack(&mut cs);
    assert_eq!(cs.depth(), 1);
    assert_eq!(cs.top(), Some(0));
    assert_eq!(cs.frame(0), 0);
}

#[test]
fn empty_call_stack() {
    let cs = CallStack::new();
    assert_eq!(cs.depth(), 0);
    assert_eq!(cs.top(), None);
}

#[test]
fn call_stack_fills_to_capacity() {
    let mut cs = CallStack::new();
    for i in 0..256usize {
        push_call_stack(&mut cs, i as u8);
    }
    assert_eq!(cs.depth(), 256);
    assert_eq!(cs.top(), Some(255));
    assert_eq!(cs.frame(17), 17);
}

#[test]
fn remap_mask_enables_timer_only() {
    let pics = PicState::remapped(0b1111_1110, 0b1111_1111);
    assert!(pics.is_enabled(InterruptIndex::Timer));
    assert!(!pics.is_enabled(InterruptIndex::Keyboard));
    for line in 1..16 {
        assert!(!pics.is_line_enabled(line));
    }
    assert!(!pics.is_line_enabled(200));
}

#[test]
fn startup_pics() {
    let pics = PicState::startup();
    assert_eq!(pics.primary_offset, 32);
    assert_eq!(pics.secondary_offset, 40);
    assert_eq!(pics.primary_mask, PIC1_STARTUP_MASK);
    assert_eq!(pics.secondary_mask, PIC2_STARTUP_MASK);
    assert_eq!(pics.vector_of_line(0), 32);
    assert_eq!(pics.vector_of_line(9), 41);
}

#[test]
fn secondary_lines_need_cascade() {
    let pics = PicState::remapped(0b1111_1011, 0b1111_1110);
    assert!(pics.is_line_enabled(8));
    assert!(!pics.is_line_enabled(9));
    let cut = PicState::remapped(0b1111_1111, 0b1111_1110);
    assert!(!cut.is_line_enabled(8));
}

#[test]
fn interrupt_index_vectors() {
    assert_eq!(PIC1_OFFSET, 32);
    assert_eq!(PIC2_OFFSET, 40);
    assert_eq!(InterruptIndex::Timer.as_u8(), 32);
    assert_eq!(InterruptIndex::Keyboard.as_u8(), 33);
}

#[test]
fn breakpoint_resumes() {
    assert_eq!(TrapKind::Breakpoint.outcome(), TrapOutcome::Resume);
    assert_eq!(TrapKind::Breakpoint.vector(), 3);
    assert_eq!(TrapKind::Breakpoint.end_of_interrupt(), None);
}

#[test]
fn faults_halt() {
    assert_eq!(TrapKind::DoubleFault.outcome(), TrapOutcome::Halt);
    assert_eq!(TrapKind::GeneralProtection.outcome(), TrapOutcome::Halt);
    assert_eq!(TrapKind::DoubleFault.stack_index(), Some(DOUBLE_FAULT_1ST_INDEX));
    assert_eq!(TrapKind::GeneralProtection.stack_index(), None);
}

#[test]
fn hardware_lines_are_acknowledged() {
    assert_eq!(TrapKind::Timer.end_of_interrupt(), Some(InterruptIndex::Timer));
    assert_eq!(TrapKind::Keyboard.end_of_interrupt(), Some(InterruptIndex::Keyboard));
    assert_eq!(TrapKind::Timer.outcome(), TrapOutcome::Resume);
}

#[test]
fn vector_table_lookup() {
    assert_eq!(TrapKind::for_vector(3), Some(TrapKind::Breakpoint));
    assert_eq!(TrapKind::for_vector(8), Some(TrapKind::DoubleFault));
    assert_eq!(TrapKind::for_vector(13), Some(TrapKind::GeneralProtection));
    assert_eq!(TrapKind::for_vector(32), Some(TrapKind::Timer));
    assert_eq!(TrapKind::for_vector(33), Some(TrapKind::Keyboard));
    assert_eq!(TrapKind::for_vector(34), None);
    assert_eq!(TrapKind::for_vector(0), None);
}

#[test]
fn interrupt_startup_in_order() {
    let s = InterruptStage::Uninitialized;
    let s = s.next(InterruptStep::LoadTable).unwrap();
    assert_eq!(s, InterruptStage::TableLoaded);
    let s = s.next(InterruptStep::ConfigureController).unwrap();
    assert_eq!(s, InterruptStage::ControllerConfigured);
    let s = s.next(InterruptStep::EnableInterrupts).unwrap();
    assert_eq!(s, InterruptStage::Enabled);
}

#[test]
fn interrupt_startup_out_of_order() {
    assert_eq!(InterruptStage::Uninitialized.next(InterruptStep::EnableInterrupts), None);
    assert_eq!(InterruptStage::TableLoaded.next(InterruptStep::EnableInterrupts), None);
    assert_eq!(InterruptStage::Enabled.next(InterruptStep::LoadTable), None);
}
