use kernel::gdt::{build_gdt, fault_stack_top, FAULT_STACK_SIZE};
use kernel::QemuExitCode;
use x86_64::structures::tss::TaskStateSegment;

#[test]
fn exit_codes() {
    assert_eq!(QemuExitCode::Failed.code(), 0x11);
    assert_eq!(QemuExitCode::Success.code(), 0x10);
}

#[test]
fn descriptor_table_selectors() {
    let tss: &'static TaskStateSegment = Box::leak(Box::new(TaskStateSegment::new()));
    let (gdt, selectors) = build_gdt(tss);
    assert_eq!(selectors.code_selector, 8);
    assert_eq!(selectors.tss_selector, 16);
    assert_eq!(gdt.entries().len(), 4);
    assert_eq!(gdt.entries()[1].raw(), 0x00af_9b00_0000_ffff);
}

#[test]
fn fault_stack_top_of_low_stack() {
    assert_eq!(FAULT_STACK_SIZE, 0x5000);
    assert_eq!(fault_stack_top(0x1000), Some(0x6000));
}

#[test]
fn fault_stack_top_rejects_overflow() {
    assert_eq!(fault_stack_top(u64::MAX - 0x10), None);
}

#[test]
fn fault_stack_top_rejects_non_canonical() {
    assert_eq!(fault_stack_top(0x0000_7fff_ffff_f000), None);
    assert_eq!(fault_stack_top(0xffff_8000_0000_0000), Some(0xffff_8000_0000_5000));
}
