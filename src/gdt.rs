use vstd::prelude::*;
use x86_64::structures::gdt::{Descriptor, GlobalDescriptorTable};
use x86_64::structures::tss::TaskStateSegment;
use x86_64::VirtAddr;

verus! {

/// Interrupt-stack-table slot that holds the double-fault stack.
pub const DOUBLE_FAULT_1ST_INDEX: u16 = 0;

/// Size in bytes of the stack reserved for double-fault handling.
pub const FAULT_STACK_SIZE: u64 = 0x5000;

/// Entries a descriptor table can hold.
pub const GDT_CAPACITY: usize = 8;

/// The descriptor of a 64-bit kernel code segment: present, ring 0,
/// executable, long mode.
pub const KERNEL_CODE64: u64 = 0x00af_9b00_0000_ffff;

/// The task-state segment, carried through opaquely.
#[verifier::external_type_specification]
#[verifier::external_body]
pub struct ExTaskStateSegment(TaskStateSegment);

/// A segment descriptor. Its two public variants and their words are read,
/// since the table layout depends on them.
#[verifier::external_type_specification]
pub struct ExDescriptor(Descriptor);

/// The descriptor table, opaque; its entries are named by `gdt_entries`.
#[verifier::external_type_specification]
#[verifier::external_body]
pub struct ExGlobalDescriptorTable<const MAX: usize>(GlobalDescriptorTable<MAX>);

/// The 8-byte entries a descriptor table holds, the null entry first.
pub uninterp spec fn gdt_entries(t: GlobalDescriptorTable) -> Seq<u64>;

/// The table entries a descriptor takes: one for a code or data segment, two
/// for a system segment.
pub open spec fn descriptor_words(d: Descriptor) -> Seq<u64> {
    match d {
        Descriptor::UserSegment(v) => seq![v],
        Descriptor::SystemSegment(lo, hi) => seq![lo, hi],
    }
}

/// The privilege level a descriptor grants: bits 45 and 46 of its first word.
pub open spec fn descriptor_dpl(d: Descriptor) -> u64 {
    match d {
        Descriptor::UserSegment(v) => (v & (3u64 << 45u64)) >> 45u64,
        Descriptor::SystemSegment(lo, _) => (lo & (3u64 << 45u64)) >> 45u64,
    }
}

/// The value of a segment selector: table index times eight, plus the
/// requested privilege level.
pub open spec fn selector_value(index: nat, rpl: nat) -> nat {
    index * 8 + rpl
}

/// Whether bits 48 to 63 of `addr` all copy bit 47.
pub open spec fn is_canonical(addr: u64) -> bool {
    addr < 0x0000_8000_0000_0000 || addr >= 0xffff_8000_0000_0000
}

/// Relies on GlobalDescriptorTable::new: the table holds the null entry alone.
pub assume_specification[ GlobalDescriptorTable::new ]() -> (t: GlobalDescriptorTable)
    ensures
        gdt_entries(t) == seq![0u64],
;

/// Relies on Descriptor::kernel_code_segment: a code or data segment whose
/// word is the 64-bit kernel code flags.
pub assume_specification[ Descriptor::kernel_code_segment ]() -> (d: Descriptor)
    ensures
        d == Descriptor::UserSegment(KERNEL_CODE64),
;

/// Relies on Descriptor::tss_segment: a two-word system segment whose
/// privilege bits are zero (it sets only the present, base, limit and type
/// bits).
pub assume_specification[ Descriptor::tss_segment ](tss: &'static TaskStateSegment) -> (d: Descriptor)
    ensures
        descriptor_words(d).len() == 2,
        descriptor_dpl(d) == 0,
;

/// Relies on GlobalDescriptorTable::append: the descriptor's words go after
/// the existing entries, and the returned selector has the index of its first
/// word and the descriptor's privilege level. It panics without room, which
/// `requires` rules out.
#[verifier::external_body]
fn append_entry(gdt: &mut GlobalDescriptorTable, entry: Descriptor) -> (sel: u16)
    requires
        gdt_entries(*old(gdt)).len() + descriptor_words(entry).len() <= GDT_CAPACITY,
    ensures
        gdt_entries(*final(gdt)) == gdt_entries(*old(gdt)) + descriptor_words(entry),
        sel as nat == selector_value(gdt_entries(*old(gdt)).len(), descriptor_dpl(entry) as nat),
{
    gdt.append(entry).0
}

/// Relies on VirtAddr::try_new: it accepts exactly the canonical addresses
/// and keeps their value.
#[verifier::external_body]
fn canonical_addr(addr: u64) -> (r: Option<u64>)
    ensures
        r == if is_canonical(addr) { Some(addr) } else { None::<u64> },
{
    VirtAddr::try_new(addr).ok().map(|v| v.as_u64())
}

/// Selectors of the segments in the descriptor table, as raw selector values.
#[derive(Clone, Copy, Debug, PartialEq, Eq, Structural)]
pub struct Selectors {
    pub code_selector: u16,
    pub tss_selector: u16,
}

/// Builds the descriptor table: the null entry, the kernel code segment at
/// index 1, and the task-state segment `tss` at indices 2 and 3. Both
/// selectors request ring 0.
pub fn build_gdt(tss: &'static TaskStateSegment) -> (r: (GlobalDescriptorTable, Selectors))
    ensures
        gdt_entries(r.0).len() == 4,
        gdt_entries(r.0)[0] == 0,
        gdt_entries(r.0)[1] == KERNEL_CODE64,
        r.1.code_selector as nat == selector_value(1, 0),
        r.1.tss_selector as nat == selector_value(2, 0),
{
    let mut gdt = GlobalDescriptorTable::new();
    let code = Descriptor::kernel_code_segment();
    proof {
        assert((0x00af_9b00_0000_ffffu64 & (3u64 << 45u64)) >> 45u64 == 0) by (bit_vector);
    }
    let code_selector = append_entry(&mut gdt, code);
    let tss_selector = append_entry(&mut gdt, Descriptor::tss_segment(tss));
    (gdt, Selectors { code_selector, tss_selector })
}

/// The top of a fault stack of `FAULT_STACK_SIZE` bytes that starts at
/// `stack_start`, the address the processor switches to on a double fault;
/// `None` when that address overflows or is not canonical.
pub fn fault_stack_top(stack_start: u64) -> (top: Option<u64>)
    ensures
        top == if stack_start + FAULT_STACK_SIZE <= u64::MAX && is_canonical(
            (stack_start + FAULT_STACK_SIZE) as u64,
        ) {
            Some((stack_start + FAULT_STACK_SIZE) as u64)
        } else {
            None::<u64>
        },
{
    if stack_start > u64::MAX - FAULT_STACK_SIZE {
        None
    } else {
        canonical_addr(stack_start + FAULT_STACK_SIZE)
    }
}

} // verus!
