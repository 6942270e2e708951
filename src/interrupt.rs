use vstd::prelude::*;

use crate::gdt::DOUBLE_FAULT_1ST_INDEX;

verus! {

/// First vector of the primary interrupt controller after remapping.
pub const PIC1_OFFSET: u8 = 32;

/// First vector of the secondary interrupt controller after remapping.
pub const PIC2_OFFSET: u8 = 40;

/// Mask of the primary controller written at start-up: only the timer line is on.
pub const PIC1_STARTUP_MASK: u8 = 0b1111_1110;

/// Mask of the secondary controller written at start-up: every line is off.
pub const PIC2_STARTUP_MASK: u8 = 0b1111_1111;

/// The primary controller's line that the secondary controller is chained to.
pub const CASCADE_LINE: u8 = 2;

/// Number of frame tags a call stack can hold.
pub const CALL_STACK_CAPACITY: usize = 256;

/// A bounded record of the instrumented routines currently running, innermost
/// last, kept for the panic path where no unwinding is available.
pub struct CallStack {
    depth: usize,
    frames: Vec<u8>,
}

impl View for CallStack {
    type V = Seq<u8>;

    /// The tags pushed and not yet popped, outermost first.
    closed spec fn view(&self) -> Seq<u8> {
        self.frames@.take(self.depth as int)
    }
}

impl CallStack {
    /// The call stack's invariant.
    pub closed spec fn wf(&self) -> bool {
        &&& self.frames@.len() == CALL_STACK_CAPACITY
        &&& self.depth <= CALL_STACK_CAPACITY
    }

    /// An empty call stack.
    pub fn new() -> (cs: CallStack)
        ensures
            cs.wf(),
            cs@ == Seq::<u8>::empty(),
    {
        let cs = CallStack { depth: 0, frames: vec![0u8; CALL_STACK_CAPACITY] };
        proof {
            assert(cs@ =~= Seq::<u8>::empty());
        }
        cs
    }

    /// Number of tags on the stack.
    pub fn depth(&self) -> (d: usize)
        requires
            self.wf(),
        ensures
            d == self@.len(),
    {
        self.depth
    }

    /// The tag at position `i`, counted from the outermost frame.
    pub fn frame(&self, i: usize) -> (t: u8)
        requires
            self.wf(),
            i < self@.len(),
        ensures
            t == self@[i as int],
    {
        self.frames[i]
    }

    /// The innermost tag, if any.
    pub fn top(&self) -> (t: Option<u8>)
        requires
            self.wf(),
        ensures
            self@.len() == 0 ==> t.is_none(),
            self@.len() > 0 ==> t == Some(self@.last()),
    {
        if self.depth == 0 {
            None
        } else {
            Some(self.frames[self.depth - 1])
        }
    }
}

/// Records entry into the routine tagged `fn_name`. Callers keep the nesting
/// within `CALL_STACK_CAPACITY`.
pub fn push_call_stack(call_stack: &mut CallStack, fn_name: u8)
    requires
        old(call_stack).wf(),
        old(call_stack)@.len() < CALL_STACK_CAPACITY,
    ensures
        final(call_stack).wf(),
        final(call_stack)@ == old(call_stack)@.push(fn_name),
{
    let d = call_stack.depth;
    call_stack.frames.set(d, fn_name);
    call_stack.depth = d + 1;
    proof {
        assert(call_stack@ =~= old(call_stack)@.push(fn_name));
    }
}

/// Records exit from the innermost instrumented routine. Callers pop only
/// what they pushed.
pub fn pop_call_stack(call_stack: &mut CallStack)
    requires
        old(call_stack).wf(),
        old(call_stack)@.len() > 0,
    ensures
        final(call_stack).wf(),
        final(call_stack)@ == old(call_stack)@.drop_last(),
{
    call_stack.depth = call_stack.depth - 1;
    proof {
        assert(call_stack@ =~= old(call_stack)@.drop_last());
    }
}

/// The hardware interrupt lines this kernel handles, by controller line.
#[derive(Clone, Copy, Debug, PartialEq, Eq, Structural)]
pub enum InterruptIndex {
    Timer,
    Keyboard,
}

impl InterruptIndex {
    /// The controller line of this interrupt.
    pub open spec fn line_spec(self) -> u8 {
        match self {
            InterruptIndex::Timer => 0,
            InterruptIndex::Keyboard => 1,
        }
    }

    /// The controller line of this interrupt.
    pub fn line(self) -> (l: u8)
        ensures
            l == self.line_spec(),
    {
        match self {
            InterruptIndex::Timer => 0,
            InterruptIndex::Keyboard => 1,
        }
    }

    /// The vector this interrupt arrives on: the primary controller's offset
    /// plus its line.
    pub fn as_u8(self) -> (v: u8)
        ensures
            v == PIC1_OFFSET + self.line_spec(),
    {
        PIC1_OFFSET + self.line()
    }
}

/// The two chained interrupt controllers as this kernel programs them: their
/// vector offsets and the mask last written to each (a set bit turns a line
/// off).
#[derive(Clone, Copy, Debug, PartialEq, Eq, Structural)]
pub struct PicState {
    pub primary_offset: u8,
    pub secondary_offset: u8,
    pub primary_mask: u8,
    pub secondary_mask: u8,
}

/// Whether bit `i` of `mask` is clear.
pub open spec fn bit_clear(mask: u8, i: u8) -> bool {
    mask & (1u8 << i) == 0
}

impl PicState {
    /// Whether hardware line `line` (0 to 7 on the primary controller, 8 to 15
    /// on the secondary) is delivered: its own bit is clear and, for the
    /// secondary controller, so is the primary's cascade line.
    pub open spec fn line_enabled(self, line: u8) -> bool {
        if line < 8 {
            bit_clear(self.primary_mask, line)
        } else if line < 16 {
            bit_clear(self.secondary_mask, (line - 8) as u8) && bit_clear(self.primary_mask, CASCADE_LINE)
        } else {
            false
        }
    }

    /// The controllers remapped to `PIC1_OFFSET` and `PIC2_OFFSET`, with the
    /// given masks written after the remap.
    pub fn remapped(mask1: u8, mask2: u8) -> (p: PicState)
        ensures
            p.primary_offset == PIC1_OFFSET,
            p.secondary_offset == PIC2_OFFSET,
            p.primary_mask == mask1,
            p.secondary_mask == mask2,
    {
        PicState {
            primary_offset: PIC1_OFFSET,
            secondary_offset: PIC2_OFFSET,
            primary_mask: mask1,
            secondary_mask: mask2,
        }
    }

    /// The start-up configuration: remapped, with only the timer line on.
    pub fn startup() -> (p: PicState)
        ensures
            p.primary_offset == PIC1_OFFSET,
            p.secondary_offset == PIC2_OFFSET,
            p.primary_mask == PIC1_STARTUP_MASK,
            p.secondary_mask == PIC2_STARTUP_MASK,
    {
        PicState::remapped(PIC1_STARTUP_MASK, PIC2_STARTUP_MASK)
    }

    /// Whether hardware line `line` is delivered.
    pub fn is_line_enabled(&self, line: u8) -> (r: bool)
        ensures
            r == self.line_enabled(line),
    {
        if line < 8 {
            self.primary_mask & (1u8 << line) == 0
        } else if line < 16 {
            self.secondary_mask & (1u8 << (line - 8)) == 0 && self.primary_mask & (1u8 << CASCADE_LINE) == 0
        } else {
            false
        }
    }

    /// Whether `irq` is delivered.
    pub fn is_enabled(&self, irq: InterruptIndex) -> (r: bool)
        ensures
            r == self.line_enabled(irq.line_spec()),
    {
        self.is_line_enabled(irq.line())
    }

    /// The vector hardware line `line` arrives on.
    pub fn vector_of_line(&self, line: u8) -> (v: u8)
        requires
            line < 16,
            self.primary_offset <= 255 - 8,
            self.secondary_offset <= 255 - 8,
        ensures
            line < 8 ==> v == self.primary_offset + line,
            line >= 8 ==> v == self.secondary_offset + (line - 8),
    {
        if line < 8 {
            self.primary_offset + line
        } else {
            self.secondary_offset + (line - 8)
        }
    }
}

/// The remapped vector ranges of the two controllers do not meet each other
/// nor the 32 vectors the processor reserves for its exceptions.
pub proof fn lemma_remap_ranges_disjoint()
    ensures
        PIC1_OFFSET >= 32,
        PIC1_OFFSET + 8 <= PIC2_OFFSET,
        PIC2_OFFSET + 8 <= 256,
{
}

/// Under the start-up masks exactly the timer line is delivered.
pub proof fn lemma_startup_masks_timer_only(line: u8)
    ensures
        (PicState {
            primary_offset: PIC1_OFFSET,
            secondary_offset: PIC2_OFFSET,
            primary_mask: PIC1_STARTUP_MASK,
            secondary_mask: PIC2_STARTUP_MASK,
        }).line_enabled(line) <==> line == InterruptIndex::Timer.line_spec(),
{
    assert(forall|i: u8| i < 8 ==> (#[trigger] (0b1111_1110u8 & (1u8 << i)) == 0 <==> i == 0)) by (bit_vector);
    assert(forall|i: u8| i < 8 ==> #[trigger] (0b1111_1111u8 & (1u8 << i)) != 0) by (bit_vector);
}

/// The traps this kernel installs a handler for.
#[derive(Clone, Copy, Debug, PartialEq, Eq, Structural)]
pub enum TrapKind {
    Breakpoint,
    DoubleFault,
    GeneralProtection,
    Timer,
    Keyboard,
}

/// What happens after a trap's handler has run.
#[derive(Clone, Copy, Debug, PartialEq, Eq, Structural)]
pub enum TrapOutcome {
    /// Execution continues at the next instruction.
    Resume,
    /// The processor halts for good.
    Halt,
}

/// Processor exception vector of the breakpoint trap.
pub const BREAKPOINT_VECTOR: u8 = 3;

/// Processor exception vector of the double fault.
pub const DOUBLE_FAULT_VECTOR: u8 = 8;

/// Processor exception vector of the general protection fault.
pub const GENERAL_PROTECTION_VECTOR: u8 = 13;

impl TrapKind {
    /// The vector the trap arrives on.
    pub open spec fn vector_spec(self) -> u8 {
        match self {
            TrapKind::Breakpoint => BREAKPOINT_VECTOR,
            TrapKind::DoubleFault => DOUBLE_FAULT_VECTOR,
            TrapKind::GeneralProtection => GENERAL_PROTECTION_VECTOR,
            TrapKind::Timer => (PIC1_OFFSET + InterruptIndex::Timer.line_spec()) as u8,
            TrapKind::Keyboard => (PIC1_OFFSET + InterruptIndex::Keyboard.line_spec()) as u8,
        }
    }

    /// The vector the trap arrives on.
    pub fn vector(self) -> (v: u8)
        ensures
            v == self.vector_spec(),
    {
        match self {
            TrapKind::Breakpoint => BREAKPOINT_VECTOR,
            TrapKind::DoubleFault => DOUBLE_FAULT_VECTOR,
            TrapKind::GeneralProtection => GENERAL_PROTECTION_VECTOR,
            TrapKind::Timer => InterruptIndex::Timer.as_u8(),
            TrapKind::Keyboard => InterruptIndex::Keyboard.as_u8(),
        }
    }

    /// The handler installed for `vector`, if any.
    pub fn for_vector(vector: u8) -> (t: Option<TrapKind>)
        ensures
            t.is_none() ==> forall|k: TrapKind| #[trigger] k.vector_spec() != vector,
            t.is_some() ==> t.unwrap().vector_spec() == vector,
    {
        if vector == BREAKPOINT_VECTOR {
            Some(TrapKind::Breakpoint)
        } else if vector == DOUBLE_FAULT_VECTOR {
            Some(TrapKind::DoubleFault)
        } else if vector == GENERAL_PROTECTION_VECTOR {
            Some(TrapKind::GeneralProtection)
        } else if vector == InterruptIndex::Timer.as_u8() {
            Some(TrapKind::Timer)
        } else if vector == InterruptIndex::Keyboard.as_u8() {
            Some(TrapKind::Keyboard)
        } else {
            proof {
                assert forall|k: TrapKind| #[trigger] k.vector_spec() != vector by {
                    match k {
                        TrapKind::Breakpoint => {},
                        TrapKind::DoubleFault => {},
                        TrapKind::GeneralProtection => {},
                        TrapKind::Timer => {},
                        TrapKind::Keyboard => {},
                    }
                }
            }
            None
        }
    }

    /// Breakpoints resume; faults halt, since there is nothing to recover
    /// into; hardware lines resume once acknowledged.
    pub open spec fn outcome_spec(self) -> TrapOutcome {
        match self {
            TrapKind::DoubleFault | TrapKind::GeneralProtection => TrapOutcome::Halt,
            _ => TrapOutcome::Resume,
        }
    }

    /// What follows the trap's handler.
    pub fn outcome(self) -> (o: TrapOutcome)
        ensures
            o == self.outcome_spec(),
    {
        match self {
            TrapKind::DoubleFault | TrapKind::GeneralProtection => TrapOutcome::Halt,
            _ => TrapOutcome::Resume,
        }
    }

    /// The hardware line the handler must acknowledge before returning, for
    /// traps raised by an interrupt controller.
    pub fn end_of_interrupt(self) -> (irq: Option<InterruptIndex>)
        ensures
            irq == match self {
                TrapKind::Timer => Some(InterruptIndex::Timer),
                TrapKind::Keyboard => Some(InterruptIndex::Keyboard),
                _ => None::<InterruptIndex>,
            },
    {
        match self {
            TrapKind::Timer => Some(InterruptIndex::Timer),
            TrapKind::Keyboard => Some(InterruptIndex::Keyboard),
            _ => None,
        }
    }

    /// The interrupt-stack-table slot the handler switches to: the dedicated
    /// fault stack for a double fault, and none for the others.
    pub fn stack_index(self) -> (i: Option<u16>)
        ensures
            i == if self == TrapKind::DoubleFault { Some(DOUBLE_FAULT_1ST_INDEX) } else { None::<u16> },
    {
        match self {
            TrapKind::DoubleFault => Some(DOUBLE_FAULT_1ST_INDEX),
            _ => None,
        }
    }
}

/// The traps raised by an interrupt controller are exactly those on vectors
/// from `PIC1_OFFSET` up, and their handlers return rather than halt.
pub proof fn lemma_hardware_lines_acknowledged(k: TrapKind)
    ensures
        (k == TrapKind::Timer || k == TrapKind::Keyboard) ==> k.outcome_spec() == TrapOutcome::Resume,
        k.vector_spec() >= PIC1_OFFSET <==> (k == TrapKind::Timer || k == TrapKind::Keyboard),
{
}

/// Where the interrupt subsystem stands in its start-up.
#[derive(Clone, Copy, Debug, PartialEq, Eq, Structural)]
pub enum InterruptStage {
    Uninitialized,
    TableLoaded,
    ControllerConfigured,
    Enabled,
}

/// One start-up action of the interrupt subsystem.
#[derive(Clone, Copy, Debug, PartialEq, Eq, Structural)]
pub enum InterruptStep {
    /// Load the vector table into the processor.
    LoadTable,
    /// Remap the controllers and write their masks.
    ConfigureController,
    /// Set the processor's interrupt flag.
    EnableInterrupts,
}

impl InterruptStage {
    /// The stage after `step`, or `None` when `step` is out of order.
    pub open spec fn next_spec(self, step: InterruptStep) -> Option<InterruptStage> {
        match (self, step) {
            (InterruptStage::Uninitialized, InterruptStep::LoadTable) => Some(
                InterruptStage::TableLoaded,
            ),
            (InterruptStage::TableLoaded, InterruptStep::ConfigureController) => Some(
                InterruptStage::ControllerConfigured,
            ),
            (InterruptStage::ControllerConfigured, InterruptStep::EnableInterrupts) => Some(
                InterruptStage::Enabled,
            ),
            _ => None,
        }
    }

    /// The stage after `step`; `None` when `step` is out of order, so that
    /// interrupts are never enabled before the controllers are configured.
    pub fn next(self, step: InterruptStep) -> (r: Option<InterruptStage>)
        ensures
            r == self.next_spec(step),
    {
        match (self, step) {
            (InterruptStage::Uninitialized, InterruptStep::LoadTable) => Some(
                InterruptStage::TableLoaded,
            ),
            (InterruptStage::TableLoaded, InterruptStep::ConfigureController) => Some(
                InterruptStage::ControllerConfigured,
            ),
            (InterruptStage::ControllerConfigured, InterruptStep::EnableInterrupts) => Some(
                InterruptStage::Enabled,
            ),
            _ => None,
        }
    }
}

/// The stage reached from `start` by taking `steps` in turn, or `None` if one
/// of them is out of order.
pub open spec fn run_steps(start: InterruptStage, steps: Seq<InterruptStep>) -> Option<InterruptStage>
    decreases steps.len(),
{
    if steps.len() == 0 {
        Some(start)
    } else {
        match run_steps(start, steps.drop_last()) {
            Some(s) => s.next_spec(steps.last()),
            None => None,
        }
    }
}

/// The only way from an uninitialized subsystem to enabled interrupts is to
/// load the table, configure the controllers, and enable, in that order.
pub proof fn lemma_enable_only_in_order(steps: Seq<InterruptStep>)
    requires
        run_steps(InterruptStage::Uninitialized, steps) == Some(InterruptStage::Enabled),
    ensures
        steps == seq![
            InterruptStep::LoadTable,
            InterruptStep::ConfigureController,
            InterruptStep::EnableInterrupts,
        ],
{
    lemma_stage_depth(steps);
    let s2 = steps.drop_last();
    let s1 = s2.drop_last();
    let s0 = s1.drop_last();
    assert(s0.len() == 0);
    assert(steps =~= seq![
        InterruptStep::LoadTable,
        InterruptStep::ConfigureController,
        InterruptStep::EnableInterrupts,
    ]);
}

/// Each stage is reached after exactly as many steps as it is far from the
/// start, and only through the steps before it.
proof fn lemma_stage_depth(steps: Seq<InterruptStep>)
    ensures
        run_steps(InterruptStage::Uninitialized, steps) == Some(InterruptStage::Uninitialized)
            ==> steps.len() == 0,
        run_steps(InterruptStage::Uninitialized, steps) == Some(InterruptStage::TableLoaded) ==> {
            &&& steps.len() == 1
            &&& steps[0] == InterruptStep::LoadTable
        },
        run_steps(InterruptStage::Uninitialized, steps) == Some(InterruptStage::ControllerConfigured)
            ==> {
            &&& steps.len() == 2
            &&& steps[0] == InterruptStep::LoadTable
            &&& steps[1] == InterruptStep::ConfigureController
        },
        run_steps(InterruptStage::Uninitialized, steps) == Some(InterruptStage::Enabled) ==> {
            &&& steps.len() == 3
            &&& steps[0] == InterruptStep::LoadTable
            &&& steps[1] == InterruptStep::ConfigureController
            &&& steps[2] == InterruptStep::EnableInterrupts
        },
    decreases steps.len(),
{
    if steps.len() > 0 {
        let head = steps.drop_last();
        lemma_stage_depth(head);
        if steps.len() >= 2 {
            assert(steps[0] == head[0]);
        }
        if steps.len() >= 3 {
            assert(steps[1] == head[1]);
        }
    }
}

} // verus!
