//! The trap dispatch table, what each handler decides, and the two chained
//! interrupt controllers with their acknowledgment discipline.
use vstd::prelude::*;
use crate::gdt::DOUBLE_FAULT_IST_INDEX;

verus! {

/// First vector of the master controller.
pub const PIC_1_OFFSET: u8 = 32;

/// First vector of the slave controller.
pub const PIC_2_OFFSET: u8 = PIC_1_OFFSET + 8;

/// Vector of the breakpoint exception.
pub const BREAKPOINT_VECTOR: u8 = 3;

/// Vector of the double-fault exception.
pub const DOUBLE_FAULT_VECTOR: u8 = 8;

/// Vector of the page-fault exception.
pub const PAGE_FAULT_VECTOR: u8 = 14;

/// Number of entries of the trap dispatch table.
pub const IDT_ENTRIES: usize = 256;

/// The hardware interrupt lines this kernel handles.
#[derive(Clone, Copy, Debug, PartialEq, Eq, Structural)]
pub enum InterruptIndex {
    Timer,
    Keyboard,
}

impl InterruptIndex {
    pub open spec fn vector(self) -> u8 {
        match self {
            InterruptIndex::Timer => PIC_1_OFFSET,
            InterruptIndex::Keyboard => (PIC_1_OFFSET + 1) as u8,
        }
    }

    /// The vector of the line: the timer is the master's first line, the keyboard its second.
    pub fn as_u8(self) -> (r: u8)
        ensures
            r == self.vector(),
    {
        match self {
            InterruptIndex::Timer => PIC_1_OFFSET,
            InterruptIndex::Keyboard => PIC_1_OFFSET + 1,
        }
    }

    pub fn as_usize(self) -> (r: usize)
        ensures
            r == self.vector() as usize,
    {
        self.as_u8() as usize
    }
}

/// The handlers this kernel installs.
#[derive(Clone, Copy, Debug, PartialEq, Eq, Structural)]
pub enum HandlerKind {
    Breakpoint,
    PageFault,
    DoubleFault,
    Timer,
    Keyboard,
}

/// One entry of the dispatch table: the handler, if any, and the index of
/// the backup stack it switches to, if any.
#[derive(Clone, Copy, Debug, PartialEq, Eq, Structural)]
pub struct IdtEntry {
    pub handler: Option<HandlerKind>,
    pub stack_index: Option<u16>,
}

/// The entry that `init_idt` puts at `vector`.
pub open spec fn idt_entry_for(vector: int) -> IdtEntry {
    if vector == BREAKPOINT_VECTOR {
        IdtEntry { handler: Some(HandlerKind::Breakpoint), stack_index: None }
    } else if vector == PAGE_FAULT_VECTOR {
        IdtEntry { handler: Some(HandlerKind::PageFault), stack_index: None }
    } else if vector == DOUBLE_FAULT_VECTOR {
        IdtEntry { handler: Some(HandlerKind::DoubleFault), stack_index: Some(DOUBLE_FAULT_IST_INDEX) }
    } else if vector == InterruptIndex::Timer.vector() {
        IdtEntry { handler: Some(HandlerKind::Timer), stack_index: None }
    } else if vector == InterruptIndex::Keyboard.vector() {
        IdtEntry { handler: Some(HandlerKind::Keyboard), stack_index: None }
    } else {
        IdtEntry { handler: None, stack_index: None }
    }
}

/// The trap dispatch table: one entry per vector.
pub struct InterruptDescriptorTable {
    entries: Vec<IdtEntry>,
}

impl InterruptDescriptorTable {
    pub closed spec fn view(&self) -> Seq<IdtEntry> {
        self.entries@
    }

    /// The entry of `vector`.
    pub fn entry(&self, vector: u8) -> (r: IdtEntry)
        requires
            self.view().len() == 256,
        ensures
            r == self.view()[vector as int],
    {
        self.entries[vector as usize]
    }
}

fn entry_for(vector: usize) -> (r: IdtEntry)
    requires
        vector < 256,
    ensures
        r == idt_entry_for(vector as int),
{
    if vector == BREAKPOINT_VECTOR as usize {
        IdtEntry { handler: Some(HandlerKind::Breakpoint), stack_index: None }
    } else if vector == PAGE_FAULT_VECTOR as usize {
        IdtEntry { handler: Some(HandlerKind::PageFault), stack_index: None }
    } else if vector == DOUBLE_FAULT_VECTOR as usize {
        IdtEntry { handler: Some(HandlerKind::DoubleFault), stack_index: Some(DOUBLE_FAULT_IST_INDEX) }
    } else if vector == InterruptIndex::Timer.as_usize() {
        IdtEntry { handler: Some(HandlerKind::Timer), stack_index: None }
    } else if vector == InterruptIndex::Keyboard.as_usize() {
        IdtEntry { handler: Some(HandlerKind::Keyboard), stack_index: None }
    } else {
        IdtEntry { handler: None, stack_index: None }
    }
}

/// Builds the dispatch table: breakpoint, page fault, double fault (on the
/// backup stack), timer and keyboard; every other vector is left empty.
pub fn init_idt() -> (r: InterruptDescriptorTable)
    ensures
        r.view().len() == 256,
        forall|v: int| 0 <= v < 256 ==> #[trigger] r.view()[v] == idt_entry_for(v),
{
    let mut entries: Vec<IdtEntry> = Vec::new();
    let mut v: usize = 0;
    while v < IDT_ENTRIES
        invariant
            v <= 256,
            entries@.len() == v,
            forall|w: int| 0 <= w < v ==> #[trigger] entries@[w] == idt_entry_for(w),
        decreases 256 - v,
    {
        entries.push(entry_for(v));
        v = v + 1;
    }
    InterruptDescriptorTable { entries }
}

/// What happens once a handler has run.
#[derive(Clone, Copy, Debug, PartialEq, Eq, Structural)]
pub enum TrapOutcome {
    /// The interrupted code goes on.
    Resume,
    /// The processor halts for good.
    Halt,
}

/// What a handler does: whether execution resumes, and which vector it
/// acknowledges to the interrupt controllers.
#[derive(Clone, Copy, Debug, PartialEq, Eq, Structural)]
pub struct HandlerAction {
    pub outcome: TrapOutcome,
    pub acknowledge: Option<u8>,
}

pub open spec fn action_for(kind: HandlerKind) -> HandlerAction {
    match kind {
        HandlerKind::Breakpoint => HandlerAction { outcome: TrapOutcome::Resume, acknowledge: None },
        HandlerKind::PageFault => HandlerAction { outcome: TrapOutcome::Halt, acknowledge: None },
        HandlerKind::DoubleFault => HandlerAction { outcome: TrapOutcome::Halt, acknowledge: None },
        HandlerKind::Timer => HandlerAction {
            outcome: TrapOutcome::Resume,
            acknowledge: Some(InterruptIndex::Timer.vector()),
        },
        HandlerKind::Keyboard => HandlerAction {
            outcome: TrapOutcome::Resume,
            acknowledge: Some(InterruptIndex::Keyboard.vector()),
        },
    }
}

/// The policy of each handler: a breakpoint resumes, a page fault or a double
/// fault halts, and a hardware interrupt acknowledges its own vector and resumes.
pub fn handler_action(kind: HandlerKind) -> (r: HandlerAction)
    ensures
        r == action_for(kind),
{
    match kind {
        HandlerKind::Breakpoint => HandlerAction { outcome: TrapOutcome::Resume, acknowledge: None },
        HandlerKind::PageFault => HandlerAction { outcome: TrapOutcome::Halt, acknowledge: None },
        HandlerKind::DoubleFault => HandlerAction { outcome: TrapOutcome::Halt, acknowledge: None },
        HandlerKind::Timer => HandlerAction {
            outcome: TrapOutcome::Resume,
            acknowledge: Some(InterruptIndex::Timer.as_u8()),
        },
        HandlerKind::Keyboard => HandlerAction {
            outcome: TrapOutcome::Resume,
            acknowledge: Some(InterruptIndex::Keyboard.as_u8()),
        },
    }
}

/// One of the two chained controllers.
#[derive(Clone, Copy, Debug, PartialEq, Eq, Structural)]
pub enum Controller {
    Master,
    Slave,
}

/// The state of the two controllers as the kernel tracks it: which of the
/// sixteen lines has an interrupt in service, and every acknowledgment sent.
pub struct PicState {
    pub in_service: Seq<bool>,
    pub sent: Seq<Controller>,
}

/// The line (0 to 15) of a vector in 32..48.
pub open spec fn line_of(vector: u8) -> int {
    vector - PIC_1_OFFSET
}

pub open spec fn is_hardware_vector(vector: u8) -> bool {
    PIC_1_OFFSET <= vector < PIC_2_OFFSET + 8
}

/// The controller delivers `vector` unless its line still has an
/// unacknowledged interrupt in service; a delivered line is then in service.
pub open spec fn deliver_spec(s: PicState, vector: u8) -> (PicState, bool) {
    if !is_hardware_vector(vector) || s.in_service[line_of(vector)] {
        (s, false)
    } else {
        (PicState { in_service: s.in_service.update(line_of(vector), true), sent: s.sent }, true)
    }
}

/// The acknowledgments that `vector` takes: the slave's lines are acknowledged
/// to the slave first, then to the master; other vectors take none.
pub open spec fn eoi_targets(vector: u8) -> Seq<Controller> {
    if PIC_2_OFFSET <= vector < PIC_2_OFFSET + 8 {
        seq![Controller::Slave, Controller::Master]
    } else if PIC_1_OFFSET <= vector < PIC_2_OFFSET {
        seq![Controller::Master]
    } else {
        Seq::empty()
    }
}

pub open spec fn eoi_spec(s: PicState, vector: u8) -> PicState {
    if is_hardware_vector(vector) {
        PicState {
            in_service: s.in_service.update(line_of(vector), false),
            sent: s.sent + eoi_targets(vector),
        }
    } else {
        s
    }
}

/// The two chained controllers, remapped to vectors 32 and 40.
pub struct ChainedPics {
    in_service: Vec<bool>,
    sent: Vec<Controller>,
}

impl ChainedPics {
    pub closed spec fn view(&self) -> PicState {
        PicState { in_service: self.in_service@, sent: self.sent@ }
    }

    pub open spec fn wf(&self) -> bool {
        self.view().in_service.len() == 16
    }

    /// Both controllers remapped, nothing in service, nothing acknowledged yet.
    pub fn new() -> (r: ChainedPics)
        ensures
            r.wf(),
            r.view().in_service == Seq::new(16, |i: int| false),
            r.view().sent == Seq::<Controller>::empty(),
    {
        let mut in_service: Vec<bool> = Vec::new();
        let mut i: usize = 0;
        while i < 16
            invariant
                i <= 16,
                in_service@ == Seq::new(i as nat, |j: int| false),
            decreases 16 - i,
        {
            in_service.push(false);
            i = i + 1;
        }
        ChainedPics { in_service, sent: Vec::new() }
    }

    /// Whether one of the two controllers serves `vector`.
    pub fn handles_interrupt(&self, vector: u8) -> (r: bool)
        ensures
            r == is_hardware_vector(vector),
    {
        PIC_1_OFFSET <= vector && vector < PIC_2_OFFSET + 8
    }

    /// A device raises `vector`: returns whether the processor receives it.
    pub fn deliver(&mut self, vector: u8) -> (r: bool)
        requires
            old(self).wf(),
        ensures
            final(self).wf(),
            (final(self).view(), r) == deliver_spec(old(self).view(), vector),
    {
        if !self.handles_interrupt(vector) {
            return false;
        }
        let line = (vector - PIC_1_OFFSET) as usize;
        if self.in_service[line] {
            false
        } else {
            self.in_service.set(line, true);
            true
        }
    }

    /// Acknowledges `vector` to the controllers that serve it and returns
    /// them in the order they were signalled.
    pub fn notify_end_of_interrupt(&mut self, vector: u8) -> (r: Vec<Controller>)
        requires
            old(self).wf(),
        ensures
            final(self).wf(),
            final(self).view() == eoi_spec(old(self).view(), vector),
            r@ == (if is_hardware_vector(vector) { eoi_targets(vector) } else { Seq::empty() }),
    {
        let mut targets: Vec<Controller> = Vec::new();
        if !self.handles_interrupt(vector) {
            return targets;
        }
        if vector >= PIC_2_OFFSET {
            targets.push(Controller::Slave);
            self.sent.push(Controller::Slave);
        }
        targets.push(Controller::Master);
        self.sent.push(Controller::Master);
        let line = (vector - PIC_1_OFFSET) as usize;
        self.in_service.set(line, false);
        proof {
            assert(self.view().sent =~= old(self).view().sent + eoi_targets(vector));
            assert(targets@ =~= eoi_targets(vector));
        }
        targets
    }

    /// The acknowledgments sent so far, oldest first.
    pub fn sent(&self) -> (r: Vec<Controller>)
        ensures
            r@ == self.view().sent,
    {
        self.sent.clone()
    }
}

/// One hardware interrupt on `vector` that the controllers deliver and whose
/// handler acknowledges it.
pub open spec fn handled(s: PicState, vector: u8) -> PicState {
    let (d, delivered) = deliver_spec(s, vector);
    if delivered {
        eoi_spec(d, vector)
    } else {
        d
    }
}

/// `n` timer interrupts in a row, each delivered and handled.
pub open spec fn timer_rounds(s: PicState, n: nat) -> PicState
    decreases n,
{
    if n == 0 {
        s
    } else {
        handled(timer_rounds(s, (n - 1) as nat), InterruptIndex::Timer.vector())
    }
}

/// Every timer interrupt that is handled sends exactly one acknowledgment,
/// to the master: after `n` of them, `n` acknowledgments more have been sent,
/// and the timer line is free again.
pub proof fn lemma_timer_acknowledged_once_each(s: PicState, n: nat)
    requires
        s.in_service.len() == 16,
        !s.in_service[0],
    ensures
        timer_rounds(s, n).sent == s.sent + Seq::new(n, |i: int| Controller::Master),
        timer_rounds(s, n).in_service.len() == 16,
        !timer_rounds(s, n).in_service[0],
    decreases n,
{
    if n > 0 {
        lemma_timer_acknowledged_once_each(s, (n - 1) as nat);
        let p = timer_rounds(s, (n - 1) as nat);
        assert(timer_rounds(s, n).sent =~= p.sent + seq![Controller::Master]);
        assert(s.sent + Seq::new(n, |i: int| Controller::Master) =~= (s.sent + Seq::new(
            (n - 1) as nat,
            |i: int| Controller::Master,
        )) + seq![Controller::Master]);
    }
}

/// An interrupt whose predecessor on the same line was never acknowledged is
/// not delivered, and the controllers' state does not change.
pub proof fn lemma_unacknowledged_line_blocks(s: PicState, vector: u8)
    requires
        s.in_service.len() == 16,
        is_hardware_vector(vector),
    ensures
        !deliver_spec(deliver_spec(s, vector).0, vector).1,
        deliver_spec(deliver_spec(s, vector).0, vector).0 == deliver_spec(s, vector).0,
{
}

/// The timer handler's work: acknowledge the timer vector.
pub fn timer_interrupt(pics: &mut ChainedPics) -> (r: TrapOutcome)
    requires
        old(pics).wf(),
    ensures
        final(pics).wf(),
        final(pics).view() == eoi_spec(old(pics).view(), InterruptIndex::Timer.vector()),
        r == TrapOutcome::Resume,
{
    let _ = pics.notify_end_of_interrupt(InterruptIndex::Timer.as_u8());
    TrapOutcome::Resume
}

} // verus!
