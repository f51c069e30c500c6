//! Interrupt dispatch: 256 gate descriptors, the trap frame that the shared
//! entry stub builds, the table of handlers, and the delivery of an
//! interrupt to ring 0 as the CPU performs it.
use vstd::prelude::*;
use crate::gdt::{TssEntry, KERNEL_CODE_SELECTOR, KERNEL_DATA_SELECTOR};

verus! {

pub const IDT_SIZE: usize = 256;
pub const GATE_PRESENT: u8 = 0x80;
/// Descriptor privilege level 3: the vector may be raised from ring 3.
pub const GATE_USER: u8 = 0x60;
pub const INTERRUPT_GATE: u8 = 0x0E;
/// Bytes in a trap frame.
pub const FRAME_SIZE: u32 = 76;
/// Vectors of the CPU exceptions.
pub const EXCEPTION_COUNT: usize = 32;
/// Interrupt-enable bit of EFLAGS.
pub const EFLAGS_IF: u32 = 0x200;

/// The trap frame, in the order the entry stub leaves it on the kernel
/// stack: `pusha` registers, data segments, vector and error code, then
/// what the CPU pushed.
#[derive(Clone, Copy, Debug, PartialEq, Eq, Structural)]
pub struct Registers {
    pub edi: u32,
    pub esi: u32,
    pub ebp: u32,
    pub esp: u32,
    pub ebx: u32,
    pub edx: u32,
    pub ecx: u32,
    pub eax: u32,
    pub gs: u32,
    pub fs: u32,
    pub es: u32,
    pub ds: u32,
    pub int_no: u32,
    pub err_code: u32,
    pub eip: u32,
    pub cs: u32,
    pub eflags: u32,
    pub useresp: u32,
    pub ss: u32,
}

/// The general-purpose registers.
#[derive(Clone, Copy, Debug, PartialEq, Eq, Structural)]
pub struct Gprs {
    pub edi: u32,
    pub esi: u32,
    pub ebp: u32,
    pub ebx: u32,
    pub edx: u32,
    pub ecx: u32,
    pub eax: u32,
}

/// The processor state this kernel reads and writes.
#[derive(Clone, Copy, Debug, PartialEq, Eq, Structural)]
pub struct Cpu {
    pub gprs: Gprs,
    pub esp: u32,
    pub eip: u32,
    pub eflags: u32,
    pub cs: u16,
    pub ss: u16,
    pub ds: u16,
    pub es: u16,
    pub fs: u16,
    pub gs: u16,
    pub cr0: u32,
    pub cr2: u32,
    pub cr3: u32,
    /// The task register's selector.
    pub tr: u16,
}

/// Current privilege level.
pub open spec fn cpl(cpu: Cpu) -> int {
    cpu.cs as int % 4
}

/// A gate descriptor.
#[derive(Clone, Copy, Debug, PartialEq, Eq, Structural)]
pub struct IdtEntry {
    pub handler_low: u16,
    pub selector: u16,
    pub always0: u8,
    pub flags: u8,
    pub handler_high: u16,
}

pub open spec fn idt_entry(handler: u32, selector: u16, flags: u8) -> IdtEntry {
    IdtEntry {
        handler_low: (handler % 0x10000) as u16,
        selector,
        always0: 0,
        flags,
        handler_high: (handler / 0x10000) as u16,
    }
}

/// Entry point a gate names.
pub open spec fn gate_handler(e: IdtEntry) -> int {
    e.handler_low + e.handler_high * 0x10000
}

pub open spec fn gate_present(e: IdtEntry) -> bool {
    e.flags >= 0x80
}

/// Descriptor privilege level of a gate.
pub open spec fn gate_dpl(e: IdtEntry) -> int {
    (e.flags as int / 32) % 4
}

impl IdtEntry {
    pub fn new(handler: u32, selector: u16, flags: u8) -> (r: IdtEntry)
        ensures
            r == idt_entry(handler, selector, flags),
            gate_handler(r) == handler,
    {
        assert(handler & 0xFFFF == handler % 0x10000 && (handler >> 16) & 0xFFFF == handler / 0x10000)
            by (bit_vector);
        IdtEntry {
            handler_low: (handler & 0xFFFF) as u16,
            selector,
            always0: 0,
            flags,
            handler_high: ((handler >> 16) & 0xFFFF) as u16,
        }
    }
}

/// The operand of `lidt`.
#[derive(Clone, Copy, Debug, PartialEq, Eq, Structural)]
pub struct IdtPtr {
    pub limit: u16,
    pub base: u32,
}

impl IdtPtr {
    pub fn new(table: u32) -> (r: IdtPtr)
        ensures
            r.limit == 8 * IDT_SIZE - 1,
            r.base == table,
    {
        IdtPtr { limit: (8 * IDT_SIZE - 1) as u16, base: table }
    }
}

/// The high-level handlers a vector can be routed to.
#[derive(Clone, Copy, Debug, PartialEq, Eq, Structural)]
pub enum Handler {
    /// Unassigned vector: fatal, reports the vector number.
    Dummy,
    /// CPU exception: fatal, reports the exception's name.
    Exception,
    PageFault,
    Syscall,
    Timer,
    Keyboard,
}

/// Gates and handlers, one per vector, and the entry stub of each vector.
pub struct Idt {
    pub entries: Vec<IdtEntry>,
    pub handlers: Vec<Handler>,
    pub stubs: Vec<u32>,
}

impl Idt {
    pub open spec fn wf(&self) -> bool {
        &&& self.entries@.len() == IDT_SIZE
        &&& self.handlers@.len() == IDT_SIZE
        &&& self.stubs@.len() == IDT_SIZE
    }

    /// An empty table over the given entry stubs: every gate absent, every
    /// handler `Dummy`.
    pub fn new(stubs: Vec<u32>) -> (r: Idt)
        requires
            stubs@.len() == IDT_SIZE,
        ensures
            r.wf(),
            r.stubs@ == stubs@,
            forall|i: int| 0 <= i < IDT_SIZE ==> !gate_present(#[trigger] r.entries@[i]),
            forall|i: int| 0 <= i < IDT_SIZE ==> #[trigger] r.handlers@[i] == Handler::Dummy,
    {
        let mut entries: Vec<IdtEntry> = Vec::new();
        let mut handlers: Vec<Handler> = Vec::new();
        let mut i: usize = 0;
        while i < IDT_SIZE
            invariant
                i <= IDT_SIZE,
                entries@.len() == i,
                handlers@.len() == i,
                forall|j: int| 0 <= j < i ==> !gate_present(#[trigger] entries@[j]),
                forall|j: int| 0 <= j < i ==> #[trigger] handlers@[j] == Handler::Dummy,
            decreases IDT_SIZE - i,
        {
            entries.push(IdtEntry { handler_low: 0, selector: 0, always0: 0, flags: 0, handler_high: 0 });
            handlers.push(Handler::Dummy);
            i = i + 1;
        }
        Idt { entries, handlers, stubs }
    }

    /// The table after `init`: the CPU exception vectors routed to the
    /// shared exception handler through ring-0 gates.
    pub fn init(stubs: Vec<u32>) -> (r: Idt)
        requires
            stubs@.len() == IDT_SIZE,
        ensures
            r.wf(),
            r.stubs@ == stubs@,
            forall|i: int| 0 <= i < EXCEPTION_COUNT ==> {
                &&& #[trigger] r.handlers@[i] == Handler::Exception
                &&& r.entries@[i] == idt_entry(stubs@[i], KERNEL_CODE_SELECTOR, (GATE_PRESENT | INTERRUPT_GATE) as u8)
            },
            forall|i: int| EXCEPTION_COUNT <= i < IDT_SIZE ==> !gate_present(#[trigger] r.entries@[i]),
            forall|i: int| EXCEPTION_COUNT <= i < IDT_SIZE ==> #[trigger] r.handlers@[i] == Handler::Dummy,
    {
        let mut idt = Idt::new(stubs);
        let mut i: usize = 0;
        while i < EXCEPTION_COUNT
            invariant
                i <= EXCEPTION_COUNT,
                idt.wf(),
                idt.stubs@ == stubs@,
                forall|j: int| 0 <= j < i ==> {
                    &&& #[trigger] idt.handlers@[j] == Handler::Exception
                    &&& idt.entries@[j] == idt_entry(stubs@[j], KERNEL_CODE_SELECTOR, (GATE_PRESENT | INTERRUPT_GATE) as u8)
                },
                forall|j: int| i <= j < IDT_SIZE && j >= EXCEPTION_COUNT ==> !gate_present(#[trigger] idt.entries@[j]),
                forall|j: int| i <= j < IDT_SIZE && j >= EXCEPTION_COUNT ==> #[trigger] idt.handlers@[j] == Handler::Dummy,
            decreases EXCEPTION_COUNT - i,
        {
            idt.register_interrupt(i, Handler::Exception);
            i = i + 1;
        }
        idt
    }

    /// Installs a ring-3-callable gate for `which`.
    pub fn register_user_interrupt(&mut self, which: usize, f: Handler)
        requires
            old(self).wf(),
            which < IDT_SIZE,
        ensures
            final(self).wf(),
            final(self).stubs == old(self).stubs,
            final(self).entries@ == old(self).entries@.update(which as int,
                idt_entry(old(self).stubs@[which as int], KERNEL_CODE_SELECTOR, (GATE_PRESENT | INTERRUPT_GATE | GATE_USER) as u8)),
            final(self).handlers@ == old(self).handlers@.update(which as int, f),
    {
        let flags = INTERRUPT_GATE | GATE_USER;
        assert(GATE_PRESENT | flags == GATE_PRESENT | INTERRUPT_GATE | GATE_USER) by (bit_vector)
            requires flags == 0x0Eu8 | 0x60u8;
        self.register_handler(which, flags, f);
    }

    /// Installs a ring-0-only gate for `which`.
    pub fn register_interrupt(&mut self, which: usize, f: Handler)
        requires
            old(self).wf(),
            which < IDT_SIZE,
        ensures
            final(self).wf(),
            final(self).stubs == old(self).stubs,
            final(self).entries@ == old(self).entries@.update(which as int,
                idt_entry(old(self).stubs@[which as int], KERNEL_CODE_SELECTOR, (GATE_PRESENT | INTERRUPT_GATE) as u8)),
            final(self).handlers@ == old(self).handlers@.update(which as int, f),
    {
        self.register_handler(which, INTERRUPT_GATE, f);
    }

    /// Installs a present gate with `flags` through the vector's stub, code
    /// selector 0x08, and routes the vector to `f`.
    pub fn register_handler(&mut self, which: usize, flags: u8, f: Handler)
        requires
            old(self).wf(),
            which < IDT_SIZE,
        ensures
            final(self).wf(),
            final(self).stubs == old(self).stubs,
            final(self).entries@ == old(self).entries@.update(which as int,
                idt_entry(old(self).stubs@[which as int], KERNEL_CODE_SELECTOR, (GATE_PRESENT | flags) as u8)),
            final(self).handlers@ == old(self).handlers@.update(which as int, f),
    {
        let e = IdtEntry::new(self.stubs[which], KERNEL_CODE_SELECTOR, GATE_PRESENT | flags);
        self.entries.set(which, e);
        self.handlers.set(which, f);
    }

    /// The handler a vector is routed to.
    pub fn handler(&self, which: u32) -> (r: Handler)
        requires
            self.wf(),
            which < IDT_SIZE,
        ensures
            r == self.handlers@[which as int],
    {
        self.handlers[which as usize]
    }
}

/// The name of CPU exception `n`, from the table of the 21 named
/// exceptions; the other exception vectors are reserved.
pub open spec fn exception_name_spec(n: u32) -> Seq<char> {
    if n == 0 { "Divide-by-zero Error"@ }
    else if n == 1 { "Debug"@ }
    else if n == 2 { "Non-maskable Interrupt"@ }
    else if n == 3 { "Breakpoint"@ }
    else if n == 4 { "Overflow"@ }
    else if n == 5 { "Bound Range Exceeded"@ }
    else if n == 6 { "Invalid Opcode"@ }
    else if n == 7 { "Device Not Available"@ }
    else if n == 8 { "Double Fault"@ }
    else if n == 9 { "Coprocessor Segment Overrun"@ }
    else if n == 10 { "Invalid TSS"@ }
    else if n == 11 { "Segment Not Present"@ }
    else if n == 12 { "Stack-Segment Fault"@ }
    else if n == 13 { "General Protection Fault"@ }
    else if n == 14 { "Page Fault"@ }
    else if n == 15 { "Reserved"@ }
    else if n == 16 { "x87 Floating-Point Exception"@ }
    else if n == 17 { "Alignment Check"@ }
    else if n == 18 { "Machine Check"@ }
    else if n == 19 { "SIMD Floating-Point Exception"@ }
    else if n == 20 { "Virtualization Exception"@ }
    else { "Reserved"@ }
}

/// The name an exception is reported under.
pub fn exception_name(n: u32) -> (r: &'static str)
    ensures
        r@ == exception_name_spec(n),
{
    match n {
        0 => "Divide-by-zero Error",
        1 => "Debug",
        2 => "Non-maskable Interrupt",
        3 => "Breakpoint",
        4 => "Overflow",
        5 => "Bound Range Exceeded",
        6 => "Invalid Opcode",
        7 => "Device Not Available",
        8 => "Double Fault",
        9 => "Coprocessor Segment Overrun",
        10 => "Invalid TSS",
        11 => "Segment Not Present",
        12 => "Stack-Segment Fault",
        13 => "General Protection Fault",
        14 => "Page Fault",
        15 => "Reserved",
        16 => "x87 Floating-Point Exception",
        17 => "Alignment Check",
        18 => "Machine Check",
        19 => "SIMD Floating-Point Exception",
        20 => "Virtualization Exception",
        _ => "Reserved",
    }
}

/// Whether a gate admits an interrupt raised at privilege `cpl`; a software
/// `int` also needs the descriptor privilege level to be at least `cpl`.
pub open spec fn gate_admits(e: IdtEntry, cpl: int, software: bool) -> bool {
    gate_present(e) && (!software || gate_dpl(e) >= cpl)
}

/// The trap frame the CPU and the entry stub build for `vector`.
pub open spec fn trap_frame(cpu: Cpu, kernel_esp: u32, vector: u32, err_code: u32) -> Registers {
    Registers {
        edi: cpu.gprs.edi,
        esi: cpu.gprs.esi,
        ebp: cpu.gprs.ebp,
        esp: (kernel_esp - 28) as u32,
        ebx: cpu.gprs.ebx,
        edx: cpu.gprs.edx,
        ecx: cpu.gprs.ecx,
        eax: cpu.gprs.eax,
        gs: cpu.gs as u32,
        fs: cpu.fs as u32,
        es: cpu.es as u32,
        ds: cpu.ds as u32,
        int_no: vector,
        err_code,
        eip: cpu.eip,
        cs: cpu.cs as u32,
        eflags: cpu.eflags,
        useresp: cpu.esp,
        ss: cpu.ss as u32,
    }
}

/// Delivers interrupt `vector` as the CPU and the shared entry stub do:
/// checks the descriptor, switches to the TSS kernel stack when coming from
/// ring 3, builds the trap frame, loads the descriptor's code selector and the
/// kernel data selector, and enters the vector's stub with interrupts
/// off. Returns the frame handed to the trap handler, or `None` (a general
/// protection fault) when the descriptor does not admit the interrupt.
pub fn raise_interrupt(idt: &Idt, cpu: &mut Cpu, tss: &TssEntry, vector: u32, err_code: u32, software: bool) -> (r: Option<Registers>)
    requires
        idt.wf(),
        vector < IDT_SIZE,
        tss.esp0 >= 128,
        old(cpu).esp >= 128,
    ensures
        ({
            let e = idt.entries@[vector as int];
            let c0 = *old(cpu);
            let kesp = if cpl(c0) == 3 { tss.esp0 } else { c0.esp };
            &&& gate_admits(e, cpl(c0), software) ==> {
                &&& r == Some(trap_frame(c0, kesp, vector, err_code))
                &&& final(cpu).cs == e.selector
                &&& final(cpu).eip as int == gate_handler(e)
                &&& final(cpu).ds == KERNEL_DATA_SELECTOR
                &&& final(cpu).es == KERNEL_DATA_SELECTOR
                &&& final(cpu).fs == KERNEL_DATA_SELECTOR
                &&& final(cpu).gs == KERNEL_DATA_SELECTOR
                &&& final(cpu).ss == (if cpl(c0) == 3 { tss.ss0 as u16 } else { c0.ss })
                &&& final(cpu).esp == kesp - FRAME_SIZE
                &&& final(cpu).eflags == c0.eflags & !EFLAGS_IF
                &&& final(cpu).gprs == c0.gprs
                &&& final(cpu).cr3 == c0.cr3
            }
            &&& !gate_admits(e, cpl(c0), software) ==> r is None && *final(cpu) == c0
        }),
{
    let e = idt.entries[vector as usize];
    let level = cpu.cs % 4;
    let dpl = (e.flags / 32) % 4;
    if e.flags < GATE_PRESENT || (software && (dpl as u16) < level) {
        return None;
    }
    let kesp = if level == 3 { tss.esp0 } else { cpu.esp };
    let frame = Registers {
        edi: cpu.gprs.edi,
        esi: cpu.gprs.esi,
        ebp: cpu.gprs.ebp,
        esp: kesp - 28,
        ebx: cpu.gprs.ebx,
        edx: cpu.gprs.edx,
        ecx: cpu.gprs.ecx,
        eax: cpu.gprs.eax,
        gs: cpu.gs as u32,
        fs: cpu.fs as u32,
        es: cpu.es as u32,
        ds: cpu.ds as u32,
        int_no: vector,
        err_code,
        eip: cpu.eip,
        cs: cpu.cs as u32,
        eflags: cpu.eflags,
        useresp: cpu.esp,
        ss: cpu.ss as u32,
    };
    if level == 3 {
        cpu.ss = tss.ss0 as u16;
    }
    cpu.esp = kesp - FRAME_SIZE;
    cpu.eflags = cpu.eflags & !EFLAGS_IF;
    cpu.cs = e.selector;
    cpu.eip = (e.handler_low as u32) + (e.handler_high as u32) * 0x10000;
    cpu.ds = KERNEL_DATA_SELECTOR;
    cpu.es = KERNEL_DATA_SELECTOR;
    cpu.fs = KERNEL_DATA_SELECTOR;
    cpu.gs = KERNEL_DATA_SELECTOR;
    Some(frame)
}

/// Returns from a trap through the stub's epilogue and `iret`: the
/// registers, segments and the interrupted context come back from `frame`.
pub fn return_from_trap(cpu: &mut Cpu, frame: &Registers)
    ensures
        final(cpu).gprs == (Gprs {
            edi: frame.edi, esi: frame.esi, ebp: frame.ebp, ebx: frame.ebx,
            edx: frame.edx, ecx: frame.ecx, eax: frame.eax,
        }),
        final(cpu).eip == frame.eip,
        final(cpu).cs == frame.cs as u16,
        final(cpu).eflags == frame.eflags,
        final(cpu).esp == frame.useresp,
        final(cpu).ss == frame.ss as u16,
        final(cpu).ds == frame.ds as u16,
        final(cpu).es == frame.es as u16,
        final(cpu).fs == frame.fs as u16,
        final(cpu).gs == frame.gs as u16,
        final(cpu).cr3 == old(cpu).cr3,
{
    cpu.gprs = Gprs {
        edi: frame.edi, esi: frame.esi, ebp: frame.ebp, ebx: frame.ebx,
        edx: frame.edx, ecx: frame.ecx, eax: frame.eax,
    };
    cpu.gs = frame.gs as u16;
    cpu.fs = frame.fs as u16;
    cpu.es = frame.es as u16;
    cpu.ds = frame.ds as u16;
    cpu.eip = frame.eip;
    cpu.cs = frame.cs as u16;
    cpu.eflags = frame.eflags;
    cpu.esp = frame.useresp;
    cpu.ss = frame.ss as u16;
}

/// Delivery of the syscall gate: a gate installed by
/// `register_user_interrupt` admits `int` from ring 3 and enters ring 0
/// through the kernel code selector.
pub proof fn lemma_user_gate_delivery(stub: u32)
    ensures
        gate_admits(idt_entry(stub, KERNEL_CODE_SELECTOR, (GATE_PRESENT | INTERRUPT_GATE | GATE_USER) as u8), 3, true),
        idt_entry(stub, KERNEL_CODE_SELECTOR, (GATE_PRESENT | INTERRUPT_GATE | GATE_USER) as u8).selector == 0x08,
{
    assert((0x80u8 | 0x0Eu8 | 0x60u8) == 0xEEu8) by (bit_vector);
}

} // verus!
