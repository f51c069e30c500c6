//! The whole machine state and the high-level trap handler: it records the
//! trap frame in the running task, acknowledges IRQs, and dispatches to the
//! page-fault reporter, the syscall calls, the timer or a fatal handler.
use vstd::prelude::*;
use crate::idt::{Idt, Handler, Registers, Cpu, IDT_SIZE};
use crate::gdt::Gdt;
use crate::irq::{Pic, PortWrite, eoi_writes, eoi_writes_spec};
use crate::physical::{PhysMem, MAX_WORDS};
use crate::paging::{dir_ok, tables_ok, space_ok, get_page, mapped, frame};
use crate::pte::{page_present, page_addr};
use crate::heap::Heap;
use crate::gdt::{KERNEL_CODE_SELECTOR, KERNEL_DATA_SELECTOR};
use crate::idt::Gprs;
use crate::tasking::{Scheduler, Task, TASK_SIZE, TASK_LIMIT, schedule_spec, stack_top_of};
use crate::syscalls::{SyscallTable, Syscall, syscall_of};
use crate::space::{clone_of, CLONE_WORDS};

verus! {

/// Timer interrupts per second.
pub const HZ: u32 = 100;

/// What a page fault's error code says, and where it happened.
#[derive(Clone, Copy, Debug, PartialEq, Eq, Structural)]
pub struct PageFaultInfo {
    pub present: bool,
    pub write: bool,
    pub user: bool,
    pub reserved: bool,
    pub address: u32,
}

/// Decodes a page fault: error-code bits 0-3 are present,
/// write, user and reserved-bit violation; `cr2` holds the address.
pub fn page_fault(err_code: u32, cr2: u32) -> (r: PageFaultInfo)
    ensures
        r.present == (err_code % 2 == 1),
        r.write == ((err_code / 2) % 2 == 1),
        r.user == ((err_code / 4) % 2 == 1),
        r.reserved == ((err_code / 8) % 2 == 1),
        r.address == cr2,
{
    assert(err_code & 1 == err_code % 2 && (err_code & 2 != 0) == ((err_code / 2) % 2 == 1)
        && (err_code & 4 != 0) == ((err_code / 4) % 2 == 1)
        && (err_code & 8 != 0) == ((err_code / 8) % 2 == 1)) by (bit_vector);
    PageFaultInfo {
        present: err_code & 1 != 0,
        write: err_code & 2 != 0,
        user: err_code & 4 != 0,
        reserved: err_code & 8 != 0,
        address: cr2,
    }
}

/// Why the kernel halts (a panic), or why a call could not be served.
#[derive(Clone, Copy, Debug, PartialEq, Eq, Structural)]
pub enum Fault {
    /// A vector nobody registered.
    Unhandled { int_no: u32, err_code: u32 },
    /// A CPU exception.
    Exception { int_no: u32, err_code: u32 },
    PageFault(PageFaultInfo),
    /// `exit` from the idle task.
    KillIdle,
    /// `exit` with nothing left to run.
    NoTask,
    /// `write` to a descriptor other than 1.
    BadDescriptor,
    /// A user buffer that is not mapped.
    BadAddress(u32),
    /// No room left for another task.
    OutOfMemory,
}

/// Byte `i` (0 = lowest) of a word.
#[verifier::opaque]
pub open spec fn byte_of(w: u32, i: int) -> u8 {
    ((w as int / pow256(i)) % 256) as u8
}

pub open spec fn pow256(i: int) -> int {
    if i <= 0 { 1 } else if i == 1 { 0x100 } else if i == 2 { 0x10000 } else { 0x1000000 }
}

/// The byte at virtual address `va`, if mapped to memory that exists.
pub open spec fn user_byte(m: Seq<u32>, dir: int, va: int) -> Option<u8> {
    if mapped(m, dir, va / 4096) && (frame(m, dir, va / 4096) + va % 4096) / 4 < m.len() {
        Some(byte_of(m[(frame(m, dir, va / 4096) + va % 4096) / 4], (va % 4096) % 4))
    } else {
        None
    }
}

/// Reads the byte at virtual address `va` through the directory `dir`.
pub fn read_user_byte(mem: &PhysMem, dir: u32, va: u32) -> (r: Option<u8>)
    requires
        dir_ok(mem@, dir as int),
        tables_ok(mem@, dir as int),
    ensures
        r == user_byte(mem@, dir as int, va as int),
{
    let e = get_page(mem, dir, va);
    if !page_present(e) {
        return None;
    }
    let base = page_addr(e);
    let off = va % 4096;
    let pa = base + off;
    if (pa / 4) as usize >= mem.words.len() {
        return None;
    }
    let w = mem.read(pa - pa % 4);
    let sh = pa % 4;
    assert(off % 4 == pa % 4);
    assert((pa - pa % 4) / 4 == pa / 4);
    Some(word_byte(w, sh))
}

/// Byte `i` of a word, lowest first.
pub fn word_byte(w: u32, i: u32) -> (r: u8)
    requires
        i < 4,
    ensures
        r == byte_of(w, i as int),
{
    proof {
        lemma_word_bytes(w);
        reveal(byte_of);
    }
    if i == 0 {
        (w & 0xFF) as u8
    } else if i == 1 {
        ((w >> 8) & 0xFF) as u8
    } else if i == 2 {
        ((w >> 16) & 0xFF) as u8
    } else {
        ((w >> 24) & 0xFF) as u8
    }
}

proof fn lemma_word_bytes(w: u32)
    ensures
        w & 0xFF == w % 0x100,
        (w >> 8) & 0xFF == (w / 0x100) % 0x100,
        (w >> 16) & 0xFF == (w / 0x10000) % 0x100,
        (w >> 24) & 0xFF == (w / 0x1000000) % 0x100,
{
    assert(w & 0xFF == w % 0x100) by (bit_vector);
    assert((w >> 8) & 0xFF == (w / 0x100) % 0x100) by (bit_vector);
    assert((w >> 16) & 0xFF == (w / 0x10000) % 0x100) by (bit_vector);
    assert((w >> 24) & 0xFF == (w / 0x1000000) % 0x100) by (bit_vector);
}

/// `w` with byte `i` (0 = lowest) replaced by `b`.
pub open spec fn set_byte(w: u32, i: int, b: u8) -> u32 {
    let sh = (8 * i) as u32;
    (w & !(0xFFu32 << sh)) | ((b as u32) << sh)
}

/// Replacing one byte of a word changes that byte and no other.
pub proof fn lemma_set_byte(w: u32, i: int, b: u8, j: int)
    requires
        0 <= i < 4,
        0 <= j < 4,
    ensures
        byte_of(set_byte(w, i, b), j) == (if j == i { b } else { byte_of(w, j) }),
{
    let w2 = set_byte(w, i, b);
    let s = (8 * i) as u32;
    let t = (8 * j) as u32;
    let bb = b as u32;
    assert(((w & !(0xFFu32 << s)) | (bb << s)) >> t & 0xFF == if s == t { bb } else { (w >> t) & 0xFF })
        by (bit_vector)
        requires s == 0 || s == 8 || s == 16 || s == 24, t == 0 || t == 8 || t == 16 || t == 24, bb < 256;
    lemma_word_bytes(w);
    lemma_word_bytes(w2);
    reveal(byte_of);
    assert(byte_of(w2, j) == ((w2 >> t) & 0xFF) as u8 && byte_of(w, j) == ((w >> t) & 0xFF) as u8) by {
        if j == 0 {
            assert(w2 >> 0u32 == w2 && w >> 0u32 == w) by (bit_vector);
        }
    }
}

/// Stores byte `b` at virtual address `va` through `dir`, keeping the
/// other bytes of its word; `false` (and no change) where `va` is not
/// mapped to memory that exists.
pub fn write_user_byte(mem: &mut PhysMem, dir: u32, va: u32, b: u8) -> (r: bool)
    requires
        dir_ok(old(mem)@, dir as int),
        tables_ok(old(mem)@, dir as int),
    ensures
        r == (user_byte(old(mem)@, dir as int, va as int) is Some),
        r ==> ({
            let pa = frame(old(mem)@, dir as int, va as int / 4096) + va as int % 4096;
            final(mem)@ == old(mem)@.update(pa / 4, set_byte(old(mem)@[pa / 4], pa % 4, b))
        }),
        !r ==> final(mem)@ == old(mem)@,
{
    let e = get_page(mem, dir, va);
    if !page_present(e) {
        return false;
    }
    let pa = page_addr(e) + va % 4096;
    if (pa / 4) as usize >= mem.words.len() {
        return false;
    }
    let at = pa - pa % 4;
    assert(at / 4 == pa / 4);
    let w = mem.read(at);
    let sh = 8 * (pa % 4);
    let nw = (w & !(0xFFu32 << sh)) | ((b as u32) << sh);
    mem.write(at, nw);
    true
}

/// Stores the word `v` at the aligned virtual address `va` through `dir`;
/// `false` (and no change) where `va` is not mapped to memory that exists.
pub fn write_user_word(mem: &mut PhysMem, dir: u32, va: u32, v: u32) -> (r: bool)
    requires
        dir_ok(old(mem)@, dir as int),
        tables_ok(old(mem)@, dir as int),
        va % 4 == 0,
    ensures
        r == (mapped(old(mem)@, dir as int, va as int / 4096)
            && (frame(old(mem)@, dir as int, va as int / 4096) + va % 4096) / 4 < old(mem)@.len()),
        r ==> final(mem)@ == old(mem)@.update((frame(old(mem)@, dir as int, va as int / 4096) + va % 4096) / 4, v),
        !r ==> final(mem)@ == old(mem)@,
{
    let e = get_page(mem, dir, va);
    if !page_present(e) {
        return false;
    }
    let pa = page_addr(e) + va % 4096;
    if (pa / 4) as usize >= mem.words.len() {
        return false;
    }
    mem.write(pa, v);
    true
}

/// Everything the kernel owns.
pub struct Kernel {
    pub mem: PhysMem,
    pub cpu: Cpu,
    pub gdt: Gdt,
    pub idt: Idt,
    pub pic: Pic,
    pub sched: Scheduler,
    pub heap: Heap,
    pub syscalls: SyscallTable,
    /// Bytes written to the console by `write`.
    pub console: Vec<u8>,
    /// Port writes not yet performed, in order.
    pub ports: Vec<PortWrite>,
    pub ticks: u32,
}

/// The bytes `write` copies from `[ptr, ptr + len)`.
pub open spec fn user_bytes(m: Seq<u32>, dir: int, ptr: int, len: int) -> Seq<u8> {
    Seq::new(len as nat, |i: int| match user_byte(m, dir, ptr + i) { Some(b) => b, None => 0 })
}

/// Every byte of `[ptr, ptr + len)` is readable.
pub open spec fn user_readable(m: Seq<u32>, dir: int, ptr: int, len: int) -> bool {
    &&& ptr + len <= 0x1_0000_0000
    &&& forall|i: int| 0 <= i < len ==> #[trigger] user_byte(m, dir, ptr + i) is Some
}

impl Kernel {
    /// State in which every handler may run: memory and the running
    /// task's address space well formed, tables filled.
    pub open spec fn ready(&self) -> bool {
        &&& self.mem.wf()
        &&& space_ok(self.mem@, self.sched.current.pd as int)
        &&& self.heap.wf()
        &&& self.sched.wf()
        &&& self.sched.dirs_in(self.mem@.len() as int)
        &&& self.idt.wf()
        &&& self.syscalls.wf()
    }

    /// Whether another task fits (memory for a copy of an address space,
    /// heap room for a TCB, a pid).
    pub fn room_for_task(&self) -> (r: bool)
        ensures
            r == (self.mem@.len() + 8192 + CLONE_WORDS <= MAX_WORDS
                && self.heap.next as int + TASK_SIZE as int + 4096 <= TASK_LIMIT
                && self.sched.next_pid < u32::MAX),
    {
        self.mem.words.len() <= MAX_WORDS - 8192 - CLONE_WORDS
            && self.heap.next <= TASK_LIMIT - TASK_SIZE - 4096
            && self.sched.next_pid < u32::MAX
    }

    /// `write(fd, ptr, len)`: requires descriptor 1; copies the bytes from
    /// the caller's address space to the console and returns `len` in `eax`.
    pub fn syscall_write(&mut self, regs: &mut Registers) -> (r: Result<(), Fault>)
        requires
            old(self).ready(),
        ensures
            final(self).ready(),
            final(self).mem == old(self).mem,
            final(self).sched.current == old(self).sched.current,
            final(self).sched.tasks@ == old(self).sched.tasks@,
            old(regs).ebx != 1 ==> r == Err::<(), Fault>(Fault::BadDescriptor) && *final(regs) == *old(regs)
                && final(self).console@ == old(self).console@,
            old(regs).ebx == 1 && !user_readable(old(self).mem@, old(self).sched.current.pd as int, old(regs).ecx as int, old(regs).edx as int)
                ==> r is Err && *final(regs) == *old(regs),
            old(regs).ebx == 1 && user_readable(old(self).mem@, old(self).sched.current.pd as int, old(regs).ecx as int, old(regs).edx as int)
                ==> r is Ok && *final(regs) == (Registers { eax: old(regs).edx, ..*old(regs) })
                && final(self).console@ == old(self).console@
                    + user_bytes(old(self).mem@, old(self).sched.current.pd as int, old(regs).ecx as int, old(regs).edx as int),
    {
        if regs.ebx != 1 {
            return Err(Fault::BadDescriptor);
        }
        let ptr = regs.ecx;
        let len = regs.edx;
        if ptr as u64 + len as u64 > 0x1_0000_0000 {
            return Err(Fault::BadAddress(ptr));
        }
        let dir = self.sched.current.pd;
        let ghost m = self.mem@;
        let ghost c0 = self.console@;
        let mut out: Vec<u8> = Vec::new();
        let mut i: u32 = 0;
        while i < len
            invariant
                i <= len,
                *self == *old(self),
                self.ready(),
                *regs == *old(regs),
                dir == old(self).sched.current.pd,
                regs.ebx == 1,
                regs.ecx == ptr,
                regs.edx == len,
                c0 == old(self).console@,
                dir_ok(self.mem@, dir as int),
                tables_ok(self.mem@, dir as int),
                m == self.mem@,
                ptr as int + len as int <= 0x1_0000_0000,
                out@ =~= user_bytes(m, dir as int, ptr as int, i as int),
                forall|j: int| 0 <= j < i ==> #[trigger] user_byte(m, dir as int, ptr as int + j) is Some,
            decreases len - i,
        {
            let va = ptr + i;
            match read_user_byte(&self.mem, dir, va) {
                None => {
                    return Err(Fault::BadAddress(va));
                }
                Some(b) => {
                    out.push(b);
                }
            }
            i = i + 1;
        }
        self.console.append(&mut out);
        regs.eax = len;
        Ok(())
    }
}

/// What the syscall in `regs0.eax` does, from kernel `k0` whose running
/// task is `cur0`, to kernel `k1`, registers `regs1` and result `r`.
pub open spec fn syscall_effect(k0: Kernel, cur0: Task, regs0: Registers, k1: Kernel, regs1: Registers, r: Result<(), Fault>) -> bool {
    &&& (syscall_of(regs0.eax) == Syscall::Unimplemented ==> r is Ok && regs1 == regs0
            && k1.mem == k0.mem && k1.sched.current == cur0
            && k1.sched.tasks@ == k0.sched.tasks@ && k1.console == k0.console)
    &&& (syscall_of(regs0.eax) == Syscall::Write && regs0.ebx == 1
            && user_readable(k0.mem@, cur0.pd as int, regs0.ecx as int, regs0.edx as int)
            ==> r is Ok && regs1 == (Registers { eax: regs0.edx, ..regs0 })
                && k1.console@ == k0.console@
                    + user_bytes(k0.mem@, cur0.pd as int, regs0.ecx as int, regs0.edx as int))
    &&& (syscall_of(regs0.eax) == Syscall::Write && regs0.ebx != 1 ==> r == Err::<(), Fault>(Fault::BadDescriptor))
    &&& (syscall_of(regs0.eax) == Syscall::Exit && cur0.pid == 0 ==> r == Err::<(), Fault>(Fault::KillIdle))
    &&& (syscall_of(regs0.eax) == Syscall::Exit && cur0.pid != 0 && k0.sched.tasks@.len() > 0
            ==> r is Ok && k1.sched.current == k0.sched.tasks@[0]
                && k1.sched.tasks@ == k0.sched.tasks@.drop_first()
                && k1.cpu == crate::tasking::resumed(k0.cpu, k0.sched.tasks@[0])
                && k1.gdt.tss.esp0 == stack_top_of(k0.sched.tasks@[0])
                && k1.sched.current.pid != cur0.pid
                && forall|i: int| 0 <= i < k1.sched.tasks@.len() ==> #[trigger] k1.sched.tasks@[i].pid != cur0.pid)
    &&& (syscall_of(regs0.eax) == Syscall::Exit && cur0.pid != 0 && k0.sched.tasks@.len() == 0
            ==> r == Err::<(), Fault>(Fault::NoTask))
    &&& (syscall_of(regs0.eax) == Syscall::Fork && (k0.mem@.len() + 8192 + CLONE_WORDS <= MAX_WORDS
            && k0.heap.next as int + TASK_SIZE as int + 4096 <= TASK_LIMIT
            && k0.sched.next_pid < u32::MAX) ==> {
            let child = k1.sched.tasks@.last();
            &&& r is Ok
            &&& regs1 == (Registers { eax: child.pid, ..regs0 })
            &&& child.pid == k0.sched.next_pid
            &&& child.pid != 0
            &&& child.regs == Some(Registers { eax: 0, ..regs0 })
            &&& k1.sched.tasks@.drop_last() == k0.sched.tasks@
            &&& k1.sched.current == cur0
        })
    &&& (syscall_of(regs0.eax) == Syscall::Fork && !(k0.mem@.len() + 8192 + CLONE_WORDS <= MAX_WORDS
            && k0.heap.next as int + TASK_SIZE as int + 4096 <= TASK_LIMIT
            && k0.sched.next_pid < u32::MAX) ==> r == Err::<(), Fault>(Fault::OutOfMemory))
    &&& (syscall_of(regs0.eax) == Syscall::Sleep ==> r is Ok
            && (k1.sched.current, k1.sched.tasks@, k1.cpu)
                == schedule_spec(cur0, k0.sched.tasks@, k0.cpu, k0.sched.resume))
    &&& (syscall_of(regs0.eax) == Syscall::Write && regs0.ebx == 1
        && !user_readable(k0.mem@, cur0.pd as int, regs0.ecx as int, regs0.edx as int)
        ==> r is Err && regs1 == regs0)
}

impl Kernel {
    /// Brings the machine up in this order: segments, PIC
    /// remapping, interrupt table, timer and keyboard lines, memory (frames
    /// past `kernel_end`, the kernel directory, the page-fault vector),
    /// paging on, the boot task with its TCB on the heap, and the syscall
    /// gate. `stubs` are the per-vector entry points; the two labels are
    /// where forked and switched-out tasks resume.
    pub fn boot(kernel_end: u32, tss_address: u32, stubs: Vec<u32>, ret_from_trap: u32, resume: u32, stack: u32) -> (k: Kernel)
        requires
            kernel_end <= 0x1000_0000,
            stubs@.len() == IDT_SIZE,
        ensures
            k.ready(),
            k.sched.current.pid == 0,
            k.sched.current.regs is None,
            k.sched.tasks@ == Seq::<Task>::empty(),
            k.sched.next_pid == 1,
            k.sched.ret_from_trap == ret_from_trap,
            k.sched.resume == resume,
            k.cpu.cr3 == k.sched.current.pd,
            k.cpu.cr0 == 0x8000_0011,
            k.cpu.cs == KERNEL_CODE_SELECTOR,
            k.cpu.ds == KERNEL_DATA_SELECTOR,
            k.cpu.es == KERNEL_DATA_SELECTOR,
            k.cpu.fs == KERNEL_DATA_SELECTOR,
            k.cpu.gs == KERNEL_DATA_SELECTOR,
            k.cpu.ss == KERNEL_DATA_SELECTOR,
            k.cpu.tr == crate::gdt::TSS_SELECTOR,
            k.gdt.entries@ == crate::gdt::gdt_layout(tss_address),
            k.cpu.esp == stack,
            k.gdt.tss.esp0 == stack_top_of(k.sched.current),
            k.idt.handlers@[14] == Handler::PageFault,
            k.idt.handlers@[32] == Handler::Timer,
            k.idt.handlers@[33] == Handler::Keyboard,
            k.idt.handlers@[0x80] == Handler::Syscall,
            k.idt.handlers@[0] == Handler::Exception,
            k.idt.handlers@[200] == Handler::Dummy,
            k.pic.master_offset == 0x20,
            k.pic.slave_offset == 0x28,
            k.console@ == Seq::<u8>::empty(),
            k.ticks == 0,
    {
        let mut gdt = crate::gdt::Gdt::init(tss_address);
        let (mut pic, mut ports) = crate::irq::init();
        let mut idt = Idt::init(stubs);
        let mut w = crate::drivers::timer_init(&mut idt, &mut pic);
        ports.append(&mut w);
        let kb = crate::drivers::keyboard_init(&mut idt, &mut pic);
        ports.push(kb);
        let mut mem = PhysMem::new(kernel_end);
        let kdir = crate::paging::init(&mut mem);
        idt.register_interrupt(14, Handler::PageFault);
        let mut heap = Heap::new();
        let base = heap.malloc(&mut mem, kdir, TASK_SIZE);
        let sched = Scheduler::init(kdir, base, &mut gdt, ret_from_trap, resume);
        let syscalls = SyscallTable::init(&mut idt);
        let mut cpu = Cpu {
            gprs: Gprs { edi: 0, esi: 0, ebp: 0, ebx: 0, edx: 0, ecx: 0, eax: 0 },
            esp: stack,
            eip: 0,
            eflags: 2,
            cs: KERNEL_CODE_SELECTOR,
            ss: KERNEL_DATA_SELECTOR,
            ds: KERNEL_DATA_SELECTOR,
            es: KERNEL_DATA_SELECTOR,
            fs: KERNEL_DATA_SELECTOR,
            gs: KERNEL_DATA_SELECTOR,
            cr0: 0x11,
            cr2: 0,
            cr3: 0,
            tr: 0,
        };
        crate::gdt::flush(&mut cpu);
        crate::tasking::switch_page_directory(&mut cpu, kdir);
        crate::tasking::enable_paging(&mut cpu);
        assert(0x11u32 | 0x8000_0000u32 == 0x8000_0011u32) by (bit_vector);
        Kernel { mem, cpu, gdt, idt, pic, sched, heap, syscalls, console: Vec::new(), ports, ticks: 0 }
    }

    /// `fork()`: the child pid in the caller's `eax`; the child's copy of
    /// the frame has `eax` 0 and is otherwise the caller's.
    pub fn syscall_fork(&mut self, regs: &mut Registers) -> (r: Result<(), Fault>)
        requires
            old(self).ready(),
            old(self).sched.current.regs == Some(*old(regs)),
        ensures
            final(self).ready(),
            final(self).sched.current == old(self).sched.current,
            final(self).console == old(self).console,
            !(old(self).mem@.len() + 8192 + CLONE_WORDS <= MAX_WORDS
                && old(self).heap.next as int + TASK_SIZE as int + 4096 <= TASK_LIMIT
                && old(self).sched.next_pid < u32::MAX)
                ==> r == Err::<(), Fault>(Fault::OutOfMemory) && *final(regs) == *old(regs)
                    && final(self).sched.tasks@ == old(self).sched.tasks@,
            (old(self).mem@.len() + 8192 + CLONE_WORDS <= MAX_WORDS
                && old(self).heap.next as int + TASK_SIZE as int + 4096 <= TASK_LIMIT
                && old(self).sched.next_pid < u32::MAX) ==> {
                let child = final(self).sched.tasks@.last();
                &&& r is Ok
                &&& *final(regs) == (Registers { eax: child.pid, ..*old(regs) })
                &&& child.pid == old(self).sched.next_pid
                &&& child.pid != 0
                &&& child.regs == Some(Registers { eax: 0, ..*old(regs) })
                &&& child.eip == old(self).sched.ret_from_trap
                &&& final(self).sched.tasks@.drop_last() == old(self).sched.tasks@
                &&& exists|mid: Seq<u32>| clone_of(mid, old(self).sched.current.pd as int, final(self).mem@, child.pd as int)
            },
    {
        if !self.room_for_task() {
            return Err(Fault::OutOfMemory);
        }
        let pid = self.sched.fork(&mut self.heap, &mut self.mem);
        regs.eax = pid;
        Ok(())
    }

    /// `exit(code)`: the running task ends and the next one runs. The idle
    /// task cannot exit, and something must be left to run.
    pub fn syscall_exit(&mut self) -> (r: Result<(), Fault>)
        requires
            old(self).sched.wf(),
        ensures
            old(self).sched.current.pid == 0 ==> r == Err::<(), Fault>(Fault::KillIdle),
            old(self).sched.current.pid != 0 && old(self).sched.tasks@.len() == 0
                ==> r == Err::<(), Fault>(Fault::NoTask),
            old(self).sched.current.pid != 0 && old(self).sched.tasks@.len() > 0 ==> r is Ok,
            r is Err ==> final(self).sched.current == old(self).sched.current
                && final(self).sched.tasks@ == old(self).sched.tasks@ && final(self).cpu == old(self).cpu,
            r is Ok ==> {
                &&& old(self).sched.current.pid != 0
                &&& old(self).sched.tasks@.len() > 0
                &&& final(self).sched.current == old(self).sched.tasks@[0]
                &&& final(self).sched.tasks@ == old(self).sched.tasks@.drop_first()
                &&& final(self).cpu == crate::tasking::resumed(old(self).cpu, old(self).sched.tasks@[0])
                &&& final(self).gdt.tss.esp0 == stack_top_of(old(self).sched.tasks@[0])
                &&& final(self).sched.current.pid != old(self).sched.current.pid
                &&& forall|i: int| 0 <= i < final(self).sched.tasks@.len()
                    ==> #[trigger] final(self).sched.tasks@[i].pid != old(self).sched.current.pid
            },
            final(self).mem == old(self).mem,
            final(self).console == old(self).console,
    {
        if self.sched.current.pid == 0 {
            return Err(Fault::KillIdle);
        }
        if self.sched.tasks.is_empty() {
            return Err(Fault::NoTask);
        }
        self.sched.kill(&mut self.cpu, &mut self.gdt);
        Ok(())
    }

    /// `sleep(ms)`: yields the processor.
    pub fn syscall_sleep(&mut self)
        requires
            old(self).sched.wf(),
        ensures
            (final(self).sched.current, final(self).sched.tasks@, final(self).cpu)
                == schedule_spec(old(self).sched.current, old(self).sched.tasks@, old(self).cpu, old(self).sched.resume),
            final(self).mem == old(self).mem,
            final(self).console == old(self).console,
    {
        self.sched.schedule(&mut self.cpu, &mut self.gdt);
    }

    /// Serves the syscall in `eax`; numbers without a
    /// call change nothing.
    pub fn syscall_handler(&mut self, regs: &mut Registers) -> (r: Result<(), Fault>)
        requires
            old(self).ready(),
            old(self).sched.current.regs == Some(*old(regs)),
        ensures
            syscall_effect(*old(self), old(self).sched.current, *old(regs), *final(self), *final(regs), r),
    {
        match self.syscalls.lookup(regs.eax) {
            Syscall::Unimplemented => Ok(()),
            Syscall::Exit => self.syscall_exit(),
            Syscall::Write => self.syscall_write(regs),
            Syscall::Fork => self.syscall_fork(regs),
            Syscall::Sleep => {
                self.syscall_sleep();
                Ok(())
            },
        }
    }

    /// Counts a timer tick; true once every `HZ` ticks.
    pub fn timer_handler(&mut self) -> (r: bool)
        ensures
            final(self).ticks == (if old(self).ticks == u32::MAX { 0 } else { old(self).ticks + 1 }),
            r == (final(self).ticks % HZ == 0),
            final(self).sched.current == old(self).sched.current,
            final(self).sched.tasks@ == old(self).sched.tasks@,
            final(self).gdt == old(self).gdt,
            final(self).mem == old(self).mem,
    {
        self.ticks = if self.ticks == u32::MAX { 0 } else { self.ticks + 1 };
        self.ticks % HZ == 0
    }

    /// The high-level trap handler: records the frame in
    /// the running task, queues the PIC acknowledgement for IRQ vectors,
    /// then runs the vector's handler. Fatal vectors come back as `Err`.
    pub fn trap_handler(&mut self, regs: &mut Registers) -> (r: Result<(), Fault>)
        requires
            old(self).ready(),
            old(regs).int_no < IDT_SIZE,
        ensures
            final(self).ports@ == old(self).ports@ + eoi_writes_spec(old(regs).int_no),
            old(self).idt.handlers@[old(regs).int_no as int] == Handler::Dummy
                ==> r == Err::<(), Fault>(Fault::Unhandled { int_no: old(regs).int_no, err_code: old(regs).err_code }),
            old(self).idt.handlers@[old(regs).int_no as int] == Handler::Exception
                ==> r == Err::<(), Fault>(Fault::Exception { int_no: old(regs).int_no, err_code: old(regs).err_code }),
            old(self).idt.handlers@[old(regs).int_no as int] == Handler::PageFault
                ==> r == Err::<(), Fault>(Fault::PageFault(PageFaultInfo {
                    present: old(regs).err_code % 2 == 1,
                    write: (old(regs).err_code / 2) % 2 == 1,
                    user: (old(regs).err_code / 4) % 2 == 1,
                    reserved: (old(regs).err_code / 8) % 2 == 1,
                    address: old(self).cpu.cr2,
                })),
            old(self).idt.handlers@[old(regs).int_no as int] == Handler::Timer
                ==> r is Ok && final(self).ticks == (if old(self).ticks == u32::MAX { 0 } else { old(self).ticks + 1 })
                    && final(self).gdt == old(self).gdt
                    && final(self).sched.current == (Task { regs: Some(*old(regs)), ..old(self).sched.current }),
            old(self).idt.handlers@[old(regs).int_no as int] == Handler::Syscall
                ==> syscall_effect(*old(self), Task { regs: Some(*old(regs)), ..old(self).sched.current },
                    *old(regs), *final(self), *final(regs), r),
            old(self).idt.handlers@[old(regs).int_no as int] != Handler::Syscall ==> {
                &&& final(self).sched.current == (Task { regs: Some(*old(regs)), ..old(self).sched.current })
                &&& final(self).sched.tasks@ == old(self).sched.tasks@
                &&& *final(regs) == *old(regs)
                &&& final(self).mem == old(self).mem
            },
    {
        self.sched.current.regs = Some(*regs);
        let mut ports = crate::util::replace(&mut self.ports, Vec::new());
        let mut w = eoi_writes(regs.int_no);
        ports.append(&mut w);
        let r = match self.idt.handler(regs.int_no) {
            Handler::Dummy => Err(Fault::Unhandled { int_no: regs.int_no, err_code: regs.err_code }),
            Handler::Exception => Err(Fault::Exception { int_no: regs.int_no, err_code: regs.err_code }),
            Handler::PageFault => Err(Fault::PageFault(page_fault(regs.err_code, self.cpu.cr2))),
            Handler::Syscall => self.syscall_handler(regs),
            Handler::Timer => {
                self.timer_handler();
                Ok(())
            },
            Handler::Keyboard => Ok(()),
        };
        self.ports = ports;
        r
    }
}

} // verus!
