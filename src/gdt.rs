//! Segmentation: six flat descriptors (null, ring-0 code and data, ring-3
//! code and data, TSS) and the task-state segment whose `esp0` names the
//! kernel stack used when an interrupt arrives from ring 3.
use vstd::prelude::*;
use crate::idt::Cpu;

verus! {

pub const GDT_SIZE: usize = 6;
pub const GRANULARITY: u8 = 0xC0;
pub const ACCESSED: u8 = 1;
pub const RW: u8 = 2;
pub const EXECUTE: u8 = 8;
pub const ALWAYS1: u8 = 16;
pub const PRESENT: u8 = 128;
/// Descriptor privilege level 3.
pub const USER: u8 = 0x60;
pub const CODE: u8 = 0x9A;
pub const DATA: u8 = 0x92;

pub const KERNEL_CODE_SELECTOR: u16 = 0x08;
pub const KERNEL_DATA_SELECTOR: u16 = 0x10;
pub const USER_CODE_SELECTOR: u16 = 0x1B;
pub const USER_DATA_SELECTOR: u16 = 0x23;
pub const TSS_SELECTOR: u16 = 0x2B;
/// Bytes in a task-state segment.
pub const TSS_SIZE: u32 = 104;

#[derive(Clone, Copy, Debug, PartialEq, Eq, Structural)]
pub struct GdtEntry {
    pub limit_low: u16,
    pub base_low: u16,
    pub base_middle: u8,
    pub access: u8,
    pub granularity: u8,
    pub base_high: u8,
}

/// The descriptor for `base`, `limit`, `access` and the upper nibble of
/// `granularity`.
pub open spec fn gdt_entry(base: u32, limit: u32, access: u8, granularity: u8) -> GdtEntry {
    GdtEntry {
        limit_low: (limit % 0x10000) as u16,
        base_low: (base % 0x10000) as u16,
        base_middle: ((base / 0x10000) % 0x100) as u8,
        access,
        granularity: (((limit / 0x10000) % 0x10) + (granularity - granularity % 0x10)) as u8,
        base_high: (base / 0x1000000) as u8,
    }
}

impl GdtEntry {
    pub fn new(base: u32, limit: u32, access: u8, granularity: u8) -> (r: GdtEntry)
        ensures
            r == gdt_entry(base, limit, access, granularity),
    {
        let lim = ((limit >> 16) & 0x0F) as u8;
        let g = granularity & 0xF0;
        assert(lim | g == ((limit / 0x10000) % 0x10) + (granularity - granularity % 0x10)) by (bit_vector)
            requires lim == ((limit >> 16) & 0x0F) as u8, g == granularity & 0xF0u8;
        assert(base & 0xFFFF == base % 0x10000 && (base >> 16) & 0xFF == (base / 0x10000) % 0x100
            && (base >> 24) & 0xFF == base / 0x1000000 && limit & 0xFFFF == limit % 0x10000) by (bit_vector);
        GdtEntry {
            limit_low: (limit & 0xFFFF) as u16,
            base_low: (base & 0xFFFF) as u16,
            base_middle: ((base >> 16) & 0xFF) as u8,
            access,
            granularity: lim | g,
            base_high: ((base >> 24) & 0xFF) as u8,
        }
    }
}

/// The operand of `lgdt`: size and address of the table.
#[derive(Clone, Copy, Debug, PartialEq, Eq, Structural)]
pub struct GdtPtr {
    pub limit: u16,
    pub base: u32,
}

impl GdtPtr {
    pub fn new(table: u32) -> (r: GdtPtr)
        ensures
            r.limit == 8 * GDT_SIZE,
            r.base == table,
    {
        GdtPtr { limit: 48, base: table }
    }
}

/// The fields of the task-state segment that this kernel uses.
#[derive(Clone, Copy, Debug, PartialEq, Eq, Structural)]
pub struct TssEntry {
    pub esp0: u32,
    pub ss0: u32,
    pub iomap_base: u16,
}

impl TssEntry {
    /// The descriptor for a TSS stored at `address`.
    pub fn as_gdt_entry(&self, address: u32) -> (r: GdtEntry)
        ensures
            r == gdt_entry(address, TSS_SIZE, (PRESENT | EXECUTE | ACCESSED) as u8, 0),
    {
        GdtEntry::new(address, TSS_SIZE, PRESENT | EXECUTE | ACCESSED, 0)
    }
}

/// The descriptor table and the TSS it refers to.
pub struct Gdt {
    pub entries: Vec<GdtEntry>,
    pub tss: TssEntry,
}

/// The six descriptors, given where the TSS lives.
pub open spec fn gdt_layout(tss_address: u32) -> Seq<GdtEntry> {
    seq![
        gdt_entry(0, 0, 0, 0),
        gdt_entry(0, 0xFFFF_FFFF, CODE, GRANULARITY),
        gdt_entry(0, 0xFFFF_FFFF, DATA, GRANULARITY),
        gdt_entry(0, 0xFFFF_FFFF, (USER | CODE) as u8, GRANULARITY),
        gdt_entry(0, 0xFFFF_FFFF, (USER | DATA) as u8, GRANULARITY),
        gdt_entry(tss_address, TSS_SIZE, (PRESENT | EXECUTE | ACCESSED) as u8, 0),
    ]
}

impl Gdt {
    /// Null, flat ring-0 code and data, flat ring-3 code and data, and the
    /// TSS (kernel stack segment 0x10, `esp0` zero until the first task).
    pub fn init(tss_address: u32) -> (r: Gdt)
        ensures
            r.entries@ == gdt_layout(tss_address),
            r.tss.ss0 == KERNEL_DATA_SELECTOR,
            r.tss.esp0 == 0,
            r.tss.iomap_base == TSS_SIZE,
    {
        let mut entries: Vec<GdtEntry> = Vec::new();
        entries.push(GdtEntry::new(0, 0, 0, 0));
        entries.push(GdtEntry::new(0, 0xFFFF_FFFF, CODE, GRANULARITY));
        entries.push(GdtEntry::new(0, 0xFFFF_FFFF, DATA, GRANULARITY));
        entries.push(GdtEntry::new(0, 0xFFFF_FFFF, USER | CODE, GRANULARITY));
        entries.push(GdtEntry::new(0, 0xFFFF_FFFF, USER | DATA, GRANULARITY));
        let tss = write_tss(KERNEL_DATA_SELECTOR as u32, 0);
        entries.push(tss.as_gdt_entry(tss_address));
        assert(entries@ =~= gdt_layout(tss_address));
        Gdt { entries, tss }
    }

    /// Records the kernel stack for the next ring-3 to ring-0 transition
    ///.
    pub fn set_kernel_stack(&mut self, esp: u32)
        ensures
            final(self).tss == (TssEntry { esp0: esp, ..old(self).tss }),
            final(self).entries == old(self).entries,
    {
        self.tss.esp0 = esp;
    }
}

/// Loads the table: the code selector 0x08 through a far
/// jump, the kernel data selector 0x10 into every data and stack segment
/// register, then the TSS selector into the task register.
pub fn flush(cpu: &mut Cpu)
    ensures
        *final(cpu) == (Cpu {
            cs: KERNEL_CODE_SELECTOR,
            ds: KERNEL_DATA_SELECTOR,
            es: KERNEL_DATA_SELECTOR,
            fs: KERNEL_DATA_SELECTOR,
            gs: KERNEL_DATA_SELECTOR,
            ss: KERNEL_DATA_SELECTOR,
            tr: TSS_SELECTOR,
            ..*old(cpu)
        }),
{
    cpu.cs = KERNEL_CODE_SELECTOR;
    cpu.ds = KERNEL_DATA_SELECTOR;
    cpu.es = KERNEL_DATA_SELECTOR;
    cpu.fs = KERNEL_DATA_SELECTOR;
    cpu.gs = KERNEL_DATA_SELECTOR;
    cpu.ss = KERNEL_DATA_SELECTOR;
    cpu.tr = TSS_SELECTOR;
}

/// A TSS with the given kernel stack.
pub fn write_tss(ss0: u32, esp0: u32) -> (r: TssEntry)
    ensures
        r == (TssEntry { esp0, ss0, iomap_base: TSS_SIZE as u16 }),
{
    TssEntry { esp0, ss0, iomap_base: TSS_SIZE as u16 }
}

} // verus!
