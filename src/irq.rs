//! The two cascaded 8259 PICs: remapping IRQ 0-15 to vectors 32-47, the
//! line masks, and end-of-interrupt. Port writes are returned as values in
//! program order; whoever owns the ports performs them.
use vstd::prelude::*;
use crate::idt::{Idt, Handler, idt_entry, GATE_PRESENT, INTERRUPT_GATE};
use crate::gdt::KERNEL_CODE_SELECTOR;

verus! {

pub const IRQ_BASE: u32 = 32;
pub const MASTER_COMMAND: u16 = 0x20;
pub const MASTER_DATA: u16 = 0x21;
pub const SLAVE_COMMAND: u16 = 0xA0;
pub const SLAVE_DATA: u16 = 0xA1;
pub const EOI: u8 = 0x20;

/// One byte written to an I/O port.
#[derive(Clone, Copy, Debug, PartialEq, Eq, Structural)]
pub struct PortWrite {
    pub port: u16,
    pub value: u8,
}

pub open spec fn pw(port: u16, value: u8) -> PortWrite {
    PortWrite { port, value }
}

/// What the PICs are programmed with.
#[derive(Clone, Copy, Debug, PartialEq, Eq, Structural)]
pub struct Pic {
    pub master_offset: u8,
    pub slave_offset: u8,
    pub master_mask: u8,
    pub slave_mask: u8,
}

/// The initialisation sequence: ICW1 to both, ICW2 (offsets 0x20 and
/// 0x28), ICW3 (cascade on line 2), ICW4 (8086 mode), then every line
/// masked.
pub open spec fn init_writes() -> Seq<PortWrite> {
    seq![
        pw(0x20, 0x11), pw(0xA0, 0x11),
        pw(0x21, 0x20), pw(0xA1, 0x28),
        pw(0x21, 0x04), pw(0xA1, 0x02),
        pw(0x21, 0x01), pw(0xA1, 0x01),
        pw(0x21, 0x00), pw(0xA1, 0x00),
        pw(0x21, 0xFF), pw(0xA1, 0xFF),
    ]
}

/// The vector at which a remapped IRQ arrives.
pub open spec fn irq_vector(pic: Pic, irq: int) -> int {
    if irq < 8 { pic.master_offset + irq } else { pic.slave_offset + (irq - 8) }
}

/// Remaps the PICs; returns their state and the writes.
pub fn init() -> (r: (Pic, Vec<PortWrite>))
    ensures
        r.1@ == init_writes(),
        r.0 == (Pic { master_offset: 0x20, slave_offset: 0x28, master_mask: 0xFF, slave_mask: 0xFF }),
        forall|irq: int| 0 <= irq < 16 ==> #[trigger] irq_vector(r.0, irq) == IRQ_BASE + irq,
{
    let mut w: Vec<PortWrite> = Vec::new();
    w.push(PortWrite { port: 0x20, value: 0x11 });
    w.push(PortWrite { port: 0xA0, value: 0x11 });
    w.push(PortWrite { port: 0x21, value: 0x20 });
    w.push(PortWrite { port: 0xA1, value: 0x28 });
    w.push(PortWrite { port: 0x21, value: 0x04 });
    w.push(PortWrite { port: 0xA1, value: 0x02 });
    w.push(PortWrite { port: 0x21, value: 0x01 });
    w.push(PortWrite { port: 0xA1, value: 0x01 });
    w.push(PortWrite { port: 0x21, value: 0x00 });
    w.push(PortWrite { port: 0xA1, value: 0x00 });
    w.push(PortWrite { port: 0x21, value: 0xFF });
    w.push(PortWrite { port: 0xA1, value: 0xFF });
    assert(w@ =~= init_writes());
    (Pic { master_offset: 0x20, slave_offset: 0x28, master_mask: 0xFF, slave_mask: 0xFF }, w)
}

/// The mask with `irq`'s line cleared.
pub open spec fn unmasked(mask: u8, line: u8) -> u8 {
    mask & !((1u8 << line) as u8)
}

/// Unmasks `irq`: clears its bit in the master (IRQ 0-7) or the
/// slave (IRQ 8-15) mask, and returns the write of the new mask.
pub fn enable(pic: &mut Pic, irq: u32) -> (r: PortWrite)
    requires
        irq < 16,
    ensures
        irq < 8 ==> {
            &&& *final(pic) == (Pic { master_mask: unmasked(old(pic).master_mask, irq as u8), ..*old(pic) })
            &&& r == pw(MASTER_DATA, final(pic).master_mask)
        },
        irq >= 8 ==> {
            &&& *final(pic) == (Pic { slave_mask: unmasked(old(pic).slave_mask, (irq - 8) as u8), ..*old(pic) })
            &&& r == pw(SLAVE_DATA, final(pic).slave_mask)
        },
{
    if irq > 7 {
        let line = (irq - 8) as u8;
        pic.slave_mask = pic.slave_mask & !((1u8 << line) as u8);
        PortWrite { port: SLAVE_DATA, value: pic.slave_mask }
    } else {
        let line = irq as u8;
        pic.master_mask = pic.master_mask & !((1u8 << line) as u8);
        PortWrite { port: MASTER_DATA, value: pic.master_mask }
    }
}

/// Routes `irq` to `f` at vector `irq + 32` and unmasks its line
///.
pub fn register_handler(idt: &mut Idt, pic: &mut Pic, irq: u32, f: Handler) -> (r: PortWrite)
    requires
        old(idt).wf(),
        irq < 16,
    ensures
        final(idt).wf(),
        final(idt).stubs == old(idt).stubs,
        final(idt).entries@ == old(idt).entries@.update(irq + IRQ_BASE,
            idt_entry(old(idt).stubs@[irq + IRQ_BASE], KERNEL_CODE_SELECTOR, (GATE_PRESENT | INTERRUPT_GATE) as u8)),
        final(idt).handlers@ == old(idt).handlers@.update(irq + IRQ_BASE, f),
        final(pic).master_offset == old(pic).master_offset,
        final(pic).slave_offset == old(pic).slave_offset,
        irq < 8 ==> final(pic).master_mask == unmasked(old(pic).master_mask, irq as u8) && final(pic).slave_mask == old(pic).slave_mask
            && r == pw(MASTER_DATA, final(pic).master_mask),
        irq >= 8 ==> final(pic).slave_mask == unmasked(old(pic).slave_mask, (irq - 8) as u8) && final(pic).master_mask == old(pic).master_mask
            && r == pw(SLAVE_DATA, final(pic).slave_mask),
{
    idt.register_interrupt((irq + IRQ_BASE) as usize, f);
    enable(pic, irq)
}

/// The end-of-interrupt writes a trap with vector `int_no` needs: none
/// outside 32-47; the master always; the slave too for IRQ 8-15.
pub open spec fn eoi_writes_spec(int_no: u32) -> Seq<PortWrite> {
    if int_no < 32 || int_no > 47 {
        seq![]
    } else if int_no - 32 < 8 {
        seq![pw(MASTER_COMMAND, EOI)]
    } else {
        seq![pw(SLAVE_COMMAND, EOI), pw(MASTER_COMMAND, EOI)]
    }
}

pub fn eoi_writes(int_no: u32) -> (r: Vec<PortWrite>)
    ensures
        r@ == eoi_writes_spec(int_no),
{
    let mut w: Vec<PortWrite> = Vec::new();
    if int_no >= 32 && int_no <= 47 {
        let irq = int_no - 32;
        if irq >= 8 {
            w.push(PortWrite { port: SLAVE_COMMAND, value: EOI });
        }
        w.push(PortWrite { port: MASTER_COMMAND, value: EOI });
    }
    assert(w@ =~= eoi_writes_spec(int_no));
    w
}

/// Remapping: after `init`, IRQ 0 arrives at vector 32 and IRQ 15 at 47,
/// and a trap from IRQ 8-15 acknowledges both controllers.
pub proof fn lemma_pic_remap(pic: Pic, int_no: u32)
    requires
        pic.master_offset == 0x20,
        pic.slave_offset == 0x28,
        40 <= int_no <= 47,
    ensures
        irq_vector(pic, 0) == 32,
        irq_vector(pic, 15) == 47,
        eoi_writes_spec(int_no).contains(pw(MASTER_COMMAND, EOI)),
        eoi_writes_spec(int_no).contains(pw(SLAVE_COMMAND, EOI)),
{
    assert(eoi_writes_spec(int_no)[0] == pw(SLAVE_COMMAND, EOI));
    assert(eoi_writes_spec(int_no)[1] == pw(MASTER_COMMAND, EOI));
}

} // verus!
