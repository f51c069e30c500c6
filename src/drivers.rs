//! The device side the core needs: VGA colours and cells, and the port
//! programming of the PIT, the keyboard line and the COM1 serial port.
use vstd::prelude::*;
use crate::ansi::{Color, BRIGHT};
use crate::idt::{Idt, Handler, idt_entry, GATE_PRESENT, INTERRUPT_GATE};
use crate::gdt::KERNEL_CODE_SELECTOR;
use crate::irq::{Pic, PortWrite, pw, register_handler, unmasked};

verus! {

pub const VGA_BLACK: u8 = 0;
pub const VGA_BLUE: u8 = 1;
pub const VGA_GREEN: u8 = 2;
pub const VGA_CYAN: u8 = 3;
pub const VGA_RED: u8 = 4;
pub const VGA_MAGENTA: u8 = 5;
pub const VGA_BROWN: u8 = 6;
pub const VGA_WHITE: u8 = 7;
pub const VGA_BRIGHT: u8 = 8;
/// Timer interrupts per second.
pub const PIT_HZ: u32 = 100;
pub const PIT_BASE_FREQUENCY: u32 = 1193180;
pub const COM1: u16 = 0x3F8;

/// The VGA colour of an ANSI colour.
pub open spec fn vga_color(c: Color) -> u8 {
    match c {
        Color::Black => 0,
        Color::Blue => 1,
        Color::Green => 2,
        Color::Cyan => 3,
        Color::Red => 4,
        Color::Magenta => 5,
        Color::Yellow => 6,
        Color::White => 7,
    }
}

/// The VGA colour for `color`, bright when `flags` has BRIGHT
///.
pub fn translate_color(color: Color, flags: u8) -> (r: u8)
    ensures
        r == (if flags & BRIGHT != 0 { vga_color(color) + 8 } else { vga_color(color) as int }),
{
    let c: u8 = match color {
        Color::Black => VGA_BLACK,
        Color::Blue => VGA_BLUE,
        Color::Green => VGA_GREEN,
        Color::Cyan => VGA_CYAN,
        Color::Red => VGA_RED,
        Color::Magenta => VGA_MAGENTA,
        Color::Yellow => VGA_BROWN,
        Color::White => VGA_WHITE,
    };
    if flags & BRIGHT != 0 {
        assert(c | 8 == c + 8) by (bit_vector) requires c < 8;
        c | VGA_BRIGHT
    } else {
        c
    }
}

/// Foreground colour.
pub fn translate_fg(color: Color, flags: u8) -> (r: u8)
    ensures
        r == (if flags & BRIGHT != 0 { vga_color(color) + 8 } else { vga_color(color) as int }),
{
    translate_color(color, flags)
}

/// Background colour: never bright.
pub fn translate_bg(color: Color) -> (r: u8)
    ensures
        r == vga_color(color),
{
    assert(0u8 & 1u8 == 0) by (bit_vector);
    translate_color(color, 0)
}

/// A VGA text cell.
#[derive(Clone, Copy, Debug, PartialEq, Eq, Structural)]
pub struct Character {
    pub ch: u8,
    pub attr: u8,
}

impl Character {
    /// The cell for `c` in colours `fg` on `bg`.
    pub fn make(c: u8, fg: u8, bg: u8) -> (r: Character)
        requires
            fg < 16,
            bg < 16,
        ensures
            r.ch == c,
            r.attr == fg as int + 16 * bg as int,
    {
        assert(fg | ((bg << 4u8) as u8) == fg + 16 * bg) by (bit_vector) requires fg < 16, bg < 16;
        Character { ch: c, attr: fg | ((bg << 4u8) as u8) }
    }
}

/// The PIT divisor for `PIT_HZ`.
pub open spec fn pit_divisor() -> int {
    PIT_BASE_FREQUENCY as int / PIT_HZ as int
}

/// Routes IRQ 0 to the timer handler and programs the PIT to `PIT_HZ`
/// (channel 0, mode 3, divisor low byte then high byte). Returns the port
/// writes: the unmask, then the PIT's.
pub fn timer_init(idt: &mut Idt, pic: &mut Pic) -> (r: Vec<PortWrite>)
    requires
        old(idt).wf(),
    ensures
        final(idt).wf(),
        final(idt).handlers@ == old(idt).handlers@.update(32, Handler::Timer),
        final(idt).stubs == old(idt).stubs,
        final(idt).entries@ == old(idt).entries@.update(32,
            idt_entry(old(idt).stubs@[32], KERNEL_CODE_SELECTOR, (GATE_PRESENT | INTERRUPT_GATE) as u8)),
        final(pic).master_mask == unmasked(old(pic).master_mask, 0),
        final(pic).master_offset == old(pic).master_offset,
        final(pic).slave_offset == old(pic).slave_offset,
        r@ == seq![
            pw(0x21, final(pic).master_mask),
            pw(0x43, 0x36),
            pw(0x40, (pit_divisor() % 256) as u8),
            pw(0x40, (pit_divisor() / 256) as u8),
        ],
{
    let mut w: Vec<PortWrite> = Vec::new();
    w.push(register_handler(idt, pic, 0, Handler::Timer));
    let divisor: u32 = PIT_BASE_FREQUENCY / PIT_HZ;
    assert(divisor == 11931);
    w.push(PortWrite { port: 0x43, value: 0x36 });
    w.push(PortWrite { port: 0x40, value: (divisor % 256) as u8 });
    w.push(PortWrite { port: 0x40, value: ((divisor / 256) % 256) as u8 });
    assert(w@ =~= seq![
        pw(0x21, pic.master_mask),
        pw(0x43, 0x36),
        pw(0x40, (pit_divisor() % 256) as u8),
        pw(0x40, (pit_divisor() / 256) as u8),
    ]);
    w
}

/// Routes IRQ 1 to the keyboard handler (keyboard `init`).
pub fn keyboard_init(idt: &mut Idt, pic: &mut Pic) -> (r: PortWrite)
    requires
        old(idt).wf(),
    ensures
        final(idt).wf(),
        final(idt).handlers@ == old(idt).handlers@.update(33, Handler::Keyboard),
        final(idt).stubs == old(idt).stubs,
        final(idt).entries@ == old(idt).entries@.update(33,
            idt_entry(old(idt).stubs@[33], KERNEL_CODE_SELECTOR, (GATE_PRESENT | INTERRUPT_GATE) as u8)),
        final(pic).master_mask == unmasked(old(pic).master_mask, 1),
        final(pic).master_offset == old(pic).master_offset,
        final(pic).slave_offset == old(pic).slave_offset,
        r == pw(0x21, final(pic).master_mask),
{
    register_handler(idt, pic, 1, Handler::Keyboard)
}

/// COM1 at 38400 baud, 8N1, FIFO on (serial `init`).
pub fn serial_init() -> (r: Vec<PortWrite>)
    ensures
        r@ == seq![
            pw(0x3F9, 0x00), pw(0x3FB, 0x80), pw(0x3F8, 0x03), pw(0x3F9, 0x00),
            pw(0x3FB, 0x03), pw(0x3FA, 0xC7), pw(0x3FC, 0x0B),
        ],
{
    let mut w: Vec<PortWrite> = Vec::new();
    w.push(PortWrite { port: COM1 + 1, value: 0x00 });
    w.push(PortWrite { port: COM1 + 3, value: 0x80 });
    w.push(PortWrite { port: COM1, value: 0x03 });
    w.push(PortWrite { port: COM1 + 1, value: 0x00 });
    w.push(PortWrite { port: COM1 + 3, value: 0x03 });
    w.push(PortWrite { port: COM1 + 2, value: 0xC7 });
    w.push(PortWrite { port: COM1 + 4, value: 0x0B });
    assert(w@ =~= seq![
        pw(0x3F9, 0x00), pw(0x3FB, 0x80), pw(0x3F8, 0x03), pw(0x3F9, 0x00),
        pw(0x3FB, 0x03), pw(0x3FA, 0xC7), pw(0x3FC, 0x0B),
    ]);
    w
}

/// Whether the serial line status byte says the transmitter is empty
///.
pub fn is_transmit_empty(status: u8) -> (r: bool)
    ensures
        r == (status & 0x20 != 0),
{
    status & 0x20 != 0
}

} // verus!
