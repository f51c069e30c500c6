use rost::ansi::{self, Ansi, Color, DeviceOp, State, Status};
use rost::drivers::{self, Character};
use rost::gdt::{Gdt, GdtEntry, GdtPtr, CODE, DATA, GRANULARITY, USER};
use rost::heap::{Heap, HEAP_START};
use rost::idt::{IdtEntry, IdtPtr};
use rost::list::List;
use rost::paging;
use rost::physical::PhysMem;
use rost::util::{convert, convert_radix, range, replace, print_formatted, InvalidFormat};

fn text(v: Vec<char>) -> String {
    v.into_iter().collect()
}

fn feed(a: &mut Ansi, s: &str) -> Vec<DeviceOp> {
    let mut out = Vec::new();
    for c in s.chars() {
        out.extend(a.step(c));
    }
    out
}

#[test]
fn radix_conversion() {
    assert_eq!(text(convert_radix(255, 16)), "0xff");
    assert_eq!(text(convert_radix(5, 2)), "0b101");
    assert_eq!(text(convert_radix(0, 16)), "0x0");
    assert_eq!(text(convert_radix(0, 10)), "0");
    assert_eq!(text(convert(1234)), "1234");
    assert_eq!(text(convert(u32::MAX)), "4294967295");
}

#[test]
fn range_lists_numbers() {
    assert_eq!(range(3, 6), vec![3, 4, 5]);
    assert!(range(6, 3).is_empty());
    assert!(range(4, 4).is_empty());
}

#[test]
fn replace_returns_old_value() {
    let mut x = 5;
    assert_eq!(replace(&mut x, 9), 5);
    assert_eq!(x, 9);
}

#[test]
fn list_is_fifo() {
    let mut l: List<u32> = List::new();
    assert!(l.is_empty());
    assert_eq!(l.front(), None);
    assert_eq!(l.pop_front(), None);
    l.append(1);
    l.append(2);
    l.prepend(0);
    assert_eq!(l.len(), 3);
    assert_eq!(l.front(), Some(&0));
    assert_eq!(l.back(), Some(&2));
    *l.front_mut().unwrap() = 10;
    *l.back_mut().unwrap() = 20;
    assert_eq!(l.iter(), &[10, 1, 20]);
    assert_eq!(l.pop_front(), Some(10));
    assert_eq!(l.pop_front(), Some(1));
    assert_eq!(l.pop_front(), Some(20));
    assert_eq!(l.pop_front(), None);
}

#[test]
fn ansi_plain_text_passes_through() {
    let mut a = Ansi::new();
    assert_eq!(feed(&mut a, "ab"), vec![DeviceOp::Char('a' as u32), DeviceOp::Char('b' as u32)]);
    assert_eq!(a.status, Status::Idle);
}

#[test]
fn ansi_sgr_sets_colours() {
    let mut a = Ansi::new();
    let ops = feed(&mut a, "\x1b[31;1m");
    assert_eq!(ops, vec![DeviceOp::SetColor { fore: Color::Red, back: Color::Black, flags: ansi::BRIGHT }]);
    let ops = feed(&mut a, "\x1b[0;30;47m");
    assert_eq!(ops, vec![DeviceOp::SetColor { fore: Color::Black, back: Color::White, flags: 0 }]);
    let ops = feed(&mut a, "\x1b[7m");
    assert_eq!(ops, vec![DeviceOp::SetColor { fore: Color::White, back: Color::Black, flags: 0 }]);
    let ops = feed(&mut a, "\x1b[m");
    assert_eq!(ops, vec![DeviceOp::SetColor { fore: Color::White, back: Color::Black, flags: 0 }]);
    assert!(a.buf().is_empty());
}

#[test]
fn ansi_cursor_and_broken_escape() {
    let mut a = Ansi::new();
    assert_eq!(feed(&mut a, "\x1b[3A"), vec![DeviceOp::MoveCursor { code: 'A' as u32, distance: 3 }]);
    assert_eq!(feed(&mut a, "\x1b[C"), vec![DeviceOp::MoveCursor { code: 'C' as u32, distance: 0 }]);
    assert_eq!(feed(&mut a, "\x1b[;2B"), vec![DeviceOp::MoveCursor { code: 'B' as u32, distance: 0 }]);
    assert_eq!(feed(&mut a, "\x1b[!D"), vec![DeviceOp::MoveCursor { code: 'D' as u32, distance: 1 }]);
    assert_eq!(feed(&mut a, "\x1bx"), vec![DeviceOp::Char(0x1b), DeviceOp::Char('x' as u32)]);
    assert_eq!(feed(&mut a, "\x1b[5Z"), vec![]);
    assert_eq!(a.status, Status::Idle);
}

#[test]
fn sgr_arguments() {
    let mut s = State::default();
    s.handle_sgr(&['3', '4']);
    assert_eq!(s.fg, Color::Blue);
    s.handle_sgr(&['4', '2']);
    assert_eq!(s.bg, Color::Green);
    s.handle_sgr(&['4']);
    assert_eq!(s.flags, ansi::UNDERLINE);
    s.handle_sgr(&['x']);
    assert_eq!(s.fg, Color::Blue);
    s.handle_sgr(&['3', '9']);
    assert_eq!(s.fg, Color::White);
    assert_eq!(ansi::from_str(&['1', '2']), Some(12));
    assert_eq!(ansi::from_str(&[]), Some(0));
    assert_eq!(ansi::from_str(&['9', '9', '9', '9', '9', '9', '9', '9', '9', '9', '9']), None);
    assert_eq!(ansi::fg(9), Color::White);
    assert_eq!(ansi::bg(9), Color::Black);
}

#[test]
fn vga_colours_and_cells() {
    assert_eq!(drivers::translate_color(Color::Yellow, 0), 6);
    assert_eq!(drivers::translate_fg(Color::Red, ansi::BRIGHT), 12);
    assert_eq!(drivers::translate_bg(Color::White), 7);
    let c = Character::make(b'A', 15, 1);
    assert_eq!(c.ch, b'A');
    assert_eq!(c.attr, 0x1F);
}

#[test]
fn device_port_programming() {
    let w = drivers::serial_init();
    assert_eq!(w.len(), 7);
    assert!(drivers::is_transmit_empty(0x20));
    assert!(!drivers::is_transmit_empty(0x1F));
}

#[test]
fn gdt_layout_is_flat() {
    let g = Gdt::init(0x1000);
    assert_eq!(g.entries.len(), 6);
    assert_eq!(g.entries[0], GdtEntry::new(0, 0, 0, 0));
    let code = g.entries[1];
    assert_eq!(code.limit_low, 0xFFFF);
    assert_eq!(code.granularity, 0xCF);
    assert_eq!(code.access, 0x9A);
    assert_eq!(g.entries[2].access, 0x92);
    assert_eq!(g.entries[3].access, USER | CODE);
    assert_eq!(g.entries[4].access, 0xF2);
    assert_eq!(g.entries[5].base_low, 0x1000);
    assert_eq!(g.tss.ss0, 0x10);
    assert_eq!(GdtPtr::new(0x2000).limit, 48);
    assert_eq!(DATA, 0x92);
    assert_eq!(GRANULARITY, 0xC0);
    let e = IdtEntry::new(0x1234_5678, 0x08, 0x8E);
    assert_eq!((e.handler_low, e.handler_high), (0x5678, 0x1234));
    assert_eq!(IdtPtr::new(0).limit, 2047);
}

#[test]
fn heap_maps_pages_as_needed() {
    let mut mem = PhysMem::new(0x10000);
    let d = paging::init(&mut mem);
    let mut h = Heap::new();
    let a = h.malloc(&mut mem, d, 100);
    assert_eq!(a, HEAP_START);
    let b = h.malloc(&mut mem, d, 5000);
    assert_eq!(b, HEAP_START + 100);
    assert_eq!(h.next, HEAP_START + 5100);
    for va in [HEAP_START, HEAP_START + 0x1000] {
        assert!(rost::pte::page_present(paging::get_page(&mem, d, va)));
    }
    assert_eq!(paging::get_page(&mem, d, HEAP_START + 0x2000), 0);
    let c = h.realloc(&mut mem, d, a, 8);
    assert_eq!(c, HEAP_START + 5100);
}

#[test]
fn placeholders_print_values() {
    let f: Vec<char> = "n={}, h={x}".chars().collect();
    let (used, out) = print_formatted(&f, 2, 42).unwrap();
    assert_eq!(used, 2);
    assert_eq!(text(out), "42");
    let (used, out) = print_formatted(&f, 8, 255).unwrap();
    assert_eq!(used, 3);
    assert_eq!(text(out), "0xff");
    let bad: Vec<char> = "{y}".chars().collect();
    assert_eq!(print_formatted(&bad, 0, 1), Err(InvalidFormat));
    let open: Vec<char> = "{x".chars().collect();
    let (used, out) = print_formatted(&open, 0, 7).unwrap();
    assert_eq!(used, 2);
    assert!(out.is_empty());
    assert_eq!(rost::util::write(&['o', 'k']), vec!['o', 'k']);
}

#[test]
fn realloc_copies_the_old_block() {
    let mut mem = PhysMem::new(0x10000);
    let d = paging::init(&mut mem);
    let mut h = Heap::new();
    let a = h.malloc(&mut mem, d, 8);
    for (i, b) in [1u8, 2, 3, 4, 5, 6, 7, 8].iter().enumerate() {
        assert!(rost::kernel::write_user_byte(&mut mem, d, a + i as u32, *b));
    }
    let c = h.realloc(&mut mem, d, a, 8);
    assert_eq!(c, a + 8);
    for i in 0..8u32 {
        assert_eq!(rost::kernel::read_user_byte(&mem, d, c + i), Some(i as u8 + 1));
        assert_eq!(rost::kernel::read_user_byte(&mem, d, a + i), Some(i as u8 + 1));
    }
}
