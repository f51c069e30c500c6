use rost::ansi::{Ansi, Device};
use rost::irq::PortWrite;
use rost::vga::{Console, Screen, COLS};
use rost::keyboard::Keyboard;

fn row_text(s: &Screen, y: usize) -> String {
    s.cells[y * COLS..(y + 1) * COLS].iter().map(|c| c.ch as char).collect::<String>().trim_end().to_string()
}

#[test]
fn putch_writes_cells_and_moves_cursor() {
    let mut s = Screen::new();
    let w = s.putch(b'h');
    s.putch(b'i');
    assert_eq!(row_text(&s, 0), "hi");
    assert_eq!(s.get_cursor(), (2, 0));
    assert_eq!(s.cells[0].attr, 0x07);
    assert_eq!(w, vec![
        PortWrite { port: 0x3D4, value: 0x0F }, PortWrite { port: 0x3D5, value: 1 },
        PortWrite { port: 0x3D4, value: 0x0E }, PortWrite { port: 0x3D5, value: 0 },
    ]);
    s.putch(b'\n');
    assert_eq!(s.get_cursor(), (0, 1));
    s.putch(b'a');
    s.putch(b'\t');
    assert_eq!(s.get_cursor(), (4, 1));
    s.putch(0x08);
    assert_eq!(s.get_cursor(), (3, 1));
    s.putch(0x08);
    s.putch(0x08);
    s.putch(0x08);
    assert_eq!(s.get_cursor(), (0, 1));
    s.putch(0x08);
    assert_eq!(s.get_cursor(), (79, 0));
}

#[test]
fn line_wraps_and_screen_clears_past_the_end() {
    let mut s = Screen::new();
    for _ in 0..80 {
        s.putch(b'x');
    }
    assert_eq!(s.get_cursor(), (0, 1));
    for _ in 0..24 {
        s.putch(b'\n');
    }
    assert_eq!(s.get_cursor(), (0, 25));
    s.putch(b'y');
    assert_eq!(row_text(&s, 0), "y");
    assert_eq!(s.get_cursor(), (1, 0));
}

#[test]
fn colours_and_cursor_through_escapes() {
    let mut s = Screen::new();
    let mut a = Ansi::new();
    for c in "\x1b[31;1mR\x1b[2Cz".chars() {
        a.put(c, &mut s);
    }
    assert_eq!(s.cells[0].ch, b'R');
    assert_eq!(s.cells[0].attr, 0x0C);
    assert_eq!(s.cells[3].ch, b'z');
    s.clear_screen();
    assert_eq!(row_text(&s, 0), "");
    assert_eq!(s.get_cursor(), (0, 0));
    Device::write(&mut s, 'Q' as u32);
    assert_eq!(s.cells[0].ch, b'Q');
}

#[test]
fn keyboard_maps_scancodes() {
    let mut kb = Keyboard::new();
    assert_eq!(kb.keyboard_handler(0, 0x1E), None);
    assert_eq!(kb.keyboard_handler(1, 0x1E), Some(b'a'));
    assert_eq!(kb.keyboard_handler(1, 0x02), Some(b'1'));
    assert_eq!(kb.keyboard_handler(1, 0x2A), None);
    assert_eq!(kb.keyboard_handler(1, 0x1E), Some(b'A'));
    assert_eq!(kb.keyboard_handler(1, 0x02), Some(b'!'));
    assert_eq!(kb.keyboard_handler(1, 0xAA), None);
    assert_eq!(kb.keyboard_handler(1, 0x1E), Some(b'a'));
    assert_eq!(kb.keyboard_handler(1, 0x3A), None);
    assert_eq!(kb.keyboard_handler(1, 0x10), Some(b'Q'));
    assert_eq!(kb.keyboard_handler(1, 0x7F), None);
}

#[test]
fn console_prints_plain_then_through_escapes() {
    let mut c = Console { ansi: None, screen: Screen::new() };
    c.print('a');
    assert_eq!(c.screen.cells[0].ch, b'a');
    c.init();
    for ch in "\x1b[32mb".chars() {
        c.print(ch);
    }
    assert_eq!(c.screen.cells[1].ch, b'b');
    assert_eq!(c.screen.cells[1].attr, 0x02);
}

#[test]
fn escapes_reach_the_device_in_order() {
    let mut s = Screen::new();
    let mut a = Ansi::new();
    for c in "\x1b[2Bq".chars() {
        a.put(c, &mut s);
    }
    assert_eq!(s.get_cursor(), (1, 2));
    assert_eq!(s.cells[2 * COLS].ch, b'q');
}
