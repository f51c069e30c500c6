//! The VGA text console: 80x25 cells of character and colour, a cursor,
//! and the CRT controller writes that move the hardware cursor.
use vstd::prelude::*;
use crate::drivers::Character;
use crate::irq::{PortWrite, pw};
use crate::ansi::{Ansi, Color, Device, BUFFER_SIZE};
use crate::drivers::{translate_fg, translate_bg};

verus! {

pub const ROWS: usize = 25;
pub const COLS: usize = 80;
pub const CELLS: usize = 2000;
pub const WHITE: u8 = 7;
pub const BLACK: u8 = 0;

pub struct Screen {
    /// What the screen was asked to do as an escape-sequence device.
    pub log: Ghost<Seq<crate::ansi::DeviceOp>>,
    pub cells: Vec<Character>,
    pub x: usize,
    pub y: usize,
    pub fg: u8,
    pub bg: u8,
}

pub open spec fn blank() -> Character {
    Character { ch: 0x20, attr: 7 }
}

/// The cursor after moving `steps` cells forward, wrapping at the end of
/// a row.
pub open spec fn forward(x: int, y: int, steps: int) -> (int, int) {
    ((x + steps) % 80, y + (x + steps) / 80)
}

/// The cursor after a backspace.
pub open spec fn back(x: int, y: int) -> (int, int) {
    if x != 0 { (x - 1, y) } else if y != 0 { (79, y - 1) } else { (0, 0) }
}

impl Screen {
    pub open spec fn wf(&self) -> bool {
        &&& self.cells@.len() == CELLS
        &&& self.x < COLS
        &&& self.y <= ROWS
        &&& self.fg < 16
        &&& self.bg < 16
    }

    /// A blank screen, cursor at the top left, white on black.
    pub fn new() -> (r: Screen)
        ensures
            r.wf(),
            r.x == 0 && r.y == 0 && r.fg == WHITE && r.bg == BLACK,
            forall|i: int| 0 <= i < CELLS ==> #[trigger] r.cells@[i] == blank(),
    {
        let mut cells: Vec<Character> = Vec::new();
        let mut i: usize = 0;
        while i < CELLS
            invariant
                i <= CELLS,
                cells@.len() == i,
                forall|j: int| 0 <= j < i ==> #[trigger] cells@[j] == blank(),
            decreases CELLS - i,
        {
            cells.push(Character::make(0x20, WHITE, BLACK));
            i = i + 1;
        }
        Screen { log: Ghost(Seq::empty()), cells, x: 0, y: 0, fg: WHITE, bg: BLACK }
    }

    /// Blanks every cell and homes the cursor.
    pub fn clear_screen(&mut self)
        requires
            old(self).wf(),
        ensures
            final(self).wf(),
            final(self).x == 0 && final(self).y == 0,
            final(self).fg == old(self).fg && final(self).bg == old(self).bg,
            forall|i: int| 0 <= i < CELLS ==> #[trigger] final(self).cells@[i] == blank(),
    {
        let mut i: usize = 0;
        while i < CELLS
            invariant
                i <= CELLS,
                self.cells@.len() == CELLS,
                self.x < COLS && self.y <= ROWS && self.fg < 16 && self.bg < 16,
                self.fg == old(self).fg && self.bg == old(self).bg,
                forall|j: int| 0 <= j < i ==> #[trigger] self.cells@[j] == blank(),
            decreases CELLS - i,
        {
            self.cells.set(i, Character::make(0x20, WHITE, BLACK));
            i = i + 1;
        }
        self.x = 0;
        self.y = 0;
    }

    /// The cursor.
    pub fn get_cursor(&self) -> (r: (usize, usize))
        ensures
            r == (self.x, self.y),
    {
        (self.x, self.y)
    }

    /// Places the cursor; returns the controller writes.
    pub fn move_cursor(&mut self, x: usize, y: usize) -> (r: Vec<PortWrite>)
        requires
            old(self).wf(),
            x < COLS,
            y <= ROWS,
        ensures
            final(self).wf(),
            final(self).x == x && final(self).y == y,
            final(self).cells == old(self).cells,
            final(self).fg == old(self).fg && final(self).bg == old(self).bg,
            r@ == cursor_writes(x as int, y as int),
    {
        self.x = x;
        self.y = y;
        update_cursor(x, y)
    }

    /// Colours for the following characters.
    pub fn set_color(&mut self, fg: u8, bg: u8)
        requires
            old(self).wf(),
            fg < 16,
            bg < 16,
        ensures
            final(self).wf(),
            final(self).fg == fg && final(self).bg == bg,
            final(self).cells == old(self).cells,
            final(self).x == old(self).x && final(self).y == old(self).y,
    {
        self.fg = fg;
        self.bg = bg;
    }

    /// Stores a cell at row `y`, column `x`; a row past the screen is
    /// not stored.
    fn put_cell(&mut self, y: usize, x: usize, c: Character)
        requires
            old(self).wf(),
            x < COLS,
            y <= ROWS,
        ensures
            final(self).wf(),
            y < ROWS ==> final(self).cells@ == old(self).cells@.update(y * 80 + x, c),
            y == ROWS ==> final(self).cells@ == old(self).cells@,
            final(self).x == old(self).x && final(self).y == old(self).y,
            final(self).fg == old(self).fg && final(self).bg == old(self).bg,
    {
        if y < ROWS {
            self.cells.set(y * COLS + x, c);
        }
    }

    /// Writes one character at the cursor: newline, tab to the
    /// next multiple of four, backspace blanking the previous cell, or a
    /// printable cell; the screen is cleared first when the cursor has run
    /// off its end. Returns the controller writes for the new cursor.
    pub fn putch(&mut self, c: u8) -> (r: Vec<PortWrite>)
        requires
            old(self).wf(),
        ensures
            final(self).wf(),
            final(self).fg == old(self).fg && final(self).bg == old(self).bg,
            r@ == cursor_writes(final(self).x as int, final(self).y as int),
            ({
                let (x0, y0) = if old(self).y >= ROWS { (0int, 0int) } else { (old(self).x as int, old(self).y as int) };
                &&& c == 0x0A ==> final(self).x == 0 && final(self).y == y0 + 1
                &&& c == 0x09 ==> (final(self).x as int, final(self).y as int) == forward(x0, y0, 4 - (x0 + 4) % 4)
                &&& c == 0x08 ==> (final(self).x as int, final(self).y as int) == back(x0, y0)
                &&& (c != 0x0A && c != 0x09 && c != 0x08) ==> {
                    &&& (final(self).x as int, final(self).y as int) == forward(x0, y0, 1)
                    &&& y0 < 25 ==> final(self).cells@[y0 * 80 + x0] == (Character {
                        ch: c, attr: (old(self).fg + 16 * old(self).bg) as u8 })
                }
            }),
    {
        if self.y >= ROWS {
            self.clear_screen();
        }
        if c == 0x0A {
            self.x = 0;
            self.y = self.y + 1;
        } else if c == 0x09 {
            let steps = 4 - (self.x + 4) % 4;
            self.forward_cursor(steps);
        } else if c == 0x08 {
            if self.x != 0 {
                self.x = self.x - 1;
            } else if self.y != 0 {
                self.x = COLS - 1;
                self.y = self.y - 1;
            }
            let (x, y) = (self.x, self.y);
            self.put_cell(y, x, Character::make(0x20, WHITE, BLACK));
        } else {
            let (x, y) = (self.x, self.y);
            let cell = Character::make(c, self.fg, self.bg);
            self.put_cell(y, x, cell);
            self.forward_cursor(1);
        }
        update_cursor(self.x, self.y)
    }

    /// Moves the cursor `steps` (at most four) cells forward, wrapping
    /// rows.
    fn forward_cursor(&mut self, steps: usize)
        requires
            old(self).wf(),
            old(self).y < ROWS,
            1 <= steps <= 4,
        ensures
            final(self).wf(),
            (final(self).x as int, final(self).y as int) == forward(old(self).x as int, old(self).y as int, steps as int),
            final(self).cells == old(self).cells,
            final(self).fg == old(self).fg && final(self).bg == old(self).bg,
    {
        let nx = self.x + steps;
        if nx >= COLS {
            self.x = nx - COLS;
            self.y = self.y + 1;
        } else {
            self.x = nx;
        }
    }
}

impl Screen {
    /// Whether the screen is well formed (checked before driving it
    /// through `Device`).
    pub fn is_wf(&self) -> (r: bool)
        ensures
            r == self.wf(),
    {
        self.cells.len() == CELLS && self.x < COLS && self.y <= ROWS && self.fg < 16 && self.bg < 16
    }
}

/// The console as the escape parser's device: characters below 256 are
/// written, cursor codes move within the screen, colours become VGA
/// colours. A malformed screen is left alone.
impl Device for Screen {
    open spec fn ops(&self) -> Seq<crate::ansi::DeviceOp> {
        self.log@
    }

    fn write(&mut self, c: u32) {
        let ghost l = self.log@;
        if self.is_wf() && c < 256 {
            let _ = self.putch(c as u8);
        }
        self.log = Ghost(l.push(crate::ansi::DeviceOp::Char(c)));
    }

    fn move_cursor(&mut self, code: u32, distance: u32) {
        let ghost l = self.log@;
        if self.is_wf() {
            let d: usize = if distance > 100 { 100 } else { distance as usize };
            let (x, y) = self.get_cursor();
            let (nx, ny) = if code == 'A' as u32 {
                (x, if y > d { y - d } else { 0 })
            } else if code == 'B' as u32 {
                (x, if y + d > ROWS - 1 { ROWS - 1 } else { y + d })
            } else if code == 'C' as u32 {
                (if x + d > COLS - 1 { COLS - 1 } else { x + d }, y)
            } else {
                (if x > d { x - d } else { 0 }, y)
            };
            let _ = self.move_cursor(nx, ny);
        }
        self.log = Ghost(l.push(crate::ansi::DeviceOp::MoveCursor { code, distance }));
    }

    fn set_color(&mut self, fg: Color, bg: Color, flags: u8) {
        let ghost l = self.log@;
        if self.is_wf() {
            let f = translate_fg(fg, flags);
            let b = translate_bg(bg);
            self.set_color(f, b);
        }
        self.log = Ghost(l.push(crate::ansi::DeviceOp::SetColor { fore: fg, back: bg, flags }));
    }
}

/// The kernel console: the screen, and the escape parser once it is set
/// up.
pub struct Console {
    pub ansi: Option<Ansi>,
    pub screen: Screen,
}

impl Console {
    /// Starts the escape parser (console `init`).
    pub fn init(&mut self)
        ensures
            final(self).ansi is Some,
            final(self).screen == old(self).screen,
    {
        self.ansi = Some(Ansi::new());
    }

    /// Prints a character: through the escape parser when there is one,
    /// straight to the screen otherwise. A character that would
    /// overflow the parser's buffer is dropped.
    pub fn print(&mut self, c: char)
        ensures
            old(self).ansi is None ==> final(self).ansi is None,
            old(self).ansi is None && old(self).screen.wf() && (c as u32) < 256 && c != '\n' && c != '\t' && c != '\x08'
                && old(self).screen.y < ROWS
                ==> final(self).screen.cells@[old(self).screen.y * 80 + old(self).screen.x] == (Character {
                    ch: c as u32 as u8, attr: (old(self).screen.fg + 16 * old(self).screen.bg) as u8 }),
            old(self).ansi is Some && old(self).ansi->Some_0.buffer@.len() + 1 < BUFFER_SIZE ==> ({
                let a = old(self).ansi->Some_0;
                let (status, buf, st, _ops) = crate::ansi::put_spec(a.status, a.buffer@, a.state, c);
                &&& final(self).ansi is Some
                &&& final(self).ansi->Some_0.status == status
                &&& final(self).ansi->Some_0.buffer@ == buf
                &&& final(self).ansi->Some_0.state == st
            }),
    {
        match &mut self.ansi {
            None => {
                if self.screen.is_wf() && (c as u32) < 256 {
                    let _ = self.screen.putch(c as u32 as u8);
                }
            },
            Some(a) => {
                if a.buffer.len() < BUFFER_SIZE - 1 {
                    a.put(c, &mut self.screen);
                }
            },
        }
    }
}

/// The CRT controller writes that put the hardware cursor at `(x, y)`.
pub open spec fn cursor_writes(x: int, y: int) -> Seq<PortWrite> {
    let pos = y * 80 + x;
    seq![pw(0x3D4, 0x0F), pw(0x3D5, (pos % 256) as u8), pw(0x3D4, 0x0E), pw(0x3D5, ((pos / 256) % 256) as u8)]
}

/// Writes for the hardware cursor.
pub fn update_cursor(x: usize, y: usize) -> (r: Vec<PortWrite>)
    requires
        x < COLS,
        y <= ROWS + 1,
    ensures
        r@ == cursor_writes(x as int, y as int),
{
    let pos = y * COLS + x;
    let mut w: Vec<PortWrite> = Vec::new();
    w.push(PortWrite { port: 0x3D4, value: 0x0F });
    w.push(PortWrite { port: 0x3D5, value: (pos % 256) as u8 });
    w.push(PortWrite { port: 0x3D4, value: 0x0E });
    w.push(PortWrite { port: 0x3D5, value: ((pos / 256) % 256) as u8 });
    assert(w@ =~= cursor_writes(x as int, y as int));
    w
}

} // verus!
