//! ANSI escape handling for the console: plain characters pass through,
//! `ESC [ args letter` sequences select colours (SGR, `m`) or move the
//! cursor (`A`-`D`). Effects on the screen come back as `DeviceOp`s.
use vstd::prelude::*;

verus! {

pub const ESCAPE: char = '\x1b';
pub const BUFFER_SIZE: usize = 100;
pub const BRIGHT: u8 = 1;
pub const UNDERLINE: u8 = 2;
pub const BLINK: u8 = 4;

#[derive(Clone, Copy, Debug, PartialEq, Eq, Structural)]
pub enum Color {
    Black,
    Red,
    Green,
    Yellow,
    Blue,
    Magenta,
    Cyan,
    White,
}

/// Colours and attribute flags in force.
#[derive(Clone, Copy, Debug, PartialEq, Eq, Structural)]
pub struct State {
    pub fg: Color,
    pub bg: Color,
    pub flags: u8,
}

impl State {
    pub fn default() -> (r: State)
        ensures
            r == default_state(),
    {
        State { fg: Color::White, bg: Color::Black, flags: 0 }
    }
}

pub open spec fn default_state() -> State {
    State { fg: Color::White, bg: Color::Black, flags: 0 }
}

#[derive(Clone, Copy, Debug, PartialEq, Eq, Structural)]
pub enum Status {
    Idle,
    Pending,
    Escaped,
}

/// What the parser asks of the screen.
#[derive(Clone, Copy, Debug, PartialEq, Eq, Structural)]
pub enum DeviceOp {
    /// A character, by its code point.
    Char(u32),
    SetColor { fore: Color, back: Color, flags: u8 },
    /// Cursor movement: `code` is the code point of one of `A` (up), `B`
    /// (down), `C` (forward), `D` (back).
    MoveCursor { code: u32, distance: u32 },
}

/// A screen the parser drives. `ops` is the record of what it was asked
/// to do, in order.
pub trait Device {
    spec fn ops(&self) -> Seq<DeviceOp>;

    /// Shows the character with code point `c`.
    fn write(&mut self, c: u32)
        ensures
            final(self).ops() == old(self).ops().push(DeviceOp::Char(c));

    fn move_cursor(&mut self, code: u32, distance: u32)
        ensures
            final(self).ops() == old(self).ops().push(DeviceOp::MoveCursor { code, distance });

    fn set_color(&mut self, fg: Color, bg: Color, flags: u8)
        ensures
            final(self).ops() == old(self).ops().push(DeviceOp::SetColor { fore: fg, back: bg, flags });
}

pub open spec fn color_of(n: int) -> Option<Color> {
    if n == 0 { Some(Color::Black) }
    else if n == 1 { Some(Color::Red) }
    else if n == 2 { Some(Color::Green) }
    else if n == 3 { Some(Color::Yellow) }
    else if n == 4 { Some(Color::Blue) }
    else if n == 5 { Some(Color::Magenta) }
    else if n == 6 { Some(Color::Cyan) }
    else if n == 7 { Some(Color::White) }
    else { None }
}

fn color_from(n: u32) -> (r: Option<Color>)
    ensures
        r == color_of(n as int),
{
    match n {
        0 => Some(Color::Black),
        1 => Some(Color::Red),
        2 => Some(Color::Green),
        3 => Some(Color::Yellow),
        4 => Some(Color::Blue),
        5 => Some(Color::Magenta),
        6 => Some(Color::Cyan),
        7 => Some(Color::White),
        _ => None,
    }
}

/// Foreground colour `n`, white when out of range.
pub fn fg(n: u32) -> (r: Color)
    ensures
        r == (match color_of(n as int) { Some(c) => c, None => Color::White }),
{
    match color_from(n) {
        Some(c) => c,
        None => Color::White,
    }
}

/// Background colour `n`, black when out of range.
pub fn bg(n: u32) -> (r: Color)
    ensures
        r == (match color_of(n as int) { Some(c) => c, None => Color::Black }),
{
    match color_from(n) {
        Some(c) => c,
        None => Color::Black,
    }
}

pub open spec fn is_digit(c: char) -> bool {
    '0' <= c <= '9'
}

/// The decimal value of a string of digits (empty: 0).
pub open spec fn dec_value(s: Seq<char>) -> int
    decreases s.len(),
{
    if s.len() == 0 {
        0
    } else {
        dec_value(s.drop_last()) * 10 + (s.last() as int - '0' as int)
    }
}

/// The number an argument spells: all digits, fitting in 32 bits.
pub open spec fn number_of(s: Seq<char>) -> Option<u32> {
    if (forall|i: int| 0 <= i < s.len() ==> is_digit(#[trigger] s[i])) && dec_value(s) < 0x1_0000_0000 {
        Some(dec_value(s) as u32)
    } else {
        None
    }
}

proof fn lemma_dec_mono(s: Seq<char>)
    requires
        forall|i: int| 0 <= i < s.len() ==> is_digit(#[trigger] s[i]),
        s.len() > 0,
    ensures
        dec_value(s) >= dec_value(s.drop_last()) * 10,
        dec_value(s.drop_last()) >= 0,
    decreases s.len(),
{
    if s.len() > 1 {
        lemma_dec_mono(s.drop_last());
    }
}

/// Parses a decimal argument.
pub fn from_str(text: &[char]) -> (r: Option<u32>)
    ensures
        r == number_of(text@),
{
    let mut value: u64 = 0;
    let mut i: usize = 0;
    while i < text.len()
        invariant
            i <= text@.len(),
            forall|j: int| 0 <= j < i ==> is_digit(#[trigger] text@[j]),
            value == dec_value(text@.subrange(0, i as int)),
            value < 0x1_0000_0000,
        decreases text@.len() - i,
    {
        let c = text[i];
        if !('0' <= c && c <= '9') {
            assert(!is_digit(text@[i as int]));
            return None;
        }
        let next = value * 10 + (c as u64 - '0' as u64);
        assert(text@.subrange(0, i as int + 1).drop_last() =~= text@.subrange(0, i as int));
        if next >= 0x1_0000_0000 {
            proof {
                assert forall|j: int| 0 <= j < i + 1 implies is_digit(#[trigger] text@.subrange(0, i as int + 1)[j]) by {}
                if text@.len() > i + 1 {
                    lemma_prefix_grows(text@, i as int + 1);
                }
            }
            return None;
        }
        value = next;
        i = i + 1;
    }
    assert(text@.subrange(0, i as int) =~= text@);
    Some(value as u32)
}

/// A longer all-digit prefix is worth at least as much.
proof fn lemma_prefix_grows(s: Seq<char>, n: int)
    requires
        0 < n <= s.len(),
    ensures
        (forall|i: int| 0 <= i < s.len() ==> is_digit(#[trigger] s[i])) ==> dec_value(s) >= dec_value(s.subrange(0, n)),
    decreases s.len() - n,
{
    if n < s.len() {
        lemma_prefix_grows(s, n + 1);
        if forall|i: int| 0 <= i < s.len() ==> is_digit(#[trigger] s[i]) {
            let t = s.subrange(0, n + 1);
            assert(t.drop_last() =~= s.subrange(0, n));
            assert forall|i: int| 0 <= i < t.len() implies is_digit(#[trigger] t[i]) by { assert(t[i] == s[i]); }
            lemma_dec_mono(t);
        }
    } else {
        assert(s.subrange(0, n) =~= s);
    }
}

/// The colour state after one SGR argument.
pub open spec fn sgr_spec(st: State, arg: Seq<char>) -> State {
    match number_of(arg) {
        None => st,
        Some(v) => {
            if v == 0 { default_state() }
            else if v == 1 { State { flags: st.flags | BRIGHT, ..st } }
            else if v == 4 { State { flags: st.flags | UNDERLINE, ..st } }
            else if v == 5 { State { flags: st.flags | BLINK, ..st } }
            else if v == 7 { State { fg: st.bg, bg: st.fg, ..st } }
            else if 30 <= v <= 37 { State { fg: color_of(v - 30)->Some_0, ..st } }
            else if v == 39 { State { fg: Color::White, ..st } }
            else if 40 <= v <= 47 { State { bg: color_of(v - 40)->Some_0, ..st } }
            else if v == 49 { State { bg: Color::Black, ..st } }
            else { st }
        },
    }
}

impl State {
    pub fn handle_sgr(&mut self, arg: &[char])
        ensures
            *final(self) == sgr_spec(*old(self), arg@),
    {
        let value = match from_str(arg) {
            None => return,
            Some(v) => v,
        };
        if value == 0 {
            *self = State::default();
        } else if value == 1 {
            self.flags = self.flags | BRIGHT;
        } else if value == 4 {
            self.flags = self.flags | UNDERLINE;
        } else if value == 5 {
            self.flags = self.flags | BLINK;
        } else if value == 7 {
            let t = self.fg;
            self.fg = self.bg;
            self.bg = t;
        } else if 30 <= value && value <= 37 {
            self.fg = fg(value - 30);
        } else if value == 39 {
            self.fg = Color::White;
        } else if 40 <= value && value <= 47 {
            self.bg = bg(value - 40);
        } else if value == 49 {
            self.bg = Color::Black;
        }
    }
}

/// Progress of reading an escape sequence's buffer: `phase` 0 before the
/// first `[`, 1 inside the arguments, 2 after a second `[`; the colour
/// state with the finished SGR arguments applied; the argument being read;
/// the first argument, and whether it is complete.
pub struct CodeScan {
    pub phase: u8,
    pub state: State,
    pub arg: Seq<char>,
    pub first: Seq<char>,
    pub first_done: bool,
}

pub open spec fn code_scan(b: Seq<char>, st0: State) -> CodeScan
    decreases b.len(),
{
    if b.len() == 0 {
        CodeScan { phase: 0, state: st0, arg: Seq::empty(), first: Seq::empty(), first_done: false }
    } else {
        let s = code_scan(b.drop_last(), st0);
        let c = b.last();
        if s.phase == 0 {
            if c == '[' { CodeScan { phase: 1, ..s } } else { s }
        } else if s.phase == 1 {
            if c == '[' {
                CodeScan { phase: 2, ..s }
            } else if c == ';' {
                CodeScan { state: sgr_spec(s.state, s.arg), arg: Seq::empty(), first_done: true, ..s }
            } else {
                CodeScan {
                    arg: s.arg.push(c),
                    first: if s.first_done { s.first } else { s.first.push(c) },
                    ..s
                }
            }
        } else {
            s
        }
    }
}

/// The screen operations and colour state that final letter `c` of the
/// sequence in `b` gives.
pub open spec fn code_effect(b: Seq<char>, st0: State, c: char) -> (State, Seq<DeviceOp>) {
    let s = code_scan(b, st0);
    if s.phase == 0 {
        (st0, seq![])
    } else if c == 'm' {
        let st = sgr_spec(s.state, s.arg);
        (st, seq![DeviceOp::SetColor { fore: st.fg, back: st.bg, flags: st.flags }])
    } else if 'A' <= c <= 'D' {
        let d = match number_of(s.first) { Some(v) => v, None => 1u32 };
        (st0, seq![DeviceOp::MoveCursor { code: c as u32, distance: d }])
    } else {
        (st0, seq![])
    }
}

/// Each character written out as it is.
pub open spec fn writes(s: Seq<char>) -> Seq<DeviceOp> {
    Seq::new(s.len(), |i: int| DeviceOp::Char(s[i] as u32))
}

/// The escape-sequence parser.
pub struct Ansi {
    pub status: Status,
    pub buffer: Vec<char>,
    pub state: State,
}

/// Status, buffer and colour state after one character, and what it asks
/// of the screen.
pub open spec fn put_spec(status: Status, buf: Seq<char>, st: State, c: char) -> (Status, Seq<char>, State, Seq<DeviceOp>) {
    match status {
        Status::Idle => if c == ESCAPE {
            (Status::Pending, buf.push(c), st, seq![])
        } else {
            (Status::Idle, buf, st, seq![DeviceOp::Char(c as u32)])
        },
        Status::Pending => if c == '[' {
            (Status::Escaped, buf.push(c), st, seq![])
        } else {
            (Status::Idle, Seq::empty(), st, writes(buf.push(c)))
        },
        Status::Escaped => if 'A' <= c <= 'z' {
            let (st2, ops) = code_effect(buf, st, c);
            (Status::Idle, Seq::empty(), st2, ops)
        } else {
            (Status::Escaped, buf.push(c), st, seq![])
        },
    }
}

impl Ansi {
    pub fn new() -> (r: Ansi)
        ensures
            r.status == Status::Idle,
            r.buffer@ == Seq::<char>::empty(),
            r.state == default_state(),
    {
        Ansi { status: Status::Idle, buffer: Vec::new(), state: State::default() }
    }

    /// The buffered characters.
    pub fn buf(&self) -> (r: &[char])
        ensures
            r@ == self.buffer@,
    {
        self.buffer.as_slice()
    }

    /// Buffers a character of an escape sequence.
    pub fn put_buf(&mut self, c: char)
        requires
            old(self).buffer@.len() + 1 < BUFFER_SIZE,
        ensures
            final(self).buffer@ == old(self).buffer@.push(c),
            final(self).status == old(self).status,
            final(self).state == old(self).state,
    {
        self.buffer.push(c);
    }

    /// Empties the buffer.
    pub fn clear_buf(&mut self)
        ensures
            final(self).buffer@ == Seq::<char>::empty(),
            final(self).status == old(self).status,
            final(self).state == old(self).state,
    {
        self.buffer.clear();
    }

    /// What was buffered, then `c`, written out as plain characters; the
    /// buffer is emptied.
    pub fn dump_buf(&mut self, c: char) -> (r: Vec<DeviceOp>)
        ensures
            r@ == writes(old(self).buffer@.push(c)),
            final(self).buffer@ == Seq::<char>::empty(),
            final(self).status == old(self).status,
            final(self).state == old(self).state,
    {
        let out = write_ops(&self.buffer, c);
        self.clear_buf();
        out
    }

    /// The first argument's value, or `default`.
    pub fn first_or(&self, arg: &[char], default: u32) -> (r: u32)
        ensures
            r == (match number_of(arg@) { Some(v) => v, None => default }),
    {
        match from_str(arg) {
            Some(v) => v,
            None => default,
        }
    }

    /// Acts on a complete sequence ending in `c`.
    pub fn handle_code(&mut self, c: char) -> (r: Vec<DeviceOp>)
        ensures
            (final(self).state, r@) == code_effect(old(self).buffer@, old(self).state, c),
            final(self).buffer == old(self).buffer,
            final(self).status == old(self).status,
    {
        let ghost b = self.buffer@;
        let mut phase: u8 = 0;
        let mut st = self.state;
        let mut arg: Vec<char> = Vec::new();
        let mut first: Vec<char> = Vec::new();
        let mut first_done = false;
        let mut i: usize = 0;
        while i < self.buffer.len()
            invariant
                i <= b.len(),
                b == self.buffer@,
                *self == *old(self),
                ({
                    let s = code_scan(b.subrange(0, i as int), old(self).state);
                    &&& s.phase == phase
                    &&& s.state == st
                    &&& s.arg == arg@
                    &&& s.first == first@
                    &&& s.first_done == first_done
                }),
            decreases b.len() - i,
        {
            let ch = self.buffer[i];
            assert(b.subrange(0, i as int + 1).drop_last() =~= b.subrange(0, i as int));
            if phase == 0 {
                if ch == '[' {
                    phase = 1;
                }
            } else if phase == 1 {
                if ch == '[' {
                    phase = 2;
                } else if ch == ';' {
                    st.handle_sgr(arg.as_slice());
                    arg = Vec::new();
                    first_done = true;
                } else {
                    arg.push(ch);
                    if !first_done {
                        first.push(ch);
                    }
                }
            }
            i = i + 1;
        }
        assert(b.subrange(0, b.len() as int) =~= b);
        let mut out: Vec<DeviceOp> = Vec::new();
        if phase == 0 {
            return out;
        }
        if c == 'm' {
            st.handle_sgr(arg.as_slice());
            self.state = st;
            out.push(DeviceOp::SetColor { fore: st.fg, back: st.bg, flags: st.flags });
            assert(out@ =~= seq![DeviceOp::SetColor { fore: st.fg, back: st.bg, flags: st.flags }]);
        } else if 'A' <= c && c <= 'D' {
            let d = self.first_or(first.as_slice(), 1);
            out.push(DeviceOp::MoveCursor { code: c as u32, distance: d });
            assert(out@ =~= seq![DeviceOp::MoveCursor { code: c as u32, distance: d }]);
        }
        out
    }

    /// Feeds one character (`put` without a device): see `put_spec`.
    pub fn step(&mut self, c: char) -> (r: Vec<DeviceOp>)
        requires
            old(self).buffer@.len() + 1 < BUFFER_SIZE,
        ensures
            (final(self).status, final(self).buffer@, final(self).state, r@)
                == put_spec(old(self).status, old(self).buffer@, old(self).state, c),
    {
        match self.status {
            Status::Idle => {
                if c == ESCAPE {
                    self.put_buf(c);
                    self.status = Status::Pending;
                    Vec::new()
                } else {
                    let mut v: Vec<DeviceOp> = Vec::new();
                    v.push(DeviceOp::Char(c as u32));
                    assert(v@ =~= seq![DeviceOp::Char(c as u32)]);
                    v
                }
            },
            Status::Pending => {
                if c == '[' {
                    self.put_buf(c);
                    self.status = Status::Escaped;
                    Vec::new()
                } else {
                    let v = self.dump_buf(c);
                    self.status = Status::Idle;
                    v
                }
            },
            Status::Escaped => {
                if 'A' <= c && c <= 'z' {
                    let v = self.handle_code(c);
                    self.clear_buf();
                    self.status = Status::Idle;
                    v
                } else {
                    self.put_buf(c);
                    no_ops()
                }
            },
        }
    }

    /// Feeds one character and performs its effects on `device`, in
    /// order.
    pub fn put<D: Device>(&mut self, c: char, device: &mut D)
        requires
            old(self).buffer@.len() + 1 < BUFFER_SIZE,
        ensures
            ({
                let (status, buf, st, ops) = put_spec(old(self).status, old(self).buffer@, old(self).state, c);
                &&& final(self).status == status
                &&& final(self).buffer@ == buf
                &&& final(self).state == st
                &&& final(device).ops() == old(device).ops() + ops
            }),
    {
        let ops = self.step(c);
        let mut i: usize = 0;
        while i < ops.len()
            invariant
                i <= ops@.len(),
                device.ops() == old(device).ops() + ops@.subrange(0, i as int),
            decreases ops@.len() - i,
        {
            proof {
                assert(ops@.subrange(0, i as int + 1) == ops@.subrange(0, i as int).push(ops@[i as int]));
            }
            match ops[i] {
                DeviceOp::Char(ch) => device.write(ch),
                DeviceOp::SetColor { fore, back, flags } => device.set_color(fore, back, flags),
                DeviceOp::MoveCursor { code, distance } => device.move_cursor(code, distance),
            }
            i = i + 1;
            assert(device.ops() =~= old(device).ops() + ops@.subrange(0, i as int));
        }
        assert(ops@.subrange(0, i as int) =~= ops@);
    }
}

/// `b`, then `c`, as plain writes.
fn write_ops(b: &Vec<char>, c: char) -> (r: Vec<DeviceOp>)
    ensures
        r@ == writes(b@.push(c)),
{
    let mut out: Vec<DeviceOp> = Vec::new();
    let mut i: usize = 0;
    while i < b.len()
        invariant
            i <= b@.len(),
            out@.len() == i,
            forall|j: int| 0 <= j < i ==> #[trigger] out@[j] == DeviceOp::Char(b@[j] as u32),
        decreases b@.len() - i,
    {
        let ch = b[i];
        out.push(DeviceOp::Char(ch as u32));
        i = i + 1;
    }
    out.push(DeviceOp::Char(c as u32));
    assert(out@ =~= writes(b@.push(c)));
    out
}

fn no_ops() -> (r: Vec<DeviceOp>)
    ensures
        r@ == Seq::<DeviceOp>::empty(),
{
    Vec::new()
}

} // verus!
