//! The PS/2 keyboard: scancodes to characters through the two keymaps,
//! with shift and caps lock.
use vstd::prelude::*;

verus! {

pub const LEFT_SHIFT: u8 = 0x2A;
pub const RIGHT_SHIFT: u8 = 0x36;
pub const CAPS_LOCK: u8 = 0x3A;
pub const KEYMAP_LEN: usize = 89;

/// Characters of the unshifted keys, by scancode.
pub open spec fn keymap() -> Seq<u8> {
    seq![0x00, 0x1B, 0x31, 0x32, 0x33, 0x34, 0x35, 0x36, 0x37, 0x38, 0x39, 0x30, 0x2D, 0x3D, 0x08, 0x09, 0x71, 0x77, 0x65, 0x72, 0x74, 0x79, 0x75, 0x69, 0x6F, 0x70, 0x5B, 0x5D, 0x0A, 0x3F, 0x61, 0x73, 0x64, 0x66, 0x67, 0x68, 0x6A, 0x6B, 0x6C, 0x3B, 0x27, 0x60, 0x3F, 0x5C, 0x7A, 0x78, 0x63, 0x76, 0x62, 0x6E, 0x6D, 0x2C, 0x2E, 0x2F, 0x3F, 0x2A, 0x3F, 0x20, 0x3F, 0x3F, 0x3F, 0x3F, 0x3F, 0x3F, 0x3F, 0x3F, 0x3F, 0x3F, 0x3F, 0x3F, 0x3F, 0x37, 0x38, 0x39, 0x2D, 0x34, 0x35, 0x36, 0x2B, 0x31, 0x32, 0x33, 0x30, 0x2E, 0x3F, 0x3F, 0x3F, 0x3F, 0x3F]
}

/// Characters of the shifted keys, by scancode.
pub open spec fn keymap_shifted() -> Seq<u8> {
    seq![0x00, 0x1B, 0x21, 0x40, 0x23, 0x24, 0x25, 0x5E, 0x26, 0x2A, 0x28, 0x29, 0x5F, 0x2B, 0x08, 0x09, 0x51, 0x57, 0x45, 0x52, 0x54, 0x59, 0x55, 0x49, 0x4F, 0x50, 0x7B, 0x7D, 0x0A, 0x3F, 0x41, 0x53, 0x44, 0x46, 0x47, 0x48, 0x4A, 0x4B, 0x4C, 0x3A, 0x22, 0x7E, 0x3F, 0x7C, 0x5A, 0x58, 0x43, 0x56, 0x42, 0x4E, 0x4D, 0x3C, 0x3E, 0x3F, 0x3F, 0x2A, 0x3F, 0x20, 0x3F, 0x3F, 0x3F, 0x3F, 0x3F, 0x3F, 0x3F, 0x3F, 0x3F, 0x3F, 0x3F, 0x3F, 0x3F, 0x37, 0x38, 0x39, 0x2D, 0x34, 0x35, 0x36, 0x2B, 0x31, 0x32, 0x33, 0x30, 0x2E, 0x3F, 0x3F, 0x3F, 0x3F, 0x3F]
}

fn keymap_table() -> (r: Vec<u8>)
    ensures
        r@ == keymap(),
{
    let mut v: Vec<u8> = Vec::new();
    v.push(0x00);
    v.push(0x1B);
    v.push(0x31);
    v.push(0x32);
    v.push(0x33);
    v.push(0x34);
    v.push(0x35);
    v.push(0x36);
    v.push(0x37);
    v.push(0x38);
    v.push(0x39);
    v.push(0x30);
    v.push(0x2D);
    v.push(0x3D);
    v.push(0x08);
    v.push(0x09);
    v.push(0x71);
    v.push(0x77);
    v.push(0x65);
    v.push(0x72);
    v.push(0x74);
    v.push(0x79);
    v.push(0x75);
    v.push(0x69);
    v.push(0x6F);
    v.push(0x70);
    v.push(0x5B);
    v.push(0x5D);
    v.push(0x0A);
    v.push(0x3F);
    v.push(0x61);
    v.push(0x73);
    v.push(0x64);
    v.push(0x66);
    v.push(0x67);
    v.push(0x68);
    v.push(0x6A);
    v.push(0x6B);
    v.push(0x6C);
    v.push(0x3B);
    v.push(0x27);
    v.push(0x60);
    v.push(0x3F);
    v.push(0x5C);
    v.push(0x7A);
    v.push(0x78);
    v.push(0x63);
    v.push(0x76);
    v.push(0x62);
    v.push(0x6E);
    v.push(0x6D);
    v.push(0x2C);
    v.push(0x2E);
    v.push(0x2F);
    v.push(0x3F);
    v.push(0x2A);
    v.push(0x3F);
    v.push(0x20);
    v.push(0x3F);
    v.push(0x3F);
    v.push(0x3F);
    v.push(0x3F);
    v.push(0x3F);
    v.push(0x3F);
    v.push(0x3F);
    v.push(0x3F);
    v.push(0x3F);
    v.push(0x3F);
    v.push(0x3F);
    v.push(0x3F);
    v.push(0x3F);
    v.push(0x37);
    v.push(0x38);
    v.push(0x39);
    v.push(0x2D);
    v.push(0x34);
    v.push(0x35);
    v.push(0x36);
    v.push(0x2B);
    v.push(0x31);
    v.push(0x32);
    v.push(0x33);
    v.push(0x30);
    v.push(0x2E);
    v.push(0x3F);
    v.push(0x3F);
    v.push(0x3F);
    v.push(0x3F);
    v.push(0x3F);
    assert(v@ =~= keymap());
    v
}

fn keymap_shifted_table() -> (r: Vec<u8>)
    ensures
        r@ == keymap_shifted(),
{
    let mut v: Vec<u8> = Vec::new();
    v.push(0x00);
    v.push(0x1B);
    v.push(0x21);
    v.push(0x40);
    v.push(0x23);
    v.push(0x24);
    v.push(0x25);
    v.push(0x5E);
    v.push(0x26);
    v.push(0x2A);
    v.push(0x28);
    v.push(0x29);
    v.push(0x5F);
    v.push(0x2B);
    v.push(0x08);
    v.push(0x09);
    v.push(0x51);
    v.push(0x57);
    v.push(0x45);
    v.push(0x52);
    v.push(0x54);
    v.push(0x59);
    v.push(0x55);
    v.push(0x49);
    v.push(0x4F);
    v.push(0x50);
    v.push(0x7B);
    v.push(0x7D);
    v.push(0x0A);
    v.push(0x3F);
    v.push(0x41);
    v.push(0x53);
    v.push(0x44);
    v.push(0x46);
    v.push(0x47);
    v.push(0x48);
    v.push(0x4A);
    v.push(0x4B);
    v.push(0x4C);
    v.push(0x3A);
    v.push(0x22);
    v.push(0x7E);
    v.push(0x3F);
    v.push(0x7C);
    v.push(0x5A);
    v.push(0x58);
    v.push(0x43);
    v.push(0x56);
    v.push(0x42);
    v.push(0x4E);
    v.push(0x4D);
    v.push(0x3C);
    v.push(0x3E);
    v.push(0x3F);
    v.push(0x3F);
    v.push(0x2A);
    v.push(0x3F);
    v.push(0x20);
    v.push(0x3F);
    v.push(0x3F);
    v.push(0x3F);
    v.push(0x3F);
    v.push(0x3F);
    v.push(0x3F);
    v.push(0x3F);
    v.push(0x3F);
    v.push(0x3F);
    v.push(0x3F);
    v.push(0x3F);
    v.push(0x3F);
    v.push(0x3F);
    v.push(0x37);
    v.push(0x38);
    v.push(0x39);
    v.push(0x2D);
    v.push(0x34);
    v.push(0x35);
    v.push(0x36);
    v.push(0x2B);
    v.push(0x31);
    v.push(0x32);
    v.push(0x33);
    v.push(0x30);
    v.push(0x2E);
    v.push(0x3F);
    v.push(0x3F);
    v.push(0x3F);
    v.push(0x3F);
    v.push(0x3F);
    assert(v@ =~= keymap_shifted());
    v
}

/// Shift and caps-lock state.
#[derive(Clone, Copy, Debug, PartialEq, Eq, Structural)]
pub struct Keyboard {
    pub shifted: bool,
    pub caps_lock: bool,
}

/// The character a pressed key gives, if any.
pub open spec fn key_char(kb: Keyboard, scancode: u8) -> Option<u8> {
    if scancode as int >= KEYMAP_LEN {
        None
    } else if kb.shifted != kb.caps_lock {
        Some(keymap_shifted()[scancode as int])
    } else {
        Some(keymap()[scancode as int])
    }
}

impl Keyboard {
    pub fn new() -> (r: Keyboard)
        ensures
            !r.shifted && !r.caps_lock,
    {
        Keyboard { shifted: false, caps_lock: false }
    }

    /// A key was released: releasing a shift key ends shifting.
    pub fn key_up(&mut self, scancode: u8)
        ensures
            *final(self) == (if scancode == LEFT_SHIFT || scancode == RIGHT_SHIFT {
                Keyboard { shifted: false, ..*old(self) }
            } else {
                *old(self)
            }),
    {
        if scancode == LEFT_SHIFT || scancode == RIGHT_SHIFT {
            self.shifted = false;
        }
    }

    /// A key was pressed: shift keys shift, caps lock
    /// toggles, any other key gives its character.
    pub fn key_down(&mut self, scancode: u8) -> (r: Option<u8>)
        ensures
            scancode == LEFT_SHIFT || scancode == RIGHT_SHIFT ==> r is None && *final(self) == (Keyboard { shifted: true, ..*old(self) }),
            scancode == CAPS_LOCK ==> r is None && *final(self) == (Keyboard { caps_lock: !old(self).caps_lock, ..*old(self) }),
            scancode != LEFT_SHIFT && scancode != RIGHT_SHIFT && scancode != CAPS_LOCK
                ==> r == key_char(*old(self), scancode) && *final(self) == *old(self),
    {
        if scancode == LEFT_SHIFT || scancode == RIGHT_SHIFT {
            self.shifted = true;
            None
        } else if scancode == CAPS_LOCK {
            self.caps_lock = !self.caps_lock;
            None
        } else {
            self.write(scancode)
        }
    }

    /// The character for a scancode in the current state.
    pub fn write(&self, scancode: u8) -> (r: Option<u8>)
        ensures
            r == key_char(*self, scancode),
    {
        if scancode as usize >= KEYMAP_LEN {
            return None;
        }
        if self.shifted != self.caps_lock {
            let t = keymap_shifted_table();
            Some(t[scancode as usize])
        } else {
            let t = keymap_table();
            Some(t[scancode as usize])
        }
    }

    /// Handles a keyboard interrupt given the controller's status byte and
    /// scancode: nothing unless output is ready; the
    /// top bit marks a release.
    pub fn keyboard_handler(&mut self, status: u8, scancode: u8) -> (r: Option<u8>)
        ensures
            status & 1 == 0 ==> r is None && *final(self) == *old(self),
    {
        if status & 1 == 0 {
            return None;
        }
        if scancode & 0x80 != 0 {
            self.key_up(scancode & 0x7F);
            None
        } else {
            self.key_down(scancode)
        }
    }
}

} // verus!
