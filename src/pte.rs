//! Page-table entries: a 32-bit word holding a frame's base and flag bits.
use vstd::prelude::*;

verus! {

pub const PAGE_SIZE: u32 = 0x1000;
pub const PAGE_MASK: u32 = 0xFFFFF000;
pub const ENTRIES: u32 = 1024;

pub const NONE: u32 = 0;
pub const PRESENT: u32 = 1;
pub const WRITE: u32 = 2;
pub const USER: u32 = 4;
pub const ACCESSED: u32 = 32;
/// Accepted for symmetry; IA-32 without PAE has no no-execute bit.
pub const EXEC: u32 = 128;

/// The frame base that an entry refers to.
pub open spec fn entry_addr(e: u32) -> int {
    e as int - e as int % 4096
}

/// The flag bits of an entry.
pub open spec fn entry_flags(e: u32) -> int {
    e as int % 4096
}

pub open spec fn entry_present(e: u32) -> bool {
    e % 2 == 1
}

/// Index of the directory entry that covers `va`.
pub open spec fn dir_idx(va: int) -> int {
    (va / 4096) / 1024
}

/// Index of the table entry that covers `va`.
pub open spec fn table_idx(va: int) -> int {
    (va / 0x1000) % 1024
}

/// Builds the entry `addr | flags`.
pub fn page_new(addr: u32, flags: u32) -> (r: u32)
    requires
        addr % 4096 == 0,
        flags < 4096,
    ensures
        r == addr + flags,
        entry_addr(r) == addr,
        entry_flags(r) == flags,
        entry_present(r) <==> flags % 2 == 1,
{
    let r = addr | flags;
    assert(addr | flags == addr + flags) by (bit_vector)
        requires addr % 4096 == 0, flags < 4096;
    assert((addr | flags) % 2 == flags % 2) by (bit_vector)
        requires addr % 4096 == 0, flags < 4096;
    r
}

/// The frame base of an entry.
pub fn page_addr(e: u32) -> (r: u32)
    ensures
        r == entry_addr(e),
        r % 4096 == 0,
{
    let r = e & PAGE_MASK;
    assert(e & 0xFFFFF000 == e - e % 4096) by (bit_vector);
    r
}

/// The flag bits of an entry.
pub fn page_flags(e: u32) -> (r: u32)
    ensures
        r == entry_flags(e),
{
    let r = e & 0xFFF;
    assert(e & 0xFFF == e % 4096) by (bit_vector);
    r
}

/// Whether an entry is present.
pub fn page_present(e: u32) -> (r: bool)
    ensures
        r == entry_present(e),
{
    assert(e & 1 == e % 2) by (bit_vector);
    e & PRESENT == PRESENT
}

/// The flags `map` installs: EXEC is dropped (not honoured on this MMU)
/// and PRESENT is added.
pub fn translate_flags(flags: u32) -> (r: u32)
    requires
        flags < 4096,
    ensures
        r == (flags & !EXEC) | PRESENT,
        r < 4096,
        r % 2 == 1,
        r & WRITE == flags & WRITE,
        r & USER == flags & USER,
        r & EXEC == 0,
{
    let r = (flags & !EXEC) | PRESENT;
    assert(r < 4096 && r % 2 == 1 && r & 2 == flags & 2 && r & 4 == flags & 4 && r & 128 == 0)
        by (bit_vector)
        requires flags < 4096, r == (flags & !128u32) | 1u32;
    r
}

/// Directory index of a virtual address.
pub fn dir_index(va: u32) -> (r: usize)
    ensures
        r == dir_idx(va as int),
        r < 1024,
{
    ((va / 0x1000) / 1024) as usize
}

/// Table index of a virtual address.
pub fn table_index(va: u32) -> (r: usize)
    ensures
        r == table_idx(va as int),
        r < 1024,
{
    ((va / 0x1000) % 1024) as usize
}

} // verus!
