//! A model of a small 32-bit x86 kernel: paging with a recursively mapped
//! page directory, a bump frame allocator and heap, segmentation and
//! interrupt tables, a round-robin scheduler with `fork`, an ELF loader and
//! a syscall gate. Hardware state (physical memory, control registers, the
//! PIC masks) is held in plain values so that every step can be verified.
use vstd::prelude::*;

pub mod pte;
pub mod physical;
pub mod paging;
pub mod space;
pub mod gdt;
pub mod idt;
pub mod irq;
pub mod list;
pub mod heap;
pub mod tasking;
pub mod util;
pub mod syscalls;
pub mod kernel;
pub mod elf;
pub mod ansi;
pub mod drivers;
pub mod vga;
pub mod keyboard;

verus! {

} // verus!
