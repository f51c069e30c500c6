//! The syscall table behind vector 0x80: `eax` selects the call, `ebx`,
//! `ecx`, `edx` carry its arguments, the result goes back in `eax`.
use vstd::prelude::*;
use crate::idt::{Idt, Handler, idt_entry, GATE_PRESENT, INTERRUPT_GATE, GATE_USER};
use crate::gdt::KERNEL_CODE_SELECTOR;

verus! {

pub const NUM_SYSCALLS: u32 = 128;
pub const SYSCALL_VECTOR: usize = 0x80;

/// The calls a table slot can hold.
#[derive(Clone, Copy, Debug, PartialEq, Eq, Structural)]
pub enum Syscall {
    Unimplemented,
    Exit,
    Write,
    Fork,
    Sleep,
}

pub struct SyscallTable {
    pub calls: Vec<Syscall>,
}

/// The call for syscall number `n` in a table after `init`.
pub open spec fn syscall_of(n: u32) -> Syscall {
    if n == 1 {
        Syscall::Exit
    } else if n == 2 {
        Syscall::Write
    } else if n == 3 {
        Syscall::Fork
    } else if n == 4 {
        Syscall::Sleep
    } else {
        Syscall::Unimplemented
    }
}

impl SyscallTable {
    pub open spec fn wf(&self) -> bool {
        &&& self.calls@.len() == NUM_SYSCALLS
        &&& forall|i: int| 0 <= i < NUM_SYSCALLS ==> #[trigger] self.calls@[i] == syscall_of(i as u32)
    }

    /// Fills the table (exit, write, fork, sleep at 1-4, the rest
    /// unimplemented) and installs the ring-3 gate at 0x80.
    pub fn init(idt: &mut Idt) -> (r: SyscallTable)
        requires
            old(idt).wf(),
        ensures
            r.wf(),
            final(idt).wf(),
            final(idt).stubs == old(idt).stubs,
            final(idt).entries@ == old(idt).entries@.update(SYSCALL_VECTOR as int,
                idt_entry(old(idt).stubs@[SYSCALL_VECTOR as int], KERNEL_CODE_SELECTOR, (GATE_PRESENT | INTERRUPT_GATE | GATE_USER) as u8)),
            final(idt).handlers@ == old(idt).handlers@.update(SYSCALL_VECTOR as int, Handler::Syscall),
    {
        let mut calls: Vec<Syscall> = Vec::new();
        let mut i: u32 = 0;
        while i < NUM_SYSCALLS
            invariant
                i <= NUM_SYSCALLS,
                calls@.len() == i,
                forall|j: int| 0 <= j < i ==> #[trigger] calls@[j] == Syscall::Unimplemented,
            decreases NUM_SYSCALLS - i,
        {
            calls.push(Syscall::Unimplemented);
            i = i + 1;
        }
        calls.set(1, Syscall::Exit);
        calls.set(2, Syscall::Write);
        calls.set(3, Syscall::Fork);
        calls.set(4, Syscall::Sleep);
        idt.register_user_interrupt(SYSCALL_VECTOR, Handler::Syscall);
        let r = SyscallTable { calls };
        assert forall|j: int| 0 <= j < NUM_SYSCALLS implies #[trigger] r.calls@[j] == syscall_of(j as u32) by {}
        r
    }

    /// The call selected by `eax`; numbers past the table are unimplemented.
    pub fn lookup(&self, index: u32) -> (r: Syscall)
        requires
            self.wf(),
        ensures
            r == syscall_of(index),
    {
        if index >= NUM_SYSCALLS {
            Syscall::Unimplemented
        } else {
            self.calls[index as usize]
        }
    }
}

} // verus!
