//! Tasks and the round-robin scheduler: the running task, a FIFO ready
//! queue, `fork`, `exec`, `kill`, the context switch and the first entry
//! into ring 3.
use vstd::prelude::*;
use crate::idt::{Registers, Gprs, Cpu, EFLAGS_IF, FRAME_SIZE};
use crate::gdt::{Gdt, TssEntry, USER_CODE_SELECTOR, USER_DATA_SELECTOR};
use crate::list::List;
use crate::heap::Heap;
use crate::physical::{PhysMem, MAX_WORDS};
use crate::paging::{space_ok, pte_word, tables_from, keeps_data};
use crate::space::{clone_directory, clone_of, CLONE_WORDS};

verus! {

/// Bytes of a task's kernel stack.
pub const STACK_SIZE: u32 = 8192;
/// Bytes of a TCB in front of its kernel stack.
pub const TASK_HEADER: u32 = 24;
/// Bytes of a TCB.
pub const TASK_SIZE: u32 = 8216;
/// Highest address a TCB may end at.
pub const TASK_LIMIT: u32 = 0xFFC0_0000;

/// A task control block. `base` is where the TCB lives; its kernel stack
/// ends at `stack_top`. `regs` is the trap frame on top of that stack, when
/// one has been recorded.
#[derive(Clone, Copy, Debug, PartialEq, Eq)]
pub struct Task {
    pub pid: u32,
    pub esp: u32,
    pub eip: u32,
    pub pd: u32,
    pub regs: Option<Registers>,
    pub context: Gprs,
    pub base: u32,
}

pub open spec fn stack_top_of(t: Task) -> int {
    t.base + TASK_SIZE
}

impl Task {
    pub open spec fn wf(&self) -> bool {
        self.base as int + TASK_SIZE as int <= TASK_LIMIT
    }

    /// One past the end of the task's kernel stack.
    pub fn stack_top(&self) -> (r: u32)
        requires
            self.wf(),
        ensures
            r == stack_top_of(*self),
    {
        self.base + TASK_SIZE
    }
}

/// The running task, the ready queue, and the addresses of the two labels
/// a task resumes at.
pub struct Scheduler {
    pub current: Task,
    pub tasks: List<Task>,
    pub next_pid: u32,
    /// The trap stub's epilogue that pops a frame and `iret`s.
    pub ret_from_trap: u32,
    /// The label right after the jump in `switch_to`.
    pub resume: u32,
}

/// All-zero registers.
pub open spec fn zero_gprs() -> Gprs {
    Gprs { edi: 0, esi: 0, ebp: 0, ebx: 0, edx: 0, ecx: 0, eax: 0 }
}

/// The general-purpose registers a frame restores.
pub open spec fn frame_gprs(f: Registers) -> Gprs {
    Gprs { edi: f.edi, esi: f.esi, ebp: f.ebp, ebx: f.ebx, edx: f.edx, ecx: f.ecx, eax: f.eax }
}

/// `prev` as `switch_to` leaves it: stack pointer and registers saved,
/// resuming at the `resume` label.
pub open spec fn saved(prev: Task, cpu: Cpu, resume: u32) -> Task {
    Task { esp: cpu.esp, eip: resume, context: cpu.gprs, ..prev }
}

/// The processor once `next` runs: its registers, stack and address space,
/// interrupts on.
pub open spec fn resumed(cpu: Cpu, next: Task) -> Cpu {
    Cpu { gprs: next.context, esp: next.esp, eip: next.eip, cr3: next.pd, eflags: cpu.eflags | EFLAGS_IF, ..cpu }
}

/// The running task, the queue and the processor after one `schedule`.
pub open spec fn schedule_spec(cur: Task, queue: Seq<Task>, cpu: Cpu, resume: u32) -> (Task, Seq<Task>, Cpu) {
    if queue.len() == 0 {
        (cur, queue, cpu)
    } else {
        (queue[0], queue.drop_first().push(saved(cur, cpu, resume)), resumed(cpu, queue[0]))
    }
}

/// Every task's TCB fits below the limit.
pub open spec fn tasks_wf(s: Seq<Task>) -> bool {
    forall|i: int| 0 <= i < s.len() ==> (#[trigger] s[i]).wf()
}

/// Every pid handed out so far is below `next`.
pub open spec fn pids_below(s: Seq<Task>, next: u32) -> bool {
    forall|i: int| 0 <= i < s.len() ==> (#[trigger] s[i]).pid < next
}

/// The running task and the queued ones have pairwise different pids: each
/// live task is held exactly once.
pub open spec fn pids_distinct(cur: Task, s: Seq<Task>) -> bool {
    &&& forall|i: int| 0 <= i < s.len() ==> (#[trigger] s[i]).pid != cur.pid
    &&& forall|i: int, j: int| 0 <= i < s.len() && 0 <= j < s.len() && i != j
        ==> (#[trigger] s[i]).pid != (#[trigger] s[j]).pid
}

/// The directory of every task exists in memory of `len` words.
pub open spec fn dirs_in(s: Seq<Task>, len: int) -> bool {
    forall|i: int| 0 <= i < s.len() ==> (#[trigger] s[i]).pd as int / 4 + 1024 <= len
}

impl Scheduler {
    pub open spec fn wf(&self) -> bool {
        &&& self.current.wf()
        &&& tasks_wf(self.tasks@)
        &&& self.next_pid >= 1
        &&& self.current.pid < self.next_pid
        &&& pids_below(self.tasks@, self.next_pid)
        &&& pids_distinct(self.current, self.tasks@)
    }

    /// Every task's directory, the running one's too, exists in memory of
    /// `len` words.
    pub open spec fn dirs_in(&self, len: int) -> bool {
        &&& self.current.pd as int / 4 + 1024 <= len
        &&& dirs_in(self.tasks@, len)
    }

    /// The boot task (pid 0) runs on the kernel directory; the TSS points at
    /// its kernel stack.
    pub fn init(kernel_directory: u32, base: u32, gdt: &mut Gdt, ret_from_trap: u32, resume: u32) -> (r: Scheduler)
        requires
            base as int + TASK_SIZE as int <= TASK_LIMIT,
        ensures
            r.wf(),
            r.current == (Task {
                pid: 0, esp: 0, eip: 0, pd: kernel_directory, regs: None, context: zero_gprs(), base,
            }),
            r.tasks@ == Seq::<Task>::empty(),
            r.next_pid == 1,
            r.ret_from_trap == ret_from_trap,
            r.resume == resume,
            final(gdt).tss.esp0 == base + TASK_SIZE,
            final(gdt).entries == old(gdt).entries,
    {
        let task = Task {
            pid: 0,
            esp: 0,
            eip: 0,
            pd: kernel_directory,
            regs: None,
            context: Gprs { edi: 0, esi: 0, ebp: 0, ebx: 0, edx: 0, ecx: 0, eax: 0 },
            base,
        };
        gdt.set_kernel_stack(task.stack_top());
        Scheduler { current: task, tasks: List::new(), next_pid: 1, ret_from_trap, resume }
    }

    /// What holds of a directory cloned after a heap allocation: the memory
    /// in between agrees with the memory before on the parent's user
    /// entries and its data, and the new directory is past every existing one.
    proof fn lemma_new_dir(&self, s0: &Scheduler, m0: Seq<u32>, mid: Seq<u32>, m: Seq<u32>, h: &Heap, c: int, pd: int)
        requires
            h.wf(),
            m0.len() <= mid.len(),
            tables_from(m0, mid, c),
            keeps_data(m0, mid, c),
            forall|q: int| 0 <= q < 1023 * 1024 && !((h.next + h.buffer) / 4096 <= q < 1023 * 1024)
                ==> #[trigger] pte_word(mid, c, q) == pte_word(m0, c, q),
            clone_of(mid, c, m, pd),
        ensures
            exists|x: Seq<u32>| {
                &&& clone_of(x, c, m, pd)
                &&& m0.len() <= x.len()
                &&& tables_from(m0, x, c)
                &&& keeps_data(m0, x, c)
                &&& forall|q: int| 0 <= q < crate::paging::KERNEL_SLOT * 1024
                    ==> #[trigger] pte_word(x, c, q) == pte_word(m0, c, q)
            },
            pd >= m0.len() * 4,
    {
        assert forall|q: int| 0 <= q < crate::paging::KERNEL_SLOT * 1024
            implies #[trigger] pte_word(mid, c, q) == pte_word(m0, c, q) by {
            assert(h.next + h.buffer >= crate::heap::HEAP_START);
        }
    }

    /// The running task.
    pub fn get_current_task(&mut self) -> (r: &mut Task)
        ensures
            *r == old(self).current,
            final(self).current == *final(r),
            final(self).tasks == old(self).tasks,
            final(self).next_pid == old(self).next_pid,
            final(self).ret_from_trap == old(self).ret_from_trap,
            final(self).resume == old(self).resume,
    {
        &mut self.current
    }

    /// The next pid.
    pub fn aquire_pid(&mut self) -> (r: u32)
        requires
            old(self).next_pid < u32::MAX,
        ensures
            r == old(self).next_pid,
            final(self).next_pid == old(self).next_pid + 1,
            final(self).current == old(self).current,
            final(self).tasks@ == old(self).tasks@,
            final(self).ret_from_trap == old(self).ret_from_trap,
            final(self).resume == old(self).resume,
    {
        let pid = self.next_pid;
        self.next_pid = self.next_pid + 1;
        pid
    }

    /// Yields the processor: with an empty queue nothing
    /// happens; otherwise the head of the queue runs and the current task,
    /// its registers saved, goes to the tail.
    pub fn schedule(&mut self, cpu: &mut Cpu, gdt: &mut Gdt)
        requires
            old(self).wf(),
        ensures
            final(self).wf(),
            (final(self).current, final(self).tasks@, *final(cpu))
                == schedule_spec(old(self).current, old(self).tasks@, *old(cpu), old(self).resume),
            old(self).tasks@.len() > 0 ==> final(gdt).tss.esp0 == stack_top_of(old(self).tasks@[0]),
            old(self).tasks@.len() == 0 ==> *final(gdt) == *old(gdt),
            final(gdt).entries == old(gdt).entries,
            final(self).next_pid == old(self).next_pid,
            final(self).ret_from_trap == old(self).ret_from_trap,
            final(self).resume == old(self).resume,
    {
        let next = match self.tasks.pop_front() {
            None => return,
            Some(t) => t,
        };
        assert(old(self).tasks@[0].wf());
        let prev = crate::util::replace(&mut self.current, next);
        let prev = switch_to(prev, &self.current, self.resume, cpu, gdt);
        self.tasks.append(prev);
        proof {
            assert forall|i: int| 0 <= i < self.tasks@.len() implies (#[trigger] self.tasks@[i]).wf() by {
                if i < self.tasks@.len() - 1 {
                    assert(old(self).tasks@[i + 1].wf());
                }
            }
            assert forall|i: int| 0 <= i < self.tasks@.len() implies (#[trigger] self.tasks@[i]).pid < self.next_pid by {
                if i < self.tasks@.len() - 1 {
                    assert(old(self).tasks@[i + 1].pid < self.next_pid);
                }
            }
            assert(old(self).tasks@[0].pid < self.next_pid);
            let o = old(self).tasks@;
            assert forall|i: int| 0 <= i < self.tasks@.len() implies (#[trigger] self.tasks@[i]).pid != self.current.pid by {
                if i < self.tasks@.len() - 1 {
                    assert(o[i + 1].pid != o[0].pid);
                } else {
                    assert(o[0].pid != old(self).current.pid);
                }
            }
            assert forall|i: int, j: int| 0 <= i < self.tasks@.len() && 0 <= j < self.tasks@.len() && i != j
                implies (#[trigger] self.tasks@[i]).pid != (#[trigger] self.tasks@[j]).pid by {
                let n = self.tasks@.len() - 1;
                if i < n && j < n {
                    assert(o[i + 1].pid != o[j + 1].pid);
                } else if i < n {
                    assert(o[i + 1].pid != old(self).current.pid);
                } else if j < n {
                    assert(o[j + 1].pid != old(self).current.pid);
                }
            }
        }
    }

    /// Ends the running task: the head of the queue runs, with
    /// nothing of the dying task saved.
    pub fn kill(&mut self, cpu: &mut Cpu, gdt: &mut Gdt) -> (r: Task)
        requires
            old(self).wf(),
            old(self).current.pid != 0,
            old(self).tasks@.len() > 0,
        ensures
            final(self).wf(),
            r == old(self).current,
            final(self).current == old(self).tasks@[0],
            final(self).tasks@ == old(self).tasks@.drop_first(),
            final(self).current.pid != r.pid,
            forall|i: int| 0 <= i < final(self).tasks@.len() ==> #[trigger] final(self).tasks@[i].pid != r.pid,
            *final(cpu) == resumed(*old(cpu), old(self).tasks@[0]),
            final(gdt).tss.esp0 == stack_top_of(old(self).tasks@[0]),
            final(gdt).entries == old(gdt).entries,
            final(self).next_pid == old(self).next_pid,
            final(self).ret_from_trap == old(self).ret_from_trap,
            final(self).resume == old(self).resume,
    {
        let next = match self.tasks.pop_front() {
            None => self.current,
            Some(t) => t,
        };
        assert(old(self).tasks@[0].wf());
        let dead = crate::util::replace(&mut self.current, next);
        replace_current(&self.current, cpu, gdt);
        proof {
            assert forall|i: int| 0 <= i < self.tasks@.len() implies (#[trigger] self.tasks@[i]).wf() by {
                assert(old(self).tasks@[i + 1].wf());
            }
            assert forall|i: int| 0 <= i < self.tasks@.len() implies (#[trigger] self.tasks@[i]).pid < self.next_pid by {
                assert(old(self).tasks@[i + 1].pid < self.next_pid);
            }
            assert(old(self).tasks@[0].pid < self.next_pid);
            let o = old(self).tasks@;
            assert forall|i: int| 0 <= i < self.tasks@.len() implies (#[trigger] self.tasks@[i]).pid != self.current.pid by {
                assert(o[i + 1].pid != o[0].pid);
            }
            assert forall|i: int, j: int| 0 <= i < self.tasks@.len() && 0 <= j < self.tasks@.len() && i != j
                implies (#[trigger] self.tasks@[i]).pid != (#[trigger] self.tasks@[j]).pid by {
                assert(o[i + 1].pid != o[j + 1].pid);
            }
            assert forall|i: int| 0 <= i < self.tasks@.len() implies (#[trigger] self.tasks@[i]).pid != dead.pid by {
                assert(o[i + 1].pid != old(self).current.pid);
            }
            assert(o[0].pid != old(self).current.pid);
        }
        dead
    }

    /// Queues a kernel thread that starts at `entry` on its own kernel
    /// stack, in a copy of the current address space.
    pub fn exec(&mut self, heap: &mut Heap, mem: &mut PhysMem, entry: u32) -> (pid: u32)
        requires
            old(self).wf(),
            old(self).next_pid < u32::MAX,
            old(heap).wf(),
            old(mem).wf(),
            space_ok(old(mem)@, old(self).current.pd as int),
            old(self).dirs_in(old(mem)@.len() as int),
            old(heap).next as int + TASK_SIZE as int + 4096 <= TASK_LIMIT,
            old(mem)@.len() + 8192 + CLONE_WORDS <= MAX_WORDS,
        ensures
            final(self).wf(),
            pid == old(self).next_pid,
            pid != 0,
            pid != old(self).current.pid,
            forall|i: int| 0 <= i < old(self).tasks@.len() ==> #[trigger] old(self).tasks@[i].pid != pid,
            final(self).next_pid == old(self).next_pid + 1,
            final(self).current == old(self).current,
            final(self).tasks@.len() == old(self).tasks@.len() + 1,
            final(self).tasks@.drop_last() == old(self).tasks@,
            ({
                let t = final(self).tasks@.last();
                &&& t.pid == pid
                &&& t.eip == entry
                &&& t.base == old(heap).next
                &&& t.esp == stack_top_of(t)
                &&& t.regs is None
                &&& space_ok(final(mem)@, t.pd as int)
                &&& exists|mid: Seq<u32>| {
                    &&& clone_of(mid, old(self).current.pd as int, final(mem)@, t.pd as int)
                    &&& old(mem)@.len() <= mid.len()
                    &&& tables_from(old(mem)@, mid, old(self).current.pd as int)
                    &&& keeps_data(old(mem)@, mid, old(self).current.pd as int)
                    &&& forall|q: int| 0 <= q < crate::paging::KERNEL_SLOT * 1024
                        ==> #[trigger] pte_word(mid, old(self).current.pd as int, q) == pte_word(old(mem)@, old(self).current.pd as int, q)
                }
                &&& t.pd != old(self).current.pd
                &&& forall|i: int| 0 <= i < old(self).tasks@.len() ==> #[trigger] old(self).tasks@[i].pd != t.pd
            }),
            final(self).dirs_in(final(mem)@.len() as int),
            final(heap).wf(),
            final(mem).wf(),
            space_ok(final(mem)@, old(self).current.pd as int),
            final(heap).next == old(heap).next + TASK_SIZE,
            final(self).ret_from_trap == old(self).ret_from_trap,
            final(self).resume == old(self).resume,
    {
        let cur = self.current.pd;
        let base = heap.malloc(mem, cur, TASK_SIZE);
        let pid = self.aquire_pid();
        let ghost mid = mem@;
        let pd = clone_directory(mem, cur);
        proof { self.lemma_new_dir(old(self), old(mem)@, mid, mem@, old(heap), cur as int, pd as int); }
        let mut task = Task {
            pid,
            esp: 0,
            eip: entry,
            pd,
            regs: None,
            context: Gprs { edi: 0, esi: 0, ebp: 0, ebx: 0, edx: 0, ecx: 0, eax: 0 },
            base,
        };
        task.esp = task.stack_top();
        self.tasks.append(task);
        proof {
            assert(self.tasks@.drop_last() =~= old(self).tasks@);
            assert forall|i: int| 0 <= i < self.tasks@.len() implies (#[trigger] self.tasks@[i]).wf() by {
                if i < old(self).tasks@.len() {
                    assert(old(self).tasks@[i].wf());
                }
            }
            assert forall|i: int| 0 <= i < self.tasks@.len() implies (#[trigger] self.tasks@[i]).pid < self.next_pid by {
                if i < old(self).tasks@.len() {
                    assert(old(self).tasks@[i].pid < old(self).next_pid);
                }
            }
            let o = old(self).tasks@;
            let nt = self.tasks@.len() - 1;
            assert forall|i: int| 0 <= i < self.tasks@.len() implies (#[trigger] self.tasks@[i]).pid != self.current.pid by {
                if i < nt {
                    assert(o[i].pid != old(self).current.pid);
                }
            }
            assert forall|i: int, j: int| 0 <= i < self.tasks@.len() && 0 <= j < self.tasks@.len() && i != j
                implies (#[trigger] self.tasks@[i]).pid != (#[trigger] self.tasks@[j]).pid by {
                if i < nt && j < nt {
                    assert(o[i].pid != o[j].pid);
                } else if i < nt {
                    assert(o[i].pid < old(self).next_pid);
                } else if j < nt {
                    assert(o[j].pid < old(self).next_pid);
                }
            }
            assert forall|i: int| 0 <= i < self.tasks@.len() implies (#[trigger] self.tasks@[i]).pd as int / 4 + 1024 <= mem@.len() by {
                if i < old(self).tasks@.len() {
                    assert(old(self).tasks@[i].pd as int / 4 + 1024 <= old(mem)@.len());
                }
            }
            assert forall|i: int| 0 <= i < old(self).tasks@.len() implies #[trigger] old(self).tasks@[i].pd != pd by {
                assert(old(self).tasks@[i].pd as int / 4 + 1024 <= old(mem)@.len());
            }
        }
        pid
    }

    /// Duplicates the running task. The child gets a copy of the
    /// address space, a kernel stack whose top holds the parent's current
    /// trap frame with `eax` set to 0, and resumes at the trap epilogue, so
    /// that it returns to user mode exactly as the parent will, but with a
    /// zero result. Returns the child's pid.
    pub fn fork(&mut self, heap: &mut Heap, mem: &mut PhysMem) -> (pid: u32)
        requires
            old(self).wf(),
            old(self).current.regs is Some,
            old(self).next_pid < u32::MAX,
            old(heap).wf(),
            old(mem).wf(),
            space_ok(old(mem)@, old(self).current.pd as int),
            old(self).dirs_in(old(mem)@.len() as int),
            old(heap).next as int + TASK_SIZE as int + 4096 <= TASK_LIMIT,
            old(mem)@.len() + 8192 + CLONE_WORDS <= MAX_WORDS,
        ensures
            final(self).wf(),
            pid == old(self).next_pid,
            pid != 0,
            pid != old(self).current.pid,
            forall|i: int| 0 <= i < old(self).tasks@.len() ==> #[trigger] old(self).tasks@[i].pid != pid,
            final(self).next_pid == old(self).next_pid + 1,
            final(self).current == old(self).current,
            final(self).tasks@.len() == old(self).tasks@.len() + 1,
            final(self).tasks@.drop_last() == old(self).tasks@,
            ({
                let t = final(self).tasks@.last();
                let parent = old(self).current.regs->0;
                &&& t.pid == pid
                &&& t.regs == Some(Registers { eax: 0, ..parent })
                &&& t.eip == old(self).ret_from_trap
                &&& t.base == old(heap).next
                &&& t.esp == stack_top_of(t) - FRAME_SIZE
                &&& t.context == frame_gprs(Registers { eax: 0, ..parent })
                &&& exists|mid: Seq<u32>| {
                    &&& clone_of(mid, old(self).current.pd as int, final(mem)@, t.pd as int)
                    &&& old(mem)@.len() <= mid.len()
                    &&& tables_from(old(mem)@, mid, old(self).current.pd as int)
                    &&& keeps_data(old(mem)@, mid, old(self).current.pd as int)
                    &&& forall|q: int| 0 <= q < crate::paging::KERNEL_SLOT * 1024
                        ==> #[trigger] pte_word(mid, old(self).current.pd as int, q) == pte_word(old(mem)@, old(self).current.pd as int, q)
                }
                &&& t.pd != old(self).current.pd
                &&& forall|i: int| 0 <= i < old(self).tasks@.len() ==> #[trigger] old(self).tasks@[i].pd != t.pd
            }),
            final(self).dirs_in(final(mem)@.len() as int),
            final(heap).next == old(heap).next + TASK_SIZE,
            final(heap).wf(),
            final(mem).wf(),
            space_ok(final(mem)@, old(self).current.pd as int),
            final(self).ret_from_trap == old(self).ret_from_trap,
            final(self).resume == old(self).resume,
    {
        let cur = self.current.pd;
        let base = heap.malloc(mem, cur, TASK_SIZE);
        let pid = self.aquire_pid();
        let ghost mid = mem@;
        let pd = clone_directory(mem, cur);
        proof { self.lemma_new_dir(old(self), old(mem)@, mid, mem@, old(heap), cur as int, pd as int); }
        let mut frame = match self.current.regs {
            Some(f) => f,
            None => Registers {
                edi: 0, esi: 0, ebp: 0, esp: 0, ebx: 0, edx: 0, ecx: 0, eax: 0,
                gs: 0, fs: 0, es: 0, ds: 0, int_no: 0, err_code: 0,
                eip: 0, cs: 0, eflags: 0, useresp: 0, ss: 0,
            },
        };
        frame.eax = 0;
        let mut task = Task {
            pid,
            esp: 0,
            eip: self.ret_from_trap,
            pd,
            regs: Some(frame),
            context: Gprs {
                edi: frame.edi, esi: frame.esi, ebp: frame.ebp, ebx: frame.ebx,
                edx: frame.edx, ecx: frame.ecx, eax: frame.eax,
            },
            base,
        };
        task.esp = task.stack_top() - FRAME_SIZE;
        self.tasks.append(task);
        proof {
            assert(self.tasks@.last().pd == pd);
            assert(self.tasks@.drop_last() =~= old(self).tasks@);
            assert forall|i: int| 0 <= i < self.tasks@.len() implies (#[trigger] self.tasks@[i]).wf() by {
                if i < old(self).tasks@.len() {
                    assert(old(self).tasks@[i].wf());
                }
            }
            assert forall|i: int| 0 <= i < self.tasks@.len() implies (#[trigger] self.tasks@[i]).pid < self.next_pid by {
                if i < old(self).tasks@.len() {
                    assert(old(self).tasks@[i].pid < old(self).next_pid);
                }
            }
            let o = old(self).tasks@;
            let nt = self.tasks@.len() - 1;
            assert forall|i: int| 0 <= i < self.tasks@.len() implies (#[trigger] self.tasks@[i]).pid != self.current.pid by {
                if i < nt {
                    assert(o[i].pid != old(self).current.pid);
                }
            }
            assert forall|i: int, j: int| 0 <= i < self.tasks@.len() && 0 <= j < self.tasks@.len() && i != j
                implies (#[trigger] self.tasks@[i]).pid != (#[trigger] self.tasks@[j]).pid by {
                if i < nt && j < nt {
                    assert(o[i].pid != o[j].pid);
                } else if i < nt {
                    assert(o[i].pid < old(self).next_pid);
                } else if j < nt {
                    assert(o[j].pid < old(self).next_pid);
                }
            }
            assert forall|i: int| 0 <= i < self.tasks@.len() implies (#[trigger] self.tasks@[i]).pd as int / 4 + 1024 <= mem@.len() by {
                if i < old(self).tasks@.len() {
                    assert(old(self).tasks@[i].pd as int / 4 + 1024 <= old(mem)@.len());
                }
            }
            assert forall|i: int| 0 <= i < old(self).tasks@.len() implies #[trigger] old(self).tasks@[i].pd != pd by {
                assert(old(self).tasks@[i].pd as int / 4 + 1024 <= old(mem)@.len());
            }
        }
        pid
    }
}

/// The context switch: saves the running registers and stack
/// into `prev` (which will resume at the `resume` label), points the TSS at
/// `next`'s kernel stack, loads `next`'s directory, stack and registers and
/// enables interrupts. Returns `prev` as saved.
pub fn switch_to(prev: Task, next: &Task, resume: u32, cpu: &mut Cpu, gdt: &mut Gdt) -> (r: Task)
    requires
        next.wf(),
    ensures
        r == saved(prev, *old(cpu), resume),
        *final(cpu) == resumed(*old(cpu), *next),
        final(gdt).tss == (TssEntry { esp0: stack_top_of(*next) as u32, ..old(gdt).tss }),
        final(gdt).entries == old(gdt).entries,
{
    let mut prev = prev;
    prev.esp = cpu.esp;
    prev.eip = resume;
    prev.context = cpu.gprs;
    gdt.set_kernel_stack(next.stack_top());
    switch_page_directory(cpu, next.pd);
    cpu.esp = next.esp;
    cpu.gprs = next.context;
    cpu.eflags = cpu.eflags | EFLAGS_IF;
    cpu.eip = next.eip;
    prev
}

/// Jumps into `next` without saving anything of the running task.
pub fn replace_current(next: &Task, cpu: &mut Cpu, gdt: &mut Gdt)
    requires
        next.wf(),
    ensures
        *final(cpu) == resumed(*old(cpu), *next),
        final(gdt).tss.esp0 == stack_top_of(*next),
        final(gdt).entries == old(gdt).entries,
{
    gdt.set_kernel_stack(next.stack_top());
    switch_page_directory(cpu, next.pd);
    cpu.esp = next.esp;
    cpu.gprs = next.context;
    cpu.eflags = cpu.eflags | EFLAGS_IF;
    cpu.eip = next.eip;
}

/// Loads `cr3`.
pub fn switch_page_directory(cpu: &mut Cpu, directory: u32)
    ensures
        *final(cpu) == (Cpu { cr3: directory, ..*old(cpu) }),
{
    cpu.cr3 = directory;
}

/// Sets the paging bit of `cr0`.
pub fn enable_paging(cpu: &mut Cpu)
    ensures
        *final(cpu) == (Cpu { cr0: old(cpu).cr0 | 0x8000_0000, ..*old(cpu) }),
{
    cpu.cr0 = cpu.cr0 | 0x8000_0000;
}

/// Loads the four data segment registers.
pub fn set_segments(cpu: &mut Cpu, dataseg: u16)
    ensures
        *final(cpu) == (Cpu { ds: dataseg, es: dataseg, fs: dataseg, gs: dataseg, ..*old(cpu) }),
{
    cpu.ds = dataseg;
    cpu.es = dataseg;
    cpu.fs = dataseg;
    cpu.gs = dataseg;
}

/// The five words `iret` pops on the way to ring 3.
#[derive(Clone, Copy, Debug, PartialEq, Eq, Structural)]
pub struct FakeStack {
    pub eip: u32,
    pub cs: u32,
    pub eflags: u32,
    pub esp: u32,
    pub ss: u32,
}

/// Enters ring 3 at `entry` with stack `stack` and interrupts enabled
///: the data segments get the user data selector, then an
/// `iret` through a five-word frame. Returns that frame.
pub fn user_mode(cpu: &mut Cpu, entry: u32, stack: u32) -> (r: FakeStack)
    ensures
        r == (FakeStack {
            eip: entry,
            cs: USER_CODE_SELECTOR as u32,
            eflags: old(cpu).eflags | EFLAGS_IF,
            esp: stack,
            ss: USER_DATA_SELECTOR as u32,
        }),
        *final(cpu) == (Cpu {
            eip: entry,
            cs: USER_CODE_SELECTOR,
            eflags: old(cpu).eflags | EFLAGS_IF,
            esp: stack,
            ss: USER_DATA_SELECTOR,
            ds: USER_DATA_SELECTOR,
            es: USER_DATA_SELECTOR,
            fs: USER_DATA_SELECTOR,
            gs: USER_DATA_SELECTOR,
            ..*old(cpu)
        }),
{
    let fake = FakeStack {
        eip: entry,
        cs: USER_CODE_SELECTOR as u32,
        eflags: cpu.eflags | EFLAGS_IF,
        esp: stack,
        ss: USER_DATA_SELECTOR as u32,
    };
    set_segments(cpu, USER_DATA_SELECTOR);
    cpu.eip = fake.eip;
    cpu.cs = fake.cs as u16;
    cpu.eflags = fake.eflags;
    cpu.esp = fake.esp;
    cpu.ss = fake.ss as u16;
    fake
}

/// Resuming a task restores exactly what was saved when it was switched
/// out: its general-purpose registers, its stack pointer and its address
/// space, whatever ran in between.
pub proof fn lemma_resume_restores(a: Task, saved_cpu: Cpu, later: Cpu, resume: u32)
    ensures
        resumed(later, saved(a, saved_cpu, resume)).gprs == saved_cpu.gprs,
        resumed(later, saved(a, saved_cpu, resume)).esp == saved_cpu.esp,
        resumed(later, saved(a, saved_cpu, resume)).cr3 == a.pd,
        resumed(later, saved(a, saved_cpu, resume)).eip == resume,
{
}

/// Context-switch identity: when A yields to B and B yields back, A runs
/// again with every general-purpose register, its stack pointer and its
/// address space as they were, and B waits at the head of the queue.
pub proof fn lemma_switch_identity(a: Task, b: Task, cpu: Cpu, resume: u32)
    ensures
        ({
            let (c1, q1, cpu1) = schedule_spec(a, seq![b], cpu, resume);
            let (c2, q2, cpu2) = schedule_spec(c1, q1, cpu1, resume);
            &&& c1 == b
            &&& c2 == saved(a, cpu, resume)
            &&& c2.pid == a.pid
            &&& cpu2.gprs == cpu.gprs
            &&& cpu2.esp == cpu.esp
            &&& cpu2.cr3 == a.pd
            &&& q2.len() == 1
            &&& q2[0].pid == b.pid
        }),
{
    let (c1, q1, cpu1) = schedule_spec(a, seq![b], cpu, resume);
    assert(seq![b].drop_first() =~= Seq::<Task>::empty());
    assert(q1 =~= seq![saved(a, cpu, resume)]);
    assert(q1.drop_first() =~= Seq::<Task>::empty());
}

} // verus!
