use rost::elf::{self, ElfError, PT_LOAD, PT_GNU_STACK, STACK_POSITION, STACK_SIZE};
use rost::gdt::{KERNEL_CODE_SELECTOR, KERNEL_DATA_SELECTOR, USER_CODE_SELECTOR, USER_DATA_SELECTOR};
use rost::idt::{self, Gprs, Handler, Registers};
use rost::irq::{self, PortWrite};
use rost::kernel::{Fault, Kernel, PageFaultInfo, read_user_byte};
use rost::paging;
use rost::util::convert;

const RET_FROM_TRAP: u32 = 0x0010_2000;
const RESUME: u32 = 0x0010_3000;

fn zero_regs() -> Registers {
    Registers {
        edi: 0, esi: 0, ebp: 0, esp: 0, ebx: 0, edx: 0, ecx: 0, eax: 0,
        gs: 0, fs: 0, es: 0, ds: 0, int_no: 0, err_code: 0,
        eip: 0, cs: 0, eflags: 0, useresp: 0, ss: 0,
    }
}

fn boot() -> Kernel {
    let stubs: Vec<u32> = (0..256u32).map(|i| 0x0010_0000 + 16 * i).collect();
    Kernel::boot(0x20000, 0x0010_4000, stubs, RET_FROM_TRAP, RESUME, 0x0009_0000)
}

fn le16(v: &mut Vec<u8>, at: usize, x: u16) {
    v[at..at + 2].copy_from_slice(&x.to_le_bytes());
}

fn le32(v: &mut Vec<u8>, at: usize, x: u32) {
    v[at..at + 4].copy_from_slice(&x.to_le_bytes());
}

/// An executable with one loadable segment holding "hi" at 0x08000000 and,
/// optionally, a non-executable stack header.
fn hello_image(gnu_stack: bool) -> Vec<u8> {
    let mut v = vec![0u8; 0x120];
    v[0..4].copy_from_slice(&[0x7F, b'E', b'L', b'F']);
    v[4] = 1;
    v[5] = 1;
    le16(&mut v, 16, 2);
    le16(&mut v, 18, 3);
    le32(&mut v, 24, 0x0800_0000);
    le32(&mut v, 28, 52);
    le16(&mut v, 42, 32);
    le16(&mut v, 44, if gnu_stack { 2 } else { 1 });
    let ph = 52;
    le32(&mut v, ph, PT_LOAD);
    le32(&mut v, ph + 4, 0x100);
    le32(&mut v, ph + 8, 0x0800_0000);
    le32(&mut v, ph + 16, 2);
    le32(&mut v, ph + 20, 0x10);
    le32(&mut v, ph + 24, 5);
    if gnu_stack {
        le32(&mut v, ph + 32, PT_GNU_STACK);
        le32(&mut v, ph + 32 + 24, 6);
    }
    v[0x100] = b'h';
    v[0x101] = b'i';
    v
}

/// A syscall from ring 3: the CPU delivers vector 0x80, the trap handler runs.
fn syscall(k: &mut Kernel, eax: u32, ebx: u32, ecx: u32, edx: u32) -> (Result<(), Fault>, Registers) {
    k.cpu.gprs.eax = eax;
    k.cpu.gprs.ebx = ebx;
    k.cpu.gprs.ecx = ecx;
    k.cpu.gprs.edx = edx;
    let tss = k.gdt.tss;
    let mut regs = idt::raise_interrupt(&k.idt, &mut k.cpu, &tss, 0x80, 0, true).expect("gate admits int 0x80");
    let r = k.trap_handler(&mut regs);
    (r, regs)
}

fn start_user_task_at(k: &mut Kernel, image: &Vec<u8>, entry: u32) {
    let pid = k.sched.exec(&mut k.heap, &mut k.mem, 0x0010_5000);
    assert_eq!(pid, 1);
    k.sched.schedule(&mut k.cpu, &mut k.gdt);
    let fake = elf::exec(k, image).expect("loads");
    assert_eq!(fake.eip, entry);
}

fn start_user_task(k: &mut Kernel, image: &Vec<u8>) {
    let pid = k.sched.exec(&mut k.heap, &mut k.mem, 0x0010_5000);
    assert_eq!(pid, 1);
    k.sched.schedule(&mut k.cpu, &mut k.gdt);
    assert_eq!(k.sched.current.pid, 1);
    let fake = elf::exec(k, image).expect("loads");
    assert_eq!(fake.eip, 0x0800_0000);
    assert_eq!(fake.esp, STACK_POSITION + STACK_SIZE);
}

#[test]
fn hello_syscall_prints_and_exits() {
    let mut k = boot();
    let image = hello_image(false);
    start_user_task(&mut k, &image);
    assert_eq!(k.cpu.cs, USER_CODE_SELECTOR);
    assert_eq!(k.cpu.ds, USER_DATA_SELECTOR);
    let (r, regs) = syscall(&mut k, 2, 1, 0x0800_0000, 2);
    assert_eq!(r, Ok(()));
    assert_eq!(regs.eax, 2);
    assert_eq!(k.console, b"hi".to_vec());
    let (r, _) = syscall(&mut k, 1, 0, 0, 0);
    assert_eq!(r, Ok(()));
    assert_eq!(k.sched.current.pid, 0);
    assert_eq!(k.sched.tasks.len(), 0);
}

#[test]
fn write_to_other_descriptor_fails() {
    let mut k = boot();
    let image = hello_image(false);
    start_user_task(&mut k, &image);
    let (r, regs) = syscall(&mut k, 2, 2, 0x0800_0000, 2);
    assert_eq!(r, Err(Fault::BadDescriptor));
    assert_eq!(regs.eax, 2);
    let (r, _) = syscall(&mut k, 2, 1, 0x0900_0000, 2);
    assert_eq!(r, Err(Fault::BadAddress(0x0900_0000)));
    assert!(k.console.is_empty());
}

#[test]
fn unimplemented_syscall_changes_nothing() {
    let mut k = boot();
    let (r, regs) = syscall(&mut k, 99, 1, 2, 3);
    assert_eq!(r, Ok(()));
    assert_eq!(regs.eax, 99);
    let (r, regs) = syscall(&mut k, 500, 1, 2, 3);
    assert_eq!(r, Ok(()));
    assert_eq!(regs.eax, 500);
}

#[test]
fn idle_task_cannot_exit() {
    let mut k = boot();
    let (r, _) = syscall(&mut k, 1, 0, 0, 0);
    assert_eq!(r, Err(Fault::KillIdle));
}

#[test]
fn fork_gives_child_pid_to_parent_and_zero_to_child() {
    let mut k = boot();
    let image = hello_image(false);
    start_user_task(&mut k, &image);
    k.cpu.gprs.esi = 0x5151;
    k.cpu.esp = 0x0560_1F00;
    let (r, parent) = syscall(&mut k, 3, 0, 0, 0);
    assert_eq!(r, Ok(()));
    let child_pid = parent.eax;
    assert_eq!(child_pid, 2);
    assert_ne!(child_pid, 0);
    let child = *k.sched.tasks.back().unwrap();
    assert_eq!(child.pid, child_pid);
    assert_eq!(child.eip, RET_FROM_TRAP);
    let frame = child.regs.unwrap();
    assert_eq!(frame.eax, 0);
    assert_eq!(Registers { eax: child_pid, ..frame }, parent);
    assert_eq!(frame.esi, 0x5151);
    assert_eq!(frame.useresp, 0x0560_1F00);
    assert_eq!(frame.cs as u16, USER_CODE_SELECTOR);
    assert_eq!(frame.ss as u16, USER_DATA_SELECTOR);
    // Each prints its result in decimal.
    let parent_text: String = convert(parent.eax).into_iter().collect();
    let child_text: String = convert(frame.eax).into_iter().collect();
    assert_eq!(parent_text, "2");
    assert_eq!(child_text, "0");
    // The child's user memory is a copy.
    assert_eq!(read_user_byte(&k.mem, child.pd, 0x0800_0000), Some(b'h'));
    // The child returns to user mode exactly where the parent will.
    let mut cpu = k.cpu;
    idt::return_from_trap(&mut cpu, &frame);
    assert_eq!(cpu.gprs.eax, 0);
    assert_eq!(cpu.gprs.esi, 0x5151);
    assert_eq!(cpu.esp, 0x0560_1F00);
    assert_eq!(cpu.cs, USER_CODE_SELECTOR);
}

#[test]
fn page_fault_reports_user_write_non_present() {
    let mut k = boot();
    k.cpu.cr2 = 0;
    let mut regs = Registers { int_no: 14, err_code: 6, ..zero_regs() };
    let r = k.trap_handler(&mut regs);
    assert_eq!(r, Err(Fault::PageFault(PageFaultInfo {
        present: false, write: true, user: true, reserved: false, address: 0,
    })));
}

#[test]
fn fatal_vectors_halt() {
    let mut k = boot();
    let mut regs = Registers { int_no: 13, err_code: 0x18, ..zero_regs() };
    assert_eq!(k.trap_handler(&mut regs), Err(Fault::Exception { int_no: 13, err_code: 0x18 }));
    let mut regs = Registers { int_no: 200, err_code: 0, ..zero_regs() };
    assert_eq!(k.trap_handler(&mut regs), Err(Fault::Unhandled { int_no: 200, err_code: 0 }));
}

#[test]
fn pit_hundred_ticks() {
    let mut k = boot();
    let top = k.sched.current.stack_top();
    for _ in 0..100 {
        let tss = k.gdt.tss;
        let mut regs = idt::raise_interrupt(&k.idt, &mut k.cpu, &tss, 32, 0, false).expect("timer gate");
        assert_eq!(k.trap_handler(&mut regs), Ok(()));
    }
    assert_eq!(k.ticks, 100);
    assert_eq!(k.gdt.tss.esp0, top);
    let eois = k.ports.iter().filter(|w| **w == PortWrite { port: 0x20, value: 0x20 }).count();
    assert_eq!(eois, 100);
    assert!(k.timer_handler() == false);
}

#[test]
fn syscall_gate_delivers_from_ring_three() {
    let mut k = boot();
    let image = hello_image(false);
    start_user_task(&mut k, &image);
    let user_esp = k.cpu.esp;
    let tss = k.gdt.tss;
    let frame = idt::raise_interrupt(&k.idt, &mut k.cpu, &tss, 0x80, 0, true).expect("gate admits");
    assert_eq!(k.cpu.cs, KERNEL_CODE_SELECTOR);
    assert_eq!(k.cpu.ds, KERNEL_DATA_SELECTOR);
    assert_eq!(frame.useresp, user_esp);
    assert_eq!(frame.ss as u16, USER_DATA_SELECTOR);
    assert_eq!(frame.int_no, 0x80);
    assert_eq!(k.cpu.esp, tss.esp0 - 76);
}

#[test]
fn ring_zero_gate_refuses_ring_three() {
    let mut k = boot();
    let image = hello_image(false);
    start_user_task(&mut k, &image);
    let before = k.cpu;
    let tss = k.gdt.tss;
    assert_eq!(idt::raise_interrupt(&k.idt, &mut k.cpu, &tss, 14, 0, true), None);
    assert_eq!(k.cpu, before);
}

#[test]
fn context_switch_round_trip() {
    let mut k = boot();
    let _ = k.sched.exec(&mut k.heap, &mut k.mem, 0x0010_7000);
    k.cpu.gprs = Gprs { edi: 1, esi: 2, ebp: 3, ebx: 4, edx: 5, ecx: 6, eax: 7 };
    k.cpu.esp = 0x0009_1234;
    let before = k.cpu;
    k.sched.schedule(&mut k.cpu, &mut k.gdt);
    assert_eq!(k.sched.current.pid, 1);
    assert_eq!(k.cpu.eip, 0x0010_7000);
    assert_eq!(k.gdt.tss.esp0, k.sched.current.stack_top());
    assert_eq!(k.cpu.cr3, k.sched.current.pd);
    k.cpu.gprs = Gprs { edi: 9, esi: 9, ebp: 9, ebx: 9, edx: 9, ecx: 9, eax: 9 };
    k.sched.schedule(&mut k.cpu, &mut k.gdt);
    assert_eq!(k.sched.current.pid, 0);
    assert_eq!(k.cpu.gprs, before.gprs);
    assert_eq!(k.cpu.esp, before.esp);
    assert_eq!(k.cpu.eip, RESUME);
    assert_eq!(k.cpu.cr3, before.cr3);
}

#[test]
fn schedule_with_empty_queue_does_nothing() {
    let mut k = boot();
    let before = k.cpu;
    k.sched.schedule(&mut k.cpu, &mut k.gdt);
    assert_eq!(k.cpu, before);
    assert_eq!(k.sched.current.pid, 0);
}

#[test]
fn sleep_yields() {
    let mut k = boot();
    let image = hello_image(false);
    start_user_task(&mut k, &image);
    let (r, _) = syscall(&mut k, 4, 10, 0, 0);
    assert_eq!(r, Ok(()));
    assert_eq!(k.sched.current.pid, 0);
    assert_eq!(k.sched.tasks.front().unwrap().pid, 1);
}

#[test]
fn elf_stack_flags_follow_gnu_stack() {
    let mut k = boot();
    let image = hello_image(true);
    let plan = elf::parse(&image).unwrap();
    assert!(!plan.exec_stack);
    assert_eq!(plan.segments.len(), 1);
    assert_eq!(plan.entry, 0x0800_0000);
    start_user_task(&mut k, &image);
    let e = paging::get_page(&k.mem, k.sched.current.pd, STACK_POSITION);
    assert_eq!(rost::pte::page_flags(e), 7);
    let seg = paging::get_page(&k.mem, k.sched.current.pd, 0x0800_0000);
    assert_eq!(rost::pte::page_flags(seg), 5);
    assert_eq!(read_user_byte(&k.mem, k.sched.current.pd, 0x0800_0001), Some(b'i'));
    assert_eq!(read_user_byte(&k.mem, k.sched.current.pd, 0x0800_0002), Some(0));
}

#[test]
fn elf_errors() {
    assert!(elf::probe(&hello_image(false)));
    assert!(!elf::probe(&vec![0x7F, b'E', b'L']));
    let mut not_exec = hello_image(false);
    not_exec[16] = 1;
    assert_eq!(elf::parse(&not_exec).err(), Some(ElfError::NotExecutable));
    assert_eq!(elf::parse(&vec![0u8; 10]).err(), Some(ElfError::Truncated));
    let mut dynamic = hello_image(false);
    dynamic[52] = 2;
    assert_eq!(elf::parse(&dynamic).err(), Some(ElfError::Unsupported(2)));
    let mut bad = hello_image(false);
    bad[52 + 16] = 0x20;
    assert_eq!(elf::parse(&bad).err(), Some(ElfError::BadSegment));
    let mut nulls = hello_image(false);
    nulls[52] = 0;
    let plan = elf::parse(&nulls).unwrap();
    assert_eq!(plan.segments.len(), 0);
    assert!(plan.exec_stack);
}

#[test]
fn pic_remap_and_eoi() {
    let (pic, writes) = irq::init();
    assert_eq!(pic.master_offset, 32);
    assert_eq!(pic.slave_offset, 40);
    assert_eq!(writes[2], PortWrite { port: 0x21, value: 0x20 });
    assert_eq!(writes[3], PortWrite { port: 0xA1, value: 0x28 });
    assert_eq!(writes.len(), 12);
    assert_eq!(irq::eoi_writes(32), vec![PortWrite { port: 0x20, value: 0x20 }]);
    assert_eq!(irq::eoi_writes(47), vec![PortWrite { port: 0xA0, value: 0x20 }, PortWrite { port: 0x20, value: 0x20 }]);
    assert!(irq::eoi_writes(31).is_empty());
    assert!(irq::eoi_writes(48).is_empty());
}

#[test]
fn pic_enable_clears_mask_bits() {
    let (mut pic, _) = irq::init();
    assert_eq!(irq::enable(&mut pic, 0), PortWrite { port: 0x21, value: 0xFE });
    assert_eq!(irq::enable(&mut pic, 9), PortWrite { port: 0xA1, value: 0xFD });
    assert_eq!(pic.master_mask, 0xFE);
    assert_eq!(pic.slave_mask, 0xFD);
}

#[test]
fn boot_brings_up_tables_and_paging() {
    let k = boot();
    assert_eq!(k.sched.current.pid, 0);
    assert_eq!(k.cpu.cr3, k.sched.current.pd);
    assert_eq!(k.cpu.cr0 & 0x8000_0000, 0x8000_0000);
    assert_eq!(k.idt.handlers[14], Handler::PageFault);
    assert_eq!(k.idt.handlers[32], Handler::Timer);
    assert_eq!(k.idt.handlers[33], Handler::Keyboard);
    assert_eq!(k.idt.handlers[0x80], Handler::Syscall);
    assert_eq!(k.idt.handlers[3], Handler::Exception);
    assert_eq!(k.idt.handlers[100], Handler::Dummy);
    assert_eq!(k.idt.entries[0x80].flags, 0xEE);
    assert_eq!(k.idt.entries[14].flags, 0x8E);
    assert_eq!(k.gdt.tss.esp0, k.sched.current.stack_top());
    assert_eq!(k.pic.master_mask, 0xFC);
    assert_eq!(k.sched.current.base, rost::heap::HEAP_START);
}

#[test]
fn unaligned_segment_is_fully_loaded() {
    let mut k = boot();
    let mut image = hello_image(false);
    le32(&mut image, 52 + 8, 0x0800_0FFF);
    le32(&mut image, 52 + 20, 0x10);
    le32(&mut image, 24, 0x0800_0FFF);
    start_user_task_at(&mut k, &image, 0x0800_0FFF);
    let pd = k.sched.current.pd;
    assert_eq!(read_user_byte(&k.mem, pd, 0x0800_0FFF), Some(b'h'));
    assert_eq!(read_user_byte(&k.mem, pd, 0x0800_1000), Some(b'i'));
    assert_eq!(read_user_byte(&k.mem, pd, 0x0800_100E), Some(0));
}

#[test]
fn exec_without_room_changes_nothing() {
    let mut k = boot();
    let _ = k.sched.exec(&mut k.heap, &mut k.mem, 0x0010_5000);
    k.sched.schedule(&mut k.cpu, &mut k.gdt);
    let mut image = hello_image(false);
    le32(&mut image, 52 + 8, 0xFFB0_0000);
    le32(&mut image, 52 + 20, 0x0100_0000);
    let before = k.mem.words.len();
    assert_eq!(elf::exec(&mut k, &image).err(), Some(ElfError::NoRoom));
    assert_eq!(k.mem.words.len(), before);
}

#[test]
fn pids_are_unique() {
    let mut k = boot();
    let a = k.sched.exec(&mut k.heap, &mut k.mem, 0x0010_5000);
    let b = k.sched.exec(&mut k.heap, &mut k.mem, 0x0010_6000);
    assert_ne!(a, b);
    assert_ne!(a, 0);
    let pds: Vec<u32> = k.sched.tasks.iter().iter().map(|t| t.pd).collect();
    assert_ne!(pds[0], pds[1]);
    assert_ne!(pds[0], k.sched.current.pd);
}

#[test]
fn boot_loads_segments_and_task_register() {
    let k = boot();
    assert_eq!(k.cpu.ds, KERNEL_DATA_SELECTOR);
    assert_eq!(k.cpu.ss, KERNEL_DATA_SELECTOR);
    assert_eq!(k.cpu.tr, rost::gdt::TSS_SELECTOR);
    assert_eq!(k.idt.entries[32].flags, 0x8E);
    assert_eq!(k.idt.entries[32].selector, KERNEL_CODE_SELECTOR);
}

#[test]
fn exceptions_have_names() {
    assert_eq!(idt::exception_name(0), "Divide-by-zero Error");
    assert_eq!(idt::exception_name(13), "General Protection Fault");
    assert_eq!(idt::exception_name(20), "Virtualization Exception");
    assert_eq!(idt::exception_name(21), "Reserved");
}

#[test]
fn exit_removes_the_task() {
    let mut k = boot();
    let image = hello_image(false);
    start_user_task(&mut k, &image);
    let (r, _) = syscall(&mut k, 1, 0, 0, 0);
    assert_eq!(r, Ok(()));
    assert_eq!(k.sched.current.pid, 0);
    assert!(k.sched.tasks.iter().iter().all(|t| t.pid != 1));
}

#[test]
fn heap_pages_are_user_writable() {
    let k = boot();
    let e = paging::get_page(&k.mem, k.sched.current.pd, rost::heap::HEAP_START);
    assert_eq!(rost::pte::page_flags(e), 7);
}
