use rost::paging::{self, DIRECTORY, get_page, set_page, fetch_table, new_directory};
use rost::physical::PhysMem;
use rost::pte::{self, page_new, page_addr, page_flags, page_present, translate_flags, PRESENT, WRITE, USER, EXEC};
use rost::space::clone_directory;
use rost::kernel::{read_user_byte, write_user_word};

fn read_word(mem: &PhysMem, dir: u32, va: u32) -> Option<u32> {
    let mut w: u32 = 0;
    for i in 0..4 {
        let b = read_user_byte(mem, dir, va + i)?;
        w |= (b as u32) << (8 * i);
    }
    Some(w)
}

#[test]
fn entry_encoding() {
    let e = page_new(0x1234_5000, PRESENT | WRITE);
    assert_eq!(e, 0x1234_5003);
    assert_eq!(page_addr(e), 0x1234_5000);
    assert_eq!(page_flags(e), 3);
    assert!(page_present(e));
    assert!(!page_present(0x1234_5002));
    assert_eq!(pte::dir_index(0xC000_0000), 768);
    assert_eq!(pte::table_index(0x0040_3000), 3);
}

#[test]
fn translate_flags_drops_exec_adds_present() {
    assert_eq!(translate_flags(USER | WRITE | EXEC), USER | WRITE | PRESENT);
    assert_eq!(translate_flags(0), PRESENT);
}

#[test]
fn frames_start_past_kernel_end() {
    let mut mem = PhysMem::new(0x1801);
    assert_eq!(mem.words.len() * 4, 0x2000);
    assert_eq!(mem.allocate_frame(), 0x2000);
    assert_eq!(mem.allocate_frame(), 0x3000);
    assert_eq!(mem.frame_count(), 4);
    let aligned = PhysMem::new(0x3000);
    assert_eq!(aligned.words.len() * 4, 0x3000);
}

#[test]
fn init_identity_maps_first_four_mib() {
    let mut mem = PhysMem::new(0x10000);
    let d = paging::init(&mut mem);
    assert_eq!(d, 0x10000);
    assert_eq!(get_page(&mem, d, 0xB8000), 0xB8000 | 7);
    assert_eq!(get_page(&mem, d, 0x3F_F000), 0x3F_F000 | 7);
    assert_eq!(get_page(&mem, d, 0x40_0000), 0);
    // The recursive slot points back at the directory.
    assert_eq!(mem.read(d + 4 * 1023), d | 3);
}

#[test]
fn recursive_window_reads_directory_entries() {
    let mut mem = PhysMem::new(0x10000);
    let d = paging::init(&mut mem);
    for i in [0u32, 1, 500, 1023] {
        let through_window = read_word(&mem, d, DIRECTORY + 4 * i);
        assert_eq!(through_window, Some(mem.read(d + 4 * i)));
    }
    assert_eq!(read_word(&mem, d, DIRECTORY), Some(mem.read(d)));
}

#[test]
fn map_allocates_fresh_frames() {
    let mut mem = PhysMem::new(0x10000);
    let d = paging::init(&mut mem);
    let before = mem.words.len() as u32 * 4;
    paging::map(&mut mem, d, 0x0040_0000, 0x2001, USER | WRITE);
    for va in [0x0040_0000u32, 0x0040_1000, 0x0040_2000] {
        let e = get_page(&mem, d, va);
        assert!(page_present(e));
        assert_eq!(page_flags(e), USER | WRITE | PRESENT);
        assert!(page_addr(e) >= before);
    }
    assert_eq!(get_page(&mem, d, 0x0040_3000), 0);
    assert_eq!(read_word(&mem, d, 0x0040_0000), Some(0));
}

#[test]
fn fetch_table_creates_once() {
    let mut mem = PhysMem::new(0x10000);
    let d = new_directory(&mut mem);
    let t1 = fetch_table(&mut mem, d, 0x0080_0000, WRITE);
    let t2 = fetch_table(&mut mem, d, 0x0080_1000, WRITE);
    assert_eq!(t1, t2);
    assert_eq!(mem.read(d + 4 * 2), t1 | PRESENT | WRITE);
    set_page(&mut mem, d, 0x0080_5000, 0x9000, PRESENT | USER);
    assert_eq!(get_page(&mem, d, 0x0080_5000), 0x9000 | 5);
}

#[test]
fn clone_copies_user_pages_and_isolates_them() {
    let mut mem = PhysMem::new(0x10000);
    let d = paging::init(&mut mem);
    paging::map(&mut mem, d, 0x0040_0000, 0x1000, USER | WRITE);
    assert!(write_user_word(&mut mem, d, 0x0040_0000, 0x1111_2222));
    let child = clone_directory(&mut mem, d);
    assert_ne!(child, d);
    // Same contents, different frames.
    assert_eq!(read_word(&mem, child, 0x0040_0000), Some(0x1111_2222));
    assert_ne!(page_addr(get_page(&mem, child, 0x0040_0000)), page_addr(get_page(&mem, d, 0x0040_0000)));
    assert_eq!(page_flags(get_page(&mem, child, 0x0040_0000)), page_flags(get_page(&mem, d, 0x0040_0000)));
    // The parent writes 0xAA; the child keeps the value from before the fork.
    assert!(write_user_word(&mut mem, d, 0x0040_0000, 0xAA));
    assert_eq!(read_word(&mem, d, 0x0040_0000), Some(0xAA));
    assert_eq!(read_word(&mem, child, 0x0040_0000), Some(0x1111_2222));
    // And the other way round.
    assert!(write_user_word(&mut mem, child, 0x0040_0000, 0x55));
    assert_eq!(read_word(&mem, d, 0x0040_0000), Some(0xAA));
    // Unmapped in the parent, unmapped in the child.
    assert_eq!(get_page(&mem, child, 0x0050_0000), 0);
    // The identity map is shared.
    assert_eq!(mem.read(child), mem.read(d));
    assert_eq!(mem.read(child + 4 * 1023), child | 3);
}

#[test]
fn clone_shares_kernel_space() {
    let mut mem = PhysMem::new(0x10000);
    let d = paging::init(&mut mem);
    paging::map(&mut mem, d, 0xD000_0000, 0x1000, WRITE);
    let child = clone_directory(&mut mem, d);
    for slot in [768u32, 832, 1022] {
        assert_eq!(mem.read(child + 4 * slot), mem.read(d + 4 * slot));
        assert!(page_present(mem.read(d + 4 * slot)));
    }
    assert!(write_user_word(&mut mem, d, 0xD000_0010, 0xCAFE));
    assert_eq!(read_word(&mem, child, 0xD000_0010), Some(0xCAFE));
    // A page mapped later in the parent's kernel space is seen by the child.
    paging::map(&mut mem, d, 0xE000_0000, 0x1000, WRITE);
    assert!(write_user_word(&mut mem, d, 0xE000_0000, 7));
    assert_eq!(read_word(&mem, child, 0xE000_0000), Some(7));
}

#[test]
fn map_covers_unaligned_range() {
    let mut mem = PhysMem::new(0x10000);
    let d = paging::init(&mut mem);
    paging::map(&mut mem, d, 0x0040_0800, 0x1000, USER | WRITE);
    assert!(page_present(get_page(&mem, d, 0x0040_0000)));
    assert!(page_present(get_page(&mem, d, 0x0040_1000)));
    assert_eq!(get_page(&mem, d, 0x0040_2000), 0);
    assert_eq!(paging::span(0x0040_0800, 0x1000), 2);
    assert_eq!(paging::span(0x0040_0800, 0), 0);
}

#[test]
fn init_directory_entry_zero_is_user() {
    let mut mem = PhysMem::new(0x10000);
    let d = paging::init(&mut mem);
    assert_eq!(mem.read(d), (d + 0x1000) | 7);
}

#[test]
fn map_uses_distinct_frames_and_zeroed_tables() {
    let mut mem = PhysMem::new(0x10000);
    let d = paging::init(&mut mem);
    paging::map(&mut mem, d, 0x0080_0000, 0x3000, USER);
    let f: Vec<u32> = (0..3u32).map(|i| page_addr(get_page(&mem, d, 0x0080_0000 + 0x1000 * i))).collect();
    assert!(f[0] != f[1] && f[1] != f[2] && f[0] != f[2]);
    for i in 3..1024u32 {
        assert_eq!(get_page(&mem, d, 0x0080_0000 + 0x1000 * i), 0);
    }
}
