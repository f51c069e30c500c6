//! Two-level IA-32 paging over `PhysMem`. A directory's last entry points
//! back at the directory itself, so that on the real machine every table is
//! reachable through the window at `0xFFC00000` and the directory through
//! `0xFFFFF000`. Page numbers `p` below are virtual addresses divided by
//! 4096; directory slot `p / 1024` and table slot `p % 1024` translate them.
use vstd::prelude::*;
use crate::pte::{
    PRESENT, WRITE, USER, entry_addr, entry_present, dir_idx, table_idx,
    page_new, page_addr, page_present, translate_flags,
};
use crate::physical::{PhysMem, MAX_WORDS};

verus! {

/// Virtual address of the directory through the recursive slot.
pub const DIRECTORY: u32 = 0xFFFF_F000;
/// Second recursive slot, used on the real machine to edit a directory
/// that is not the current one.
pub const DIRECTORY_SECONDARY: u32 = 0xFFBF_F000;
/// Start of the window through which every page table is reachable.
pub const PAGES: u32 = 0xFFC0_0000;
/// Start of kernel space.
pub const KERNEL_BASE: u32 = 0xC000_0000;
/// First page number of user space (4 MiB).
pub const USER_FIRST_PAGE: u32 = 1024;
/// Page number of `KERNEL_BASE`.
pub const USER_END_PAGE: u32 = 0xC0000;
/// Directory slot of `KERNEL_BASE`.
pub const KERNEL_SLOT: u32 = 768;
/// Directory slot that holds the directory itself.
pub const RECURSIVE_SLOT: u32 = 1023;

/// Directory entry `k` of the directory at `dir`.
pub open spec fn pde(m: Seq<u32>, dir: int, k: int) -> u32 {
    m[dir / 4 + k]
}

/// The table entry that maps page `p`, or zero when its table is absent.
pub open spec fn pte_word(m: Seq<u32>, dir: int, p: int) -> u32 {
    let d = pde(m, dir, p / 1024);
    if entry_present(d) {
        m[entry_addr(d) / 4 + p % 1024]
    } else {
        0
    }
}

/// Page `p` is mapped in the address space of `dir`.
pub open spec fn mapped(m: Seq<u32>, dir: int, p: int) -> bool {
    entry_present(pte_word(m, dir, p))
}

/// The frame that page `p` maps to, when `mapped`.
pub open spec fn frame(m: Seq<u32>, dir: int, p: int) -> int {
    entry_addr(pte_word(m, dir, p))
}

/// Physical address of virtual address `va`, if mapped.
pub open spec fn translate(m: Seq<u32>, dir: int, va: int) -> Option<int> {
    if mapped(m, dir, va / 4096) {
        Some(frame(m, dir, va / 4096) + va % 4096)
    } else {
        None
    }
}

/// The word seen at the aligned virtual address `va`, if mapped to memory
/// that exists.
pub open spec fn read_virt(m: Seq<u32>, dir: int, va: int) -> Option<u32> {
    match translate(m, dir, va) {
        Some(pa) => if 0 <= pa / 4 < m.len() { Some(m[pa / 4]) } else { None },
        None => None,
    }
}

/// The directory is a frame in memory.
pub open spec fn dir_ok(m: Seq<u32>, dir: int) -> bool {
    &&& dir % 4096 == 0
    &&& 0 <= dir
    &&& dir / 4 + 1024 <= m.len()
}

/// Every present directory entry refers to a table in memory.
pub open spec fn tables_ok(m: Seq<u32>, dir: int) -> bool {
    forall|k: int| 0 <= k < 1024 && #[trigger] entry_present(pde(m, dir, k))
        ==> entry_addr(pde(m, dir, k)) / 4 + 1024 <= m.len()
}

/// Every mapped user page refers to a frame in memory.
pub open spec fn frames_ok(m: Seq<u32>, dir: int) -> bool {
    forall|p: int| USER_FIRST_PAGE <= p < USER_END_PAGE && #[trigger] mapped(m, dir, p)
        ==> frame(m, dir, p) / 4 + 1024 <= m.len()
}

/// The last directory entry points back at the directory (present, writable).
pub open spec fn recursive(m: Seq<u32>, dir: int) -> bool {
    m[dir / 4 + 1023] as int == dir + 3
}

/// Below the recursive slot, no two directory entries share a table and
/// none refers to the directory itself.
pub open spec fn tables_distinct(m: Seq<u32>, dir: int) -> bool {
    &&& forall|k1: int, k2: int|
        0 <= k1 < 1023 && 0 <= k2 < 1023 && k1 != k2
        && #[trigger] entry_present(pde(m, dir, k1)) && #[trigger] entry_present(pde(m, dir, k2))
        ==> entry_addr(pde(m, dir, k1)) != entry_addr(pde(m, dir, k2))
    &&& forall|k: int| 0 <= k < 1023 && #[trigger] entry_present(pde(m, dir, k))
        ==> entry_addr(pde(m, dir, k)) != dir
}

/// A well-formed address space.
pub open spec fn space_ok(m: Seq<u32>, dir: int) -> bool {
    &&& dir_ok(m, dir)
    &&& tables_ok(m, dir)
    &&& tables_distinct(m, dir)
    &&& frames_ok(m, dir)
    &&& recursive(m, dir)
}

/// Words of two distinct frames never coincide.
pub proof fn lemma_frames_disjoint(a: int, b: int, x: int, y: int)
    requires
        a % 4096 == 0,
        b % 4096 == 0,
        a != b,
        0 <= x < 1024,
        0 <= y < 1024,
    ensures
        a / 4 + x != b / 4 + y,
{
}

/// Growing memory (old words kept) keeps an address space as it was.
pub proof fn lemma_grow_keeps(m1: Seq<u32>, m2: Seq<u32>, dir: int)
    requires
        m1.len() <= m2.len(),
        forall|w: int| 0 <= w < m1.len() ==> #[trigger] m2[w] == m1[w],
        dir_ok(m1, dir),
        tables_ok(m1, dir),
    ensures
        dir_ok(m2, dir),
        tables_ok(m2, dir),
        tables_distinct(m1, dir) ==> tables_distinct(m2, dir),
        frames_ok(m1, dir) ==> frames_ok(m2, dir),
        recursive(m1, dir) ==> recursive(m2, dir),
        forall|k: int| 0 <= k < 1024 ==> #[trigger] pde(m2, dir, k) == pde(m1, dir, k),
        forall|q: int| 0 <= q < 1024 * 1024 ==> #[trigger] pte_word(m2, dir, q) == pte_word(m1, dir, q),
{
    assert forall|k: int| 0 <= k < 1024 implies #[trigger] pde(m2, dir, k) == pde(m1, dir, k) by {}
    assert forall|q: int| 0 <= q < 1024 * 1024 implies #[trigger] pte_word(m2, dir, q) == pte_word(m1, dir, q) by {
        assert(pde(m2, dir, q / 1024) == pde(m1, dir, q / 1024));
        if entry_present(pde(m1, dir, q / 1024)) {
            assert(entry_present(pde(m1, dir, q / 1024)));
        }
    }
    if frames_ok(m1, dir) {
        assert forall|p: int| USER_FIRST_PAGE <= p < USER_END_PAGE && #[trigger] mapped(m2, dir, p)
            implies frame(m2, dir, p) / 4 + 1024 <= m2.len() by {
            assert(pte_word(m2, dir, p) == pte_word(m1, dir, p));
            assert(mapped(m1, dir, p));
        }
    }
}

/// The recursive map: in a directory whose last entry points back at
/// itself, the word at `DIRECTORY + 4 * i` is directory entry `i`.
pub proof fn lemma_recursive_window(m: Seq<u32>, dir: int, i: int)
    requires
        dir_ok(m, dir),
        recursive(m, dir),
        0 <= i < 1024,
    ensures
        translate(m, dir, DIRECTORY + 4 * i) == Some(dir + 4 * i),
        read_virt(m, dir, DIRECTORY + 4 * i) == Some(m[dir / 4 + i]),
{
    let va = DIRECTORY + 4 * i;
    assert(va / 4096 == 1048575);
    assert(va % 4096 == 4 * i);
    assert(entry_addr((dir + 3) as u32) == dir);
}

proof fn lemma_entry_addr(e: u32)
    ensures
        entry_addr(e) % 4096 == 0,
        0 <= entry_addr(e) <= e,
{
}

/// The table that covers `va` in `dir`, created (zeroed, installed with
/// `flags | PRESENT`) when absent.
pub fn fetch_table(mem: &mut PhysMem, dir: u32, va: u32, flags: u32) -> (t: u32)
    requires
        old(mem).wf(),
        dir_ok(old(mem)@, dir as int),
        tables_ok(old(mem)@, dir as int),
        old(mem)@.len() + 1024 <= MAX_WORDS,
        flags < 4096,
    ensures
        final(mem).wf(),
        dir_ok(final(mem)@, dir as int),
        tables_ok(final(mem)@, dir as int),
        t % 4096 == 0,
        t / 4 + 1024 <= final(mem)@.len(),
        entry_present(pde(final(mem)@, dir as int, dir_idx(va as int))),
        entry_addr(pde(final(mem)@, dir as int, dir_idx(va as int))) == t,
        tables_distinct(old(mem)@, dir as int) && dir_idx(va as int) < 1023
            ==> tables_distinct(final(mem)@, dir as int),
        entry_present(pde(old(mem)@, dir as int, dir_idx(va as int))) ==> {
            &&& final(mem)@ == old(mem)@
            &&& t == entry_addr(pde(old(mem)@, dir as int, dir_idx(va as int)))
        },
        !entry_present(pde(old(mem)@, dir as int, dir_idx(va as int))) ==> {
            &&& t as int == old(mem)@.len() * 4
            &&& final(mem)@.len() == old(mem)@.len() + 1024
            &&& final(mem)@[dir / 4 + dir_idx(va as int)] as int == t + (flags | PRESENT)
            &&& forall|w: int| 0 <= w < old(mem)@.len() && w != dir / 4 + dir_idx(va as int)
                ==> #[trigger] final(mem)@[w] == old(mem)@[w]
            &&& forall|w: int| old(mem)@.len() <= w < final(mem)@.len()
                ==> #[trigger] final(mem)@[w] == 0
        },
{
    let k = crate::pte::dir_index(va);
    let slot = dir + 4 * (k as u32);
    assert(slot / 4 == dir / 4 + k);
    let e = mem.read(slot);
    if page_present(e) {
        proof {
            lemma_entry_addr(e);
            assert(entry_present(pde(mem@, dir as int, k as int)));
        }
        page_addr(e)
    } else {
        let t = mem.allocate_frame();
        let f = flags | PRESENT;
        assert(f < 4096 && f % 2 == 1) by (bit_vector) requires flags < 4096, f == flags | 1u32;
        let ne = page_new(t, f);
        mem.write(slot, ne);
        proof {
            let m = mem@;
            assert forall|j: int| 0 <= j < 1024 && #[trigger] entry_present(pde(m, dir as int, j))
                implies entry_addr(pde(m, dir as int, j)) / 4 + 1024 <= m.len() by {
                if j != k {
                    assert(pde(m, dir as int, j) == pde(old(mem)@, dir as int, j));
                }
            }
            if tables_distinct(old(mem)@, dir as int) && k < 1023 {
                let m0 = old(mem)@;
                let d = dir as int;
                assert(forall|j: int| 0 <= j < 1024 && j != k ==> #[trigger] pde(m, d, j) == pde(m0, d, j));
                assert forall|k1: int, k2: int|
                    0 <= k1 < 1023 && 0 <= k2 < 1023 && k1 != k2
                    && #[trigger] entry_present(pde(m, d, k1)) && #[trigger] entry_present(pde(m, d, k2))
                    implies entry_addr(pde(m, d, k1)) != entry_addr(pde(m, d, k2)) by {
                    if k1 == k { assert(entry_present(pde(m0, d, k2))); }
                    if k2 == k { assert(entry_present(pde(m0, d, k1))); }
                }
                assert forall|k1: int| 0 <= k1 < 1023 && #[trigger] entry_present(pde(m, d, k1))
                    implies entry_addr(pde(m, d, k1)) != d by {
                    if k1 != k { assert(entry_present(pde(m0, d, k1))); }
                }
            }
        }
        t
    }
}

/// The table entry that maps `va` in `dir`, or zero where its table is
/// absent.
pub fn get_page(mem: &PhysMem, dir: u32, va: u32) -> (r: u32)
    requires
        dir_ok(mem@, dir as int),
        tables_ok(mem@, dir as int),
    ensures
        r == pte_word(mem@, dir as int, va as int / 4096),
{
    let k = crate::pte::dir_index(va);
    let e = mem.read(dir + 4 * (k as u32));
    assert(entry_present(e) ==> entry_present(pde(mem@, dir as int, k as int)));
    if page_present(e) {
        proof { lemma_entry_addr(e); }
        let t = page_addr(e);
        let j = crate::pte::table_index(va);
        mem.read(t + 4 * (j as u32))
    } else {
        0
    }
}

/// What installing entry `e` at slot `j` of the table `t` for slot `k`
/// (created when `k` was absent) does to the other pages.
proof fn lemma_set_page_frame(m0: Seq<u32>, m2: Seq<u32>, d: int, k: int, j: int, t: int, e: u32)
    requires
        dir_ok(m0, d),
        tables_ok(m0, d),
        tables_distinct(m0, d),
        0 <= k < 1023,
        0 <= j < 1024,
        t % 4096 == 0,
        t / 4 + 1024 <= m2.len(),
        m0.len() <= m2.len(),
        entry_present(pde(m2, d, k)),
        entry_addr(pde(m2, d, k)) == t,
        m2[t / 4 + j] == e,
        entry_present(pde(m0, d, k)) ==> t == entry_addr(pde(m0, d, k)) && m2.len() == m0.len(),
        !entry_present(pde(m0, d, k)) ==> t / 4 >= m0.len(),
        forall|w: int| 0 <= w < m0.len() && w != d / 4 + k && w != t / 4 + j
            ==> #[trigger] m2[w] == m0[w],
        forall|w: int| m0.len() <= w < m2.len() && w != t / 4 + j ==> #[trigger] m2[w] == 0,
    ensures
        dir_ok(m2, d),
        tables_ok(m2, d),
        tables_distinct(m2, d),
        pte_word(m2, d, k * 1024 + j) == e,
        forall|q: int| 0 <= q < 1023 * 1024 && q != k * 1024 + j
            ==> #[trigger] pte_word(m2, d, q) == pte_word(m0, d, q),
{
    assert(forall|kq: int| 0 <= kq < 1024 && kq != k ==> #[trigger] pde(m2, d, kq) == pde(m0, d, kq)) by {
        assert forall|kq: int| 0 <= kq < 1024 && kq != k implies #[trigger] pde(m2, d, kq) == pde(m0, d, kq) by {
            lemma_frames_disjoint(t, d, j, kq);
        }
    }
    assert((k * 1024 + j) / 1024 == k && (k * 1024 + j) % 1024 == j);
    assert forall|q: int| 0 <= q < 1023 * 1024 && q != k * 1024 + j
        implies #[trigger] pte_word(m2, d, q) == pte_word(m0, d, q) by {
        let kq = q / 1024;
        if kq != k {
            if entry_present(pde(m0, d, kq)) {
                let tq = entry_addr(pde(m0, d, kq));
                lemma_entry_addr(pde(m0, d, kq));
                if entry_present(pde(m0, d, k)) {
                    assert(tq != t);
                }
                lemma_frames_disjoint(t, tq, j, q % 1024);
                lemma_frames_disjoint(d, tq, k, q % 1024);
            }
        } else {
            assert(q % 1024 != j);
            if entry_present(pde(m0, d, k)) {
                lemma_frames_disjoint(d, t, k, q % 1024);
            }
        }
    }
    assert forall|k1: int, k2: int|
        0 <= k1 < 1023 && 0 <= k2 < 1023 && k1 != k2
        && #[trigger] entry_present(pde(m2, d, k1)) && #[trigger] entry_present(pde(m2, d, k2))
        implies entry_addr(pde(m2, d, k1)) != entry_addr(pde(m2, d, k2)) by {
        if k1 != k && k2 != k {
        } else if k1 == k && !entry_present(pde(m0, d, k)) {
            assert(entry_present(pde(m0, d, k2)));
        } else if k2 == k && !entry_present(pde(m0, d, k)) {
            assert(entry_present(pde(m0, d, k1)));
        }
    }
    assert forall|k1: int| 0 <= k1 < 1024 && #[trigger] entry_present(pde(m2, d, k1))
        implies entry_addr(pde(m2, d, k1)) / 4 + 1024 <= m2.len() by {
        if k1 != k {
            assert(entry_present(pde(m0, d, k1)));
        }
    }
}

/// Installs the entry `phys | flags` for `va`, creating its table with
/// `flags | PRESENT` when absent. Below the recursive slot
/// no other page's entry changes.
pub fn set_page(mem: &mut PhysMem, dir: u32, va: u32, phys: u32, flags: u32)
    requires
        old(mem).wf(),
        dir_ok(old(mem)@, dir as int),
        tables_ok(old(mem)@, dir as int),
        tables_distinct(old(mem)@, dir as int),
        old(mem)@.len() + 1024 <= MAX_WORDS,
        phys % 4096 == 0,
        flags < 4096,
        dir_idx(va as int) < 1023,
    ensures
        final(mem).wf(),
        dir_ok(final(mem)@, dir as int),
        tables_ok(final(mem)@, dir as int),
        tables_distinct(final(mem)@, dir as int),
        final(mem)@.len() == old(mem)@.len() || final(mem)@.len() == old(mem)@.len() + 1024,
        pte_word(final(mem)@, dir as int, va as int / 4096) == phys + flags,
        forall|q: int| 0 <= q < 1023 * 1024 && q != va as int / 4096
            ==> #[trigger] pte_word(final(mem)@, dir as int, q) == pte_word(old(mem)@, dir as int, q),
        pde(final(mem)@, dir as int, 1023) == pde(old(mem)@, dir as int, 1023),
        ({
            let k = dir_idx(va as int);
            let t = entry_addr(pde(final(mem)@, dir as int, k));
            &&& entry_present(pde(final(mem)@, dir as int, k))
            &&& t % 4096 == 0
            &&& t / 4 + 1024 <= final(mem)@.len()
            &&& (entry_present(pde(old(mem)@, dir as int, k)) ==> t == entry_addr(pde(old(mem)@, dir as int, k))
                && final(mem)@.len() == old(mem)@.len())
            &&& (!entry_present(pde(old(mem)@, dir as int, k)) ==> t / 4 >= old(mem)@.len())
            &&& forall|w: int| 0 <= w < old(mem)@.len() && w != dir / 4 + k && w != t / 4 + table_idx(va as int)
                ==> #[trigger] final(mem)@[w] == old(mem)@[w]
            &&& forall|w: int| old(mem)@.len() <= w < final(mem)@.len() && w != t / 4 + table_idx(va as int)
                ==> #[trigger] final(mem)@[w] == 0
        }),
{
    let ghost m0 = mem@;
    let t = fetch_table(mem, dir, va, flags);
    let j = crate::pte::table_index(va);
    let e = page_new(phys, flags);
    let slot = t + 4 * (j as u32);
    assert(slot / 4 == t / 4 + j);
    mem.write(slot, e);
    proof {
        let k = dir_idx(va as int);
        lemma_frames_disjoint(t as int, dir as int, j as int, k);
        assert(va as int / 4096 == k * 1024 + j);
        lemma_set_page_frame(m0, mem@, dir as int, k, j as int, t as int, e);
        lemma_frames_disjoint(t as int, dir as int, j as int, 1023);
    }
}

/// Page `q` is mapped with flag bits `f` onto a frame in memory at or
/// above word `lo`.
pub open spec fn fresh_page(m: Seq<u32>, dir: int, q: int, f: u32, lo: int) -> bool {
    &&& mapped(m, dir, q)
    &&& crate::pte::entry_flags(pte_word(m, dir, q)) == f
    &&& frame(m, dir, q) / 4 >= lo
    &&& frame(m, dir, q) / 4 + 1024 <= m.len()
}

/// Every table of `dir` in `m` is one it had in `m0`, or lies past `m0`.
pub open spec fn tables_from(m0: Seq<u32>, m: Seq<u32>, dir: int) -> bool {
    forall|k: int| 0 <= k < 1023 && #[trigger] entry_present(pde(m, dir, k)) ==> {
        ||| entry_present(pde(m0, dir, k)) && entry_addr(pde(m, dir, k)) == entry_addr(pde(m0, dir, k))
        ||| entry_addr(pde(m, dir, k)) / 4 >= m0.len()
    }
}

/// Word `w` is neither in the directory `dir` nor in one of its tables
/// below the recursive slot.
pub open spec fn unstructured(m: Seq<u32>, dir: int, w: int) -> bool {
    &&& !(dir / 4 <= w < dir / 4 + 1024)
    &&& forall|k: int| 0 <= k < 1023 && #[trigger] entry_present(pde(m, dir, k))
        ==> !(entry_addr(pde(m, dir, k)) / 4 <= w < entry_addr(pde(m, dir, k)) / 4 + 1024)
}

/// Every word of `m0` outside `dir`'s directory and tables is unchanged in
/// `m`.
pub open spec fn keeps_data(m0: Seq<u32>, m: Seq<u32>, dir: int) -> bool {
    forall|w: int| 0 <= w < m0.len() && unstructured(m0, dir, w) ==> #[trigger] m[w] == m0[w]
}

/// `tables_from` and `keeps_data` compose.
pub proof fn lemma_structure_trans(m0: Seq<u32>, m1: Seq<u32>, m2: Seq<u32>, d: int)
    requires
        m0.len() <= m1.len(),
        tables_from(m0, m1, d),
        keeps_data(m0, m1, d),
        tables_from(m1, m2, d),
        keeps_data(m1, m2, d),
    ensures
        tables_from(m0, m2, d),
        keeps_data(m0, m2, d),
{
    assert forall|w: int| 0 <= w < m0.len() && unstructured(m0, d, w) implies #[trigger] m2[w] == m0[w] by {
        assert forall|k: int| 0 <= k < 1023 && #[trigger] entry_present(pde(m1, d, k))
            implies !(entry_addr(pde(m1, d, k)) / 4 <= w < entry_addr(pde(m1, d, k)) / 4 + 1024) by {
            if entry_present(pde(m0, d, k)) && entry_addr(pde(m1, d, k)) == entry_addr(pde(m0, d, k)) {
            }
        }
        assert(unstructured(m1, d, w));
        assert(m1[w] == m0[w]);
    }
    assert forall|k: int| 0 <= k < 1023 && #[trigger] entry_present(pde(m2, d, k)) implies {
        ||| entry_present(pde(m0, d, k)) && entry_addr(pde(m2, d, k)) == entry_addr(pde(m0, d, k))
        ||| entry_addr(pde(m2, d, k)) / 4 >= m0.len()
    } by {
        if entry_present(pde(m1, d, k)) && entry_addr(pde(m2, d, k)) == entry_addr(pde(m1, d, k)) {
            assert(entry_present(pde(m1, d, k)));
        }
    }
}

/// One `set_page` (after growing memory from `mp` to `ma`) keeps
/// `tables_from` and `keeps_data` relative to `m0`.
pub proof fn lemma_structure_step(m0: Seq<u32>, mp: Seq<u32>, ma: Seq<u32>, m2: Seq<u32>, d: int, k: int, j: int)
    requires
        d % 4096 == 0,
        0 <= d,
        d / 4 + 1024 <= mp.len(),
        0 <= k < 1023,
        0 <= j < 1024,
        m0.len() <= mp.len() <= ma.len() <= m2.len(),
        tables_from(m0, mp, d),
        keeps_data(m0, mp, d),
        forall|w: int| 0 <= w < mp.len() ==> #[trigger] ma[w] == mp[w],
        tables_distinct(m2, d),
        entry_present(pde(m2, d, k)),
        entry_addr(pde(m2, d, k)) % 4096 == 0,
        entry_present(pde(ma, d, k)) ==> entry_addr(pde(m2, d, k)) == entry_addr(pde(ma, d, k)),
        !entry_present(pde(ma, d, k)) ==> entry_addr(pde(m2, d, k)) / 4 >= ma.len(),
        forall|w: int| 0 <= w < ma.len() && w != d / 4 + k && w != entry_addr(pde(m2, d, k)) / 4 + j
            ==> #[trigger] m2[w] == ma[w],
    ensures
        tables_from(m0, m2, d),
        keeps_data(m0, m2, d),
{
    let t = entry_addr(pde(m2, d, k));
    assert(t != d);
    assert forall|kk: int| 0 <= kk < 1024 && kk != k implies #[trigger] pde(m2, d, kk) == pde(mp, d, kk) by {
        lemma_frames_disjoint(t, d, j, kk);
        assert(ma[d / 4 + kk] == mp[d / 4 + kk]);
    }
    assert(pde(ma, d, k) == pde(mp, d, k));
    assert forall|kk: int| 0 <= kk < 1023 && #[trigger] entry_present(pde(m2, d, kk)) implies {
        ||| entry_present(pde(m0, d, kk)) && entry_addr(pde(m2, d, kk)) == entry_addr(pde(m0, d, kk))
        ||| entry_addr(pde(m2, d, kk)) / 4 >= m0.len()
    } by {
        if kk != k {
            assert(entry_present(pde(mp, d, kk)));
        } else if entry_present(pde(ma, d, k)) {
            assert(entry_present(pde(mp, d, k)));
        }
    }
    assert forall|w: int| 0 <= w < m0.len() && unstructured(m0, d, w) implies #[trigger] m2[w] == m0[w] by {
        assert(mp[w] == m0[w]);
        assert(w != d / 4 + k);
        if entry_present(pde(ma, d, k)) {
            assert(entry_present(pde(mp, d, k)));
            if entry_present(pde(m0, d, k)) && t == entry_addr(pde(m0, d, k)) {
                assert(!(t / 4 <= w < t / 4 + 1024));
            }
        }
    }
}

/// No table of `dir` below the recursive slot is page `q`'s frame.
pub open spec fn frame_not_table(m: Seq<u32>, dir: int, q: int) -> bool {
    forall|k: int| 0 <= k < 1023 && #[trigger] entry_present(pde(m, dir, k))
        ==> entry_addr(pde(m, dir, k)) != frame(m, dir, q)
}

/// After one more page is mapped onto the fresh frame `phys`, no mapped
/// page's frame is a table.
pub proof fn lemma_frames_not_tables(
    m0: Seq<u32>, mp: Seq<u32>, ma: Seq<u32>, m2: Seq<u32>, d: int, first: int, n: int, phys: int, f: u32,
)
    requires
        0 <= d,
        d % 4096 == 0,
        0 <= first,
        0 <= n,
        first + n < 1023 * 1024,
        f % 2 == 1,
        f < 4096,
        phys == mp.len() * 4,
        mp.len() % 1024 == 0,
        m0.len() <= mp.len() <= ma.len() <= m2.len(),
        ma.len() >= mp.len() + 1024,
        d / 4 + 1024 <= mp.len(),
        tables_ok(mp, d),
        forall|k: int| 0 <= k < 1024 ==> #[trigger] pde(ma, d, k) == pde(mp, d, k),
        forall|q: int| first <= q < first + n ==> {
            &&& #[trigger] fresh_page(mp, d, q, f, m0.len() as int)
            &&& frame_not_table(mp, d, q)
        },
        forall|q: int| 0 <= q < 1023 * 1024 ==> #[trigger] pte_word(ma, d, q) == pte_word(mp, d, q),
        tables_distinct(m2, d),
        pte_word(m2, d, first + n) == phys + f,
        forall|q: int| 0 <= q < 1023 * 1024 && q != first + n ==> #[trigger] pte_word(m2, d, q) == pte_word(ma, d, q),
        ({
            let k = (first + n) / 1024;
            let t = entry_addr(pde(m2, d, k));
            &&& entry_present(pde(m2, d, k))
            &&& t % 4096 == 0
            &&& (entry_present(pde(ma, d, k)) ==> t == entry_addr(pde(ma, d, k)))
            &&& (!entry_present(pde(ma, d, k)) ==> t / 4 >= ma.len())
            &&& forall|w: int| 0 <= w < ma.len() && w != d / 4 + k && w != t / 4 + (first + n) % 1024
                ==> #[trigger] m2[w] == ma[w]
        }),
    ensures
        forall|q: int| first <= q < first + n + 1 ==> #[trigger] frame_not_table(m2, d, q),
{
    let p = first + n;
    let k = p / 1024;
    let j = p % 1024;
    let t = entry_addr(pde(m2, d, k));
    assert(t != d);
    assert forall|kk: int| 0 <= kk < 1024 && kk != k implies #[trigger] pde(m2, d, kk) == pde(ma, d, kk) by {
        lemma_frames_disjoint(t, d, j, kk);
    }
    assert forall|kk: int| 0 <= kk < 1023 && #[trigger] entry_present(pde(m2, d, kk))
        implies entry_addr(pde(m2, d, kk)) / 4 + 1024 <= mp.len() || entry_addr(pde(m2, d, kk)) / 4 >= ma.len() by {
        if kk != k || entry_present(pde(ma, d, k)) {
            assert(pde(ma, d, kk) == pde(mp, d, kk));
            assert(entry_present(pde(mp, d, kk)));
        }
    }
    assert((phys + f) % 4096 == f as int);
    assert(frame(m2, d, p) == phys);
    assert forall|q: int| first <= q < first + n + 1 implies #[trigger] frame_not_table(m2, d, q) by {
        if q != p {
            assert(fresh_page(mp, d, q, f, m0.len() as int));
            assert(frame_not_table(mp, d, q));
            assert(pte_word(m2, d, q) == pte_word(mp, d, q));
            assert forall|kk: int| 0 <= kk < 1023 && #[trigger] entry_present(pde(m2, d, kk))
                implies entry_addr(pde(m2, d, kk)) != frame(m2, d, q) by {
                if kk != k || entry_present(pde(ma, d, k)) {
                    assert(pde(ma, d, kk) == pde(mp, d, kk));
                    assert(entry_present(pde(mp, d, kk)));
                }
            }
        }
    }
}

/// Pages `q1` and `q2` map to different frames.
pub open spec fn frames_differ(m: Seq<u32>, dir: int, q1: int, q2: int) -> bool {
    frame(m, dir, q1) != frame(m, dir, q2)
}

/// Number of pages that `[va, va + size)` meets.
pub open spec fn page_span(va: int, size: int) -> int {
    if size <= 0 { 0 } else { (va % 4096 + size + 4095) / 4096 }
}

/// `page_span` computed.
pub fn span(va: u32, size: u32) -> (r: u64)
    ensures
        r == page_span(va as int, size as int),
        r <= size as int / 4096 + 2,
{
    if size == 0 { 0 } else { ((va % 4096) as u64 + size as u64 + 4095) / 4096 }
}

/// A fresh directory: every entry absent but the last, which points back
/// at the directory itself.
pub fn new_directory(mem: &mut PhysMem) -> (d: u32)
    requires
        old(mem).wf(),
        old(mem)@.len() + 1024 <= MAX_WORDS,
    ensures
        final(mem).wf(),
        d as int == old(mem)@.len() * 4,
        final(mem)@.len() == old(mem)@.len() + 1024,
        space_ok(final(mem)@, d as int),
        forall|w: int| 0 <= w < old(mem)@.len() ==> #[trigger] final(mem)@[w] == old(mem)@[w],
        forall|k: int| 0 <= k < 1023 ==> #[trigger] pde(final(mem)@, d as int, k) == 0,
{
    let d = mem.allocate_frame();
    let f = PRESENT | WRITE;
    assert(f == 3) by (bit_vector) requires f == 1u32 | 2u32;
    let e = page_new(d, f);
    mem.write(d + 4 * 1023, e);
    proof {
        let m = mem@;
        assert(m[d as int / 4 + 1023] == e);
        assert forall|k: int| 0 <= k < 1023 implies #[trigger] pde(m, d as int, k) == 0 by {
        }
        assert forall|p: int| USER_FIRST_PAGE <= p < USER_END_PAGE && #[trigger] mapped(m, d as int, p)
            implies frame(m, d as int, p) / 4 + 1024 <= m.len() by {
            assert(pde(m, d as int, p / 1024) == 0);
        }
        assert forall|k: int| 0 <= k < 1024 && #[trigger] entry_present(pde(m, d as int, k))
            implies entry_addr(pde(m, d as int, k)) / 4 + 1024 <= m.len() by {
            if k < 1023 { assert(pde(m, d as int, k) == 0); }
        }
    }
    d
}

/// Builds the kernel directory: the first 4 MiB identity-mapped with
/// PRESENT|WRITE|USER through one table, the last slot recursive, every
/// other slot absent. Returns the directory's physical base.
pub fn init(mem: &mut PhysMem) -> (d: u32)
    requires
        old(mem).wf(),
        old(mem)@.len() + 2048 <= MAX_WORDS,
    ensures
        final(mem).wf(),
        space_ok(final(mem)@, d as int),
        d as int == old(mem)@.len() * 4,
        final(mem)@.len() == old(mem)@.len() + 2048,
        forall|w: int| 0 <= w < old(mem)@.len() ==> #[trigger] final(mem)@[w] == old(mem)@[w],
        forall|p: int| 0 <= p < 1024 ==> #[trigger] pte_word(final(mem)@, d as int, p) == p * 4096 + 7,
        forall|k: int| 1 <= k < 1023 ==> #[trigger] pde(final(mem)@, d as int, k) == 0,
        pde(final(mem)@, d as int, 0) as int == d as int + 4096 + 7,
{
    let d = new_directory(mem);
    let ghost md = mem@;
    let t = mem.allocate_frame();
    let flags = PRESENT | WRITE | USER;
    assert(flags == 7) by (bit_vector) requires flags == 1u32 | 2u32 | 4u32;
    let ghost m1 = mem@;
    assert forall|k: int| 0 <= k < 1024 implies #[trigger] pde(m1, d as int, k) == pde(md, d as int, k) by {}
    let mut i: u32 = 0;
    while i < 1024
        invariant
            i <= 1024,
            flags == 7,
            mem.wf(),
            mem@.len() == m1.len(),
            t as int == d as int + 4096,
            t % 4096 == 0,
            t / 4 + 1024 == m1.len(),
            forall|w: int| 0 <= w < t / 4 ==> #[trigger] mem@[w] == m1[w],
            forall|p: int| 0 <= p < i ==> #[trigger] mem@[t / 4 + p] == p * 4096 + 7,
        decreases 1024 - i,
    {
        let e = page_new(i * 4096, flags);
        mem.write(t + 4 * i, e);
        i = i + 1;
    }
    let e = page_new(t, flags);
    mem.write(d, e);
    proof {
        let m = mem@;
        let di = d as int;
        assert(pde(m, di, 0) == t + 7);
        assert(entry_present(pde(m, di, 0)) && entry_addr(pde(m, di, 0)) == t);
        assert forall|k: int| 1 <= k < 1023 implies #[trigger] pde(m, di, k) == 0 by {
            assert(pde(md, di, k) == 0);
        }
        assert(recursive(m, di)) by { assert(pde(m1, di, 1023) == m[di / 4 + 1023]); }
        assert forall|p: int| 0 <= p < 1024 implies #[trigger] pte_word(m, di, p) == p * 4096 + 7 by {
            assert(p / 1024 == 0 && p % 1024 == p);
        }
        assert forall|p: int| USER_FIRST_PAGE <= p < USER_END_PAGE && #[trigger] mapped(m, di, p)
            implies frame(m, di, p) / 4 + 1024 <= m.len() by {
            assert(pde(m, di, p / 1024) == 0);
        }
        assert forall|k: int| 0 <= k < 1024 && #[trigger] entry_present(pde(m, di, k))
            implies entry_addr(pde(m, di, k)) / 4 + 1024 <= m.len() by {
            if 1 <= k < 1023 { assert(pde(m, di, k) == 0); }
        }
        assert forall|k1: int, k2: int|
            0 <= k1 < 1023 && 0 <= k2 < 1023 && k1 != k2
            && #[trigger] entry_present(pde(m, di, k1)) && #[trigger] entry_present(pde(m, di, k2))
            implies entry_addr(pde(m, di, k1)) != entry_addr(pde(m, di, k2)) by {
            if k1 != 0 { assert(pde(m, di, k1) == 0); } else { assert(pde(m, di, k2) == 0); }
        }
        assert forall|k: int| 0 <= k < 1023 && #[trigger] entry_present(pde(m, di, k))
            implies entry_addr(pde(m, di, k)) != di by {
            if k != 0 { assert(pde(m, di, k) == 0); }
        }
    }
    d
}

pub proof fn lemma_map_step(m0: Seq<u32>, mp: Seq<u32>, m2: Seq<u32>, d: int, first: int, n: int, phys: u32, f: u32)
    requires
        f < 4096,
        f % 2 == 1,
        phys % 4096 == 0,
        0 <= first,
        first + n < 1023 * 1024,
        0 <= n,
        phys / 4 >= m0.len(),
        phys / 4 + 1024 <= m2.len(),
        mp.len() <= m2.len(),
        forall|q: int| first <= q < first + n ==> #[trigger] fresh_page(mp, d, q, f, m0.len() as int),
        forall|q: int| 0 <= q < 1023 * 1024 && !(first <= q < first + n)
            ==> #[trigger] pte_word(mp, d, q) == pte_word(m0, d, q),
        pte_word(m2, d, first + n) == phys + f,
        forall|q: int| 0 <= q < 1023 * 1024 && q != first + n
            ==> #[trigger] pte_word(m2, d, q) == pte_word(mp, d, q),
    ensures
        forall|q: int| first <= q < first + n + 1 ==> #[trigger] fresh_page(m2, d, q, f, m0.len() as int),
        forall|q: int| 0 <= q < 1023 * 1024 && !(first <= q < first + n + 1)
            ==> #[trigger] pte_word(m2, d, q) == pte_word(m0, d, q),
{
    assert((phys + f) as int % 4096 == f as int);
    assert(frame(m2, d, first + n) == phys as int);
    assert(mapped(m2, d, first + n));
    assert forall|q: int| first <= q < first + n + 1 implies #[trigger] fresh_page(m2, d, q, f, m0.len() as int) by {
        if q != first + n {
            assert(fresh_page(mp, d, q, f, m0.len() as int));
        }
    }
}

/// Maps every page that `[va, va + size)` meets, each onto a freshly
/// allocated frame with `translate_flags(flags)`. The mappings of
/// all other pages below the recursive slot stay.
pub fn map(mem: &mut PhysMem, dir: u32, va: u32, size: u32, flags: u32)
    requires
        old(mem).wf(),
        dir_ok(old(mem)@, dir as int),
        tables_ok(old(mem)@, dir as int),
        tables_distinct(old(mem)@, dir as int),
        va as int + size as int <= PAGES,
        flags < 4096,
        old(mem)@.len() + 2048 * page_span(va as int, size as int) <= MAX_WORDS,
    ensures
        final(mem).wf(),
        dir_ok(final(mem)@, dir as int),
        tables_ok(final(mem)@, dir as int),
        tables_distinct(final(mem)@, dir as int),
        old(mem)@.len() <= final(mem)@.len() <= old(mem)@.len() + 2048 * page_span(va as int, size as int),
        forall|q: int| va / 4096 <= q < va / 4096 + page_span(va as int, size as int)
            ==> #[trigger] fresh_page(final(mem)@, dir as int, q, translate_flags_spec(flags), old(mem)@.len() as int),
        forall|q: int| 0 <= q < 1023 * 1024 && !(va / 4096 <= q < va / 4096 + page_span(va as int, size as int))
            ==> #[trigger] pte_word(final(mem)@, dir as int, q) == pte_word(old(mem)@, dir as int, q),
        space_ok(old(mem)@, dir as int) ==> space_ok(final(mem)@, dir as int),
        tables_from(old(mem)@, final(mem)@, dir as int),
        keeps_data(old(mem)@, final(mem)@, dir as int),
        forall|q: int| va / 4096 <= q < va / 4096 + page_span(va as int, size as int)
            ==> #[trigger] frame_not_table(final(mem)@, dir as int, q),
        forall|q1: int, q2: int| va / 4096 <= q1 < va / 4096 + page_span(va as int, size as int)
            && va / 4096 <= q2 < va / 4096 + page_span(va as int, size as int) && q1 != q2
            ==> #[trigger] frames_differ(final(mem)@, dir as int, q1, q2),
        forall|q: int| 0 <= q < 1023 * 1024 && !(va / 4096 <= q < va / 4096 + page_span(va as int, size as int))
            && !entry_present(pde(old(mem)@, dir as int, q / 1024))
            ==> #[trigger] pte_word(final(mem)@, dir as int, q) == 0,
{
    let f = translate_flags(flags);
    let count = span(va, size);
    let base: u64 = (va - va % 4096) as u64;
    let mut i: u64 = 0;
    let ghost first = va as int / 4096;
    let ghost m0 = mem@;
    let ghost mut n: int = 0;
    while i < count
        invariant
            f == translate_flags_spec(flags),
            f < 4096,
            f % 2 == 1,
            count == page_span(va as int, size as int),
            base == first * 4096,
            va as int + size as int <= PAGES,
            first == va as int / 4096,
            m0.len() + 2048 * page_span(va as int, size as int) <= MAX_WORDS,
            i == n,
            0 <= n <= page_span(va as int, size as int),
            mem.wf(),
            dir_ok(mem@, dir as int),
            tables_ok(mem@, dir as int),
            tables_distinct(mem@, dir as int),
            m0.len() <= mem@.len() <= m0.len() + 2048 * n,
            forall|q: int| first <= q < first + n ==> #[trigger] fresh_page(mem@, dir as int, q, f, m0.len() as int),
            forall|q: int| 0 <= q < 1023 * 1024 && !(first <= q < first + n)
                ==> #[trigger] pte_word(mem@, dir as int, q) == pte_word(m0, dir as int, q),
            pde(mem@, dir as int, 1023) == pde(m0, dir as int, 1023),
            dir % 4096 == 0,
            tables_from(m0, mem@, dir as int),
            keeps_data(m0, mem@, dir as int),
            forall|q: int| first <= q < first + n ==> #[trigger] frame_not_table(mem@, dir as int, q),
            forall|q1: int, q2: int| first <= q1 < first + n && first <= q2 < first + n && q1 != q2
                ==> #[trigger] frames_differ(mem@, dir as int, q1, q2),
        decreases count - i,
    {
        let ghost mp = mem@;
        assert(pde(mp, dir as int, 1023) == pde(m0, dir as int, 1023));
        assert(mem@.len() + 2048 <= MAX_WORDS) by (nonlinear_arith)
            requires
                mem@.len() <= m0.len() + 2048 * n,
                n + 1 <= page_span(va as int, size as int),
                m0.len() + 2048 * page_span(va as int, size as int) <= MAX_WORDS;
        let phys = mem.allocate_frame();
        let ghost ma = mem@;
        assert forall|q: int| 0 <= q < 1023 * 1024 implies #[trigger] pte_word(ma, dir as int, q) == pte_word(mp, dir as int, q) by {
            if entry_present(pde(mp, dir as int, q / 1024)) {
                assert(entry_present(pde(mp, dir as int, q / 1024)));
            }
        }
        assert(tables_ok(ma, dir as int)) by {
            assert forall|k: int| 0 <= k < 1024 && #[trigger] entry_present(pde(ma, dir as int, k))
                implies entry_addr(pde(ma, dir as int, k)) / 4 + 1024 <= ma.len() by {
                assert(pde(ma, dir as int, k) == pde(mp, dir as int, k));
            }
        }
        assert(tables_distinct(ma, dir as int)) by {
            assert(forall|k: int| 0 <= k < 1024 ==> #[trigger] pde(ma, dir as int, k) == pde(mp, dir as int, k));
        }
        assert(pde(ma, dir as int, 1023) == pde(mp, dir as int, 1023));
        assert((first + n) * 4096 < PAGES) by (nonlinear_arith)
            requires
                n < page_span(va as int, size as int),
                page_span(va as int, size as int) == (va as int % 4096 + size as int + 4095) / 4096,
                first == va as int / 4096,
                va as int + size as int <= PAGES,
                PAGES % 4096 == 0;
        let c = (base + i * 4096) as u32;
        assert(c as int / 4096 == first + n) by (nonlinear_arith)
            requires c as int == (first + n) * 4096;
        set_page(mem, dir, c, phys, f);
        proof {
            assert(first + n < 1023 * 1024) by (nonlinear_arith)
                requires c as int / 4096 == first + n, c < PAGES;
            lemma_map_step(m0, mp, mem@, dir as int, first, n, phys, f);
            lemma_structure_step(m0, mp, ma, mem@, dir as int, (c as int) / 4096 / 1024, (c as int / 4096) % 1024);
            assert forall|k: int| 0 <= k < 1024 implies #[trigger] pde(ma, dir as int, k) == pde(mp, dir as int, k) by {}
            assert forall|q: int| first <= q < first + n implies {
                &&& #[trigger] fresh_page(mp, dir as int, q, f, m0.len() as int)
                &&& frame_not_table(mp, dir as int, q)
            } by {
                assert(fresh_page(mp, dir as int, q, f, m0.len() as int));
            }
            lemma_frames_not_tables(m0, mp, ma, mem@, dir as int, first, n, phys as int, f);
            assert((phys + f) as int % 4096 == f as int);
            assert(frame(mem@, dir as int, first + n) == phys as int);
            assert forall|q1: int, q2: int| first <= q1 < first + n + 1 && first <= q2 < first + n + 1 && q1 != q2
                implies #[trigger] frames_differ(mem@, dir as int, q1, q2) by {
                if q1 < first + n {
                    assert(fresh_page(mp, dir as int, q1, f, m0.len() as int));
                    assert(pte_word(mem@, dir as int, q1) == pte_word(mp, dir as int, q1));
                }
                if q2 < first + n {
                    assert(fresh_page(mp, dir as int, q2, f, m0.len() as int));
                    assert(pte_word(mem@, dir as int, q2) == pte_word(mp, dir as int, q2));
                }
                if q1 < first + n && q2 < first + n {
                    assert(frames_differ(mp, dir as int, q1, q2));
                }
            }
        }
        i = i + 1;
        proof { n = n + 1; }
    }
    proof {
        assert forall|q: int| 0 <= q < 1023 * 1024 && !(first <= q < first + n)
            && !entry_present(pde(m0, dir as int, q / 1024))
            implies #[trigger] pte_word(mem@, dir as int, q) == 0 by {
            assert(pte_word(mem@, dir as int, q) == pte_word(m0, dir as int, q));
        }
        if space_ok(m0, dir as int) {
            let m = mem@;
            assert(recursive(m, dir as int));
            assert forall|p: int| USER_FIRST_PAGE <= p < USER_END_PAGE && #[trigger] mapped(m, dir as int, p)
                implies frame(m, dir as int, p) / 4 + 1024 <= m.len() by {
                if first <= p < first + n {
                    assert(fresh_page(m, dir as int, p, f, m0.len() as int));
                } else {
                    assert(pte_word(m, dir as int, p) == pte_word(m0, dir as int, p));
                    assert(mapped(m0, dir as int, p));
                }
            }
        }
    }
}

/// `translate_flags` as a spec function.
pub open spec fn translate_flags_spec(flags: u32) -> u32 {
    (flags & !crate::pte::EXEC) | PRESENT
}

} // verus!
