//! The kernel heap: a bump allocator over a window of kernel space that
//! maps one more page whenever the mapped room beyond the cursor is too
//! small. Nothing is ever freed.
use vstd::prelude::*;
use crate::pte::{PRESENT, WRITE, USER, entry_addr, entry_present};
use crate::kernel::{user_byte, set_byte, lemma_set_byte, read_user_byte, write_user_byte};
use crate::physical::{PhysMem, MAX_WORDS};
use crate::paging::{
    mapped, page_span, pte_word, tables_from, keeps_data, lemma_structure_trans, frame, frame_not_table, pde,
    unstructured, lemma_frames_disjoint, frames_differ, dir_ok, tables_ok, tables_distinct, fresh_page,
    translate_flags_spec, PAGES,
};

verus! {

pub const HEAP_START: u32 = 0xD000_0000;
pub const PAGE_SIZE: u32 = 0x1000;

/// Page `q` is mapped PRESENT|WRITE|USER onto a frame in memory that is
/// neither the directory nor one of its tables.
pub open spec fn data_page(m: Seq<u32>, dir: int, q: int) -> bool {
    &&& mapped(m, dir, q)
    &&& crate::pte::entry_flags(pte_word(m, dir, q)) == 7
    &&& frame(m, dir, q) / 4 + 1024 <= m.len()
    &&& frame(m, dir, q) != dir
    &&& frame_not_table(m, dir, q)
}

/// Pages `lo .. hi` are data pages with pairwise distinct frames.
pub open spec fn heap_pages(m: Seq<u32>, dir: int, lo: int, hi: int) -> bool {
    &&& forall|q: int| lo <= q < hi ==> #[trigger] data_page(m, dir, q)
    &&& forall|q1: int, q2: int| lo <= q1 < hi && lo <= q2 < hi && q1 != q2
        ==> #[trigger] frames_differ(m, dir, q1, q2)
}


/// Mapping page `p` onto a fresh frame extends `heap_pages` by one page.
proof fn lemma_heap_pages_grow(mb: Seq<u32>, m2: Seq<u32>, dir: int, lo: int, p: int)
    requires
        lo <= p < 1023 * 1024,
        0 <= lo,
        dir_ok(mb, dir),
        heap_pages(mb, dir, lo, p),
        fresh_page(m2, dir, p, 7, mb.len() as int),
        frame_not_table(m2, dir, p),
        forall|q: int| 0 <= q < 1023 * 1024 && q != p ==> #[trigger] pte_word(m2, dir, q) == pte_word(mb, dir, q),
        mb.len() <= m2.len(),
        tables_from(mb, m2, dir),
    ensures
        heap_pages(m2, dir, lo, p + 1),
{
    assert forall|q: int| lo <= q < p + 1 implies #[trigger] data_page(m2, dir, q) by {
        if q < p {
            assert(data_page(mb, dir, q));
            assert(pte_word(m2, dir, q) == pte_word(mb, dir, q));
            assert forall|k: int| 0 <= k < 1023 && #[trigger] entry_present(pde(m2, dir, k))
                implies entry_addr(pde(m2, dir, k)) != frame(m2, dir, q) by {
                if entry_present(pde(mb, dir, k)) && entry_addr(pde(m2, dir, k)) == entry_addr(pde(mb, dir, k)) {
                    assert(entry_present(pde(mb, dir, k)));
                }
            }
        }
    }
    assert forall|q1: int, q2: int| lo <= q1 < p + 1 && lo <= q2 < p + 1 && q1 != q2
        implies #[trigger] frames_differ(m2, dir, q1, q2) by {
        if q1 < p {
            assert(data_page(mb, dir, q1));
            assert(pte_word(m2, dir, q1) == pte_word(mb, dir, q1));
        }
        if q2 < p {
            assert(data_page(mb, dir, q2));
            assert(pte_word(m2, dir, q2) == pte_word(mb, dir, q2));
        }
        if q1 < p && q2 < p {
            assert(frames_differ(mb, dir, q1, q2));
        }
    }
}

#[verifier::rlimit(100)]
/// Storing byte `b` at heap address `va` sets that byte and changes no
/// other heap byte, no page-table entry and no heap page.
proof fn lemma_heap_byte_write(m: Seq<u32>, m2: Seq<u32>, dir: int, lo: int, hi: int, va: int, b: u8)
    requires
        dir_ok(m, dir),
        tables_ok(m, dir),
        0 <= lo,
        hi <= 1023 * 1024,
        heap_pages(m, dir, lo, hi),
        0 <= va,
        lo <= va / 4096 < hi,
        m2 == m.update((frame(m, dir, va / 4096) + va % 4096) / 4,
            set_byte(m[(frame(m, dir, va / 4096) + va % 4096) / 4], (frame(m, dir, va / 4096) + va % 4096) % 4, b)),
    ensures
        m2.len() == m.len(),
        forall|k: int| 0 <= k < 1024 ==> #[trigger] pde(m2, dir, k) == pde(m, dir, k),
        forall|q: int| 0 <= q < 1023 * 1024 ==> #[trigger] pte_word(m2, dir, q) == pte_word(m, dir, q),
        heap_pages(m2, dir, lo, hi),
        user_byte(m2, dir, va) == Some(b),
        forall|x: int| 0 <= x && lo <= x / 4096 < hi && x != va ==> #[trigger] user_byte(m2, dir, x) == user_byte(m, dir, x),
{
    let f = frame(m, dir, va / 4096);
    let off = va % 4096;
    assert(data_page(m, dir, va / 4096));
    assert(f % 4096 == 0);
    let w0 = (f + off) / 4;
    assert(w0 == f / 4 + off / 4);
    assert((f + off) % 4 == off % 4);
    assert forall|k: int| 0 <= k < 1024 implies #[trigger] pde(m2, dir, k) == pde(m, dir, k) by {
        lemma_frames_disjoint(f, dir, off / 4, k);
    }
    assert forall|q: int| 0 <= q < 1023 * 1024 implies #[trigger] pte_word(m2, dir, q) == pte_word(m, dir, q) by {
        let k = q / 1024;
        assert(pde(m2, dir, k) == pde(m, dir, k));
        if entry_present(pde(m, dir, k)) {
            let t = entry_addr(pde(m, dir, k));
            assert(t != f);
            assert(t % 4096 == 0);
            lemma_frames_disjoint(f, t, off / 4, q % 1024);
        }
    }
    assert forall|q: int| lo <= q < hi implies #[trigger] data_page(m2, dir, q) by {
        assert(data_page(m, dir, q));
        assert(pte_word(m2, dir, q) == pte_word(m, dir, q));
    }
    assert forall|q1: int, q2: int| lo <= q1 < hi && lo <= q2 < hi && q1 != q2
        implies #[trigger] frames_differ(m2, dir, q1, q2) by {
        assert(pte_word(m2, dir, q1) == pte_word(m, dir, q1));
        assert(pte_word(m2, dir, q2) == pte_word(m, dir, q2));
        assert(frames_differ(m, dir, q1, q2));
    }
    lemma_heap_byte_write_bytes(m, m2, dir, lo, hi, va, b);
}

#[verifier::rlimit(100)]
proof fn lemma_heap_byte_write_bytes(m: Seq<u32>, m2: Seq<u32>, dir: int, lo: int, hi: int, va: int, b: u8)
    requires
        dir_ok(m, dir),
        tables_ok(m, dir),
        0 <= lo,
        hi <= 1023 * 1024,
        heap_pages(m, dir, lo, hi),
        0 <= va,
        lo <= va / 4096 < hi,
        m2 == m.update((frame(m, dir, va / 4096) + va % 4096) / 4,
            set_byte(m[(frame(m, dir, va / 4096) + va % 4096) / 4], (frame(m, dir, va / 4096) + va % 4096) % 4, b)),
        forall|q: int| 0 <= q < 1023 * 1024 ==> #[trigger] pte_word(m2, dir, q) == pte_word(m, dir, q),
    ensures
        user_byte(m2, dir, va) == Some(b),
        forall|x: int| 0 <= x && lo <= x / 4096 < hi && x != va ==> #[trigger] user_byte(m2, dir, x) == user_byte(m, dir, x),
{
    let f = frame(m, dir, va / 4096);
    let off = va % 4096;
    assert(data_page(m, dir, va / 4096));
    assert(f % 4096 == 0);
    let w0 = (f + off) / 4;
    assert(w0 == f / 4 + off / 4);
    assert((f + off) % 4 == off % 4);
    assert(pte_word(m2, dir, va / 4096) == pte_word(m, dir, va / 4096));
    lemma_set_byte(m[w0], off % 4, b, off % 4);
    assert forall|x: int| 0 <= x && lo <= x / 4096 < hi && x != va
        implies #[trigger] user_byte(m2, dir, x) == user_byte(m, dir, x) by {
        assert(data_page(m, dir, x / 4096));
        assert(pte_word(m2, dir, x / 4096) == pte_word(m, dir, x / 4096));
        if x / 4096 != va / 4096 {
            assert(frames_differ(m, dir, x / 4096, va / 4096));
        }
        lemma_byte_other(m, m2, dir, va, x, b);
    }
}

/// A byte store at `va` leaves the byte at another address `x` alone.
proof fn lemma_byte_other(m: Seq<u32>, m2: Seq<u32>, dir: int, va: int, x: int, b: u8)
    requires
        0 <= va,
        0 <= x,
        x != va,
        mapped(m, dir, va / 4096),
        mapped(m, dir, x / 4096),
        frame(m, dir, x / 4096) / 4 + 1024 <= m.len(),
        frame(m, dir, va / 4096) / 4 + 1024 <= m.len(),
        x / 4096 != va / 4096 ==> frame(m, dir, x / 4096) != frame(m, dir, va / 4096),
        pte_word(m2, dir, x / 4096) == pte_word(m, dir, x / 4096),
        m2 == m.update((frame(m, dir, va / 4096) + va % 4096) / 4,
            set_byte(m[(frame(m, dir, va / 4096) + va % 4096) / 4], (frame(m, dir, va / 4096) + va % 4096) % 4, b)),
    ensures
        user_byte(m2, dir, x) == user_byte(m, dir, x),
{
    let f = frame(m, dir, va / 4096);
    let off = va % 4096;
    let fx = frame(m, dir, x / 4096);
    let ox = x % 4096;
    assert(f % 4096 == 0);
    assert(fx % 4096 == 0);
    let w0 = (f + off) / 4;
    assert(w0 == f / 4 + off / 4);
    assert((f + off) % 4 == off % 4);
    let wx = (fx + ox) / 4;
    assert(wx == fx / 4 + ox / 4);
    assert((fx + ox) % 4 == ox % 4);
    if fx != f {
        lemma_frames_disjoint(fx, f, ox / 4, off / 4);
    } else {
        assert(ox != off);
        if ox / 4 == off / 4 {
            assert(ox % 4 != off % 4);
            lemma_set_byte(m[w0], off % 4, b, ox % 4);
        }
    }
}

/// A heap byte keeps its value across a step that keeps its page's entry
/// and every word outside the directory and its tables.
proof fn lemma_heap_byte_kept(m0: Seq<u32>, m1: Seq<u32>, dir: int, x: int)
    requires
        dir_ok(m0, dir),
        0 <= x,
        data_page(m0, dir, x / 4096),
        pte_word(m1, dir, x / 4096) == pte_word(m0, dir, x / 4096),
        m0.len() <= m1.len(),
        keeps_data(m0, m1, dir),
    ensures
        user_byte(m1, dir, x) == user_byte(m0, dir, x),
{
    let fx = frame(m0, dir, x / 4096);
    let ox = x % 4096;
    assert(fx % 4096 == 0);
    let wx = (fx + ox) / 4;
    assert(wx == fx / 4 + ox / 4);
    assert(unstructured(m0, dir, wx)) by {
        if dir / 4 <= wx < dir / 4 + 1024 {
            lemma_frames_disjoint(fx, dir, ox / 4, wx - dir / 4);
        }
        assert forall|k: int| 0 <= k < 1023 && #[trigger] entry_present(pde(m0, dir, k))
            implies !(entry_addr(pde(m0, dir, k)) / 4 <= wx < entry_addr(pde(m0, dir, k)) / 4 + 1024) by {
            let t = entry_addr(pde(m0, dir, k));
            assert(t != fx);
            assert(t % 4096 == 0);
            if t / 4 <= wx < t / 4 + 1024 {
                lemma_frames_disjoint(fx, t, ox / 4, wx - t / 4);
            }
        }
    }
}

/// The heap cursor and the mapped room beyond it.
#[derive(Clone, Copy, Debug, PartialEq, Eq, Structural)]
pub struct Heap {
    pub next: u32,
    pub buffer: u32,
}

impl Heap {
    /// The heap cursor is inside the window and the mapped frontier
    /// `next + buffer` is page-aligned.
    pub open spec fn wf(&self) -> bool {
        &&& HEAP_START <= self.next
        &&& self.next as int + self.buffer as int <= PAGES
        &&& (self.next as int + self.buffer as int) % 4096 == 0
    }

    /// Every page from the window's start to the mapped frontier is mapped
    /// in the directory `dir` onto a data frame of its own.
    pub open spec fn backed(&self, m: Seq<u32>, dir: int) -> bool {
        heap_pages(m, dir, HEAP_START as int / 4096, (self.next as int + self.buffer as int) / 4096)
    }

    pub fn new() -> (r: Heap)
        ensures
            r.wf(),
            r.next == HEAP_START,
            r.buffer == 0,
            forall|m: Seq<u32>, dir: int| r.backed(m, dir),
    {
        Heap { next: HEAP_START, buffer: 0 }
    }

    /// Hands out `size` bytes at the cursor, first mapping pages
    /// with PRESENT|WRITE|USER until the room beyond the cursor suffices.
    pub fn malloc(&mut self, mem: &mut PhysMem, dir: u32, size: u32) -> (r: u32)
        requires
            old(self).wf(),
            old(mem).wf(),
            dir_ok(old(mem)@, dir as int),
            tables_ok(old(mem)@, dir as int),
            tables_distinct(old(mem)@, dir as int),
            old(self).next as int + size as int + 4096 <= PAGES,
            old(mem)@.len() + 2048 * (size as int / 4096 + 1) <= MAX_WORDS,
        ensures
            final(self).wf(),
            final(mem).wf(),
            dir_ok(final(mem)@, dir as int),
            tables_ok(final(mem)@, dir as int),
            tables_distinct(final(mem)@, dir as int),
            r == old(self).next,
            final(self).next == old(self).next + size,
            old(self).buffer >= size ==> final(self).buffer == old(self).buffer - size,
            old(self).buffer < size ==> final(self).buffer < 4096,
            old(self).backed(old(mem)@, dir as int) ==> final(self).backed(final(mem)@, dir as int),
            crate::paging::space_ok(old(mem)@, dir as int) ==> crate::paging::space_ok(final(mem)@, dir as int),
            old(mem)@.len() <= final(mem)@.len(),
            final(mem)@.len() <= old(mem)@.len() + 2048 * (size as int / 4096 + 1),
            tables_from(old(mem)@, final(mem)@, dir as int),
            keeps_data(old(mem)@, final(mem)@, dir as int),
            old(self).backed(old(mem)@, dir as int) ==>
                forall|q: int| r / 4096 <= q < (r + size + 4095) / 4096 ==> #[trigger] mapped(final(mem)@, dir as int, q)
                    && crate::pte::entry_flags(pte_word(final(mem)@, dir as int, q)) == (PRESENT | WRITE | USER) as int,
            forall|q: int| (old(self).next + old(self).buffer) / 4096 <= q < (final(self).next + final(self).buffer) / 4096
                ==> #[trigger] fresh_page(final(mem)@, dir as int, q, (PRESENT | WRITE | USER) as u32, old(mem)@.len() as int),
            forall|q: int| 0 <= q < 1023 * 1024
                && !((old(self).next + old(self).buffer) / 4096 <= q < (final(self).next + final(self).buffer) / 4096)
                ==> #[trigger] pte_word(final(mem)@, dir as int, q) == pte_word(old(mem)@, dir as int, q),
    {
        let ghost m0 = mem@;
        let ghost b0 = old(self).buffer as int;
        let flags = WRITE | USER;
        assert(flags == 6) by (bit_vector) requires flags == 2u32 | 4u32;
        while self.buffer < size
            invariant
                self.wf(),
                self.next == old(self).next,
                b0 == old(self).buffer,
                old(self).next as int + size as int + 4096 <= PAGES,
                old(self).buffer <= self.buffer,
                self.buffer > old(self).buffer ==> self.buffer < size + 4096,
                (self.buffer - old(self).buffer) % 4096 == 0,
                flags == 6,
                mem.wf(),
                dir_ok(mem@, dir as int),
                tables_ok(mem@, dir as int),
                tables_distinct(mem@, dir as int),
                mem@.len() * 2 <= m0.len() * 2 + (self.buffer - b0),
                m0.len() + 2048 * (size as int / 4096 + 1) <= MAX_WORDS,
                old(self).backed(m0, dir as int) ==> self.backed(mem@, dir as int),
                crate::paging::space_ok(m0, dir as int) ==> crate::paging::space_ok(mem@, dir as int),
                m0.len() <= mem@.len(),
                tables_from(m0, mem@, dir as int),
                keeps_data(m0, mem@, dir as int),
                forall|q: int| (old(self).next + b0) / 4096 <= q < (self.next + self.buffer) / 4096
                    ==> #[trigger] fresh_page(mem@, dir as int, q, 7, m0.len() as int),
                forall|q: int| 0 <= q < 1023 * 1024 && !((old(self).next + b0) / 4096 <= q < (self.next + self.buffer) / 4096)
                    ==> #[trigger] pte_word(mem@, dir as int, q) == pte_word(m0, dir as int, q),
            decreases size as int + 4096 - self.buffer as int,
        {
            let ghost mb = mem@;
            let at = self.next + self.buffer;
            let ghost b = self.buffer as int;
            let ghost k = (b - b0) / 4096;
            assert(k <= size as int / 4096) by (nonlinear_arith)
                requires b - b0 == 4096 * k, b < size, b0 >= 0;
            assert(at % 4096 == 0);
            assert(page_span(at as int, 4096) == 1);
            assert(mem@.len() + 2048 * page_span(at as int, 4096) <= MAX_WORDS) by (nonlinear_arith)
                requires
                    mem@.len() * 2 <= m0.len() * 2 + (b - b0),
                    b - b0 == 4096 * k,
                    k <= size as int / 4096,
                    page_span(at as int, 4096) == 1,
                    m0.len() + 2048 * (size as int / 4096 + 1) <= MAX_WORDS;
            crate::paging::map(mem, dir, at, PAGE_SIZE, flags);
            proof {
                lemma_structure_trans(m0, mb, mem@, dir as int);
                assert(translate_flags_spec(flags) == 7) by (bit_vector) requires flags == 6u32;
                assert(at as int / 4096 + 1 == (at as int + 4096) / 4096);
                assert forall|q: int| (old(self).next + b0) / 4096 <= q < (at + 4096) / 4096
                    implies #[trigger] fresh_page(mem@, dir as int, q, 7, m0.len() as int) by {
                    if q < at / 4096 {
                        assert(fresh_page(mb, dir as int, q, 7, m0.len() as int));
                        assert(pte_word(mem@, dir as int, q) == pte_word(mb, dir as int, q));
                    } else {
                        assert(fresh_page(mem@, dir as int, q, translate_flags_spec(flags), mb.len() as int));
                    }
                }
                assert forall|q: int| 0 <= q < 1023 * 1024 && !((old(self).next + b0) / 4096 <= q < (at + 4096) / 4096)
                    implies #[trigger] pte_word(mem@, dir as int, q) == pte_word(m0, dir as int, q) by {
                    assert(pte_word(mem@, dir as int, q) == pte_word(mb, dir as int, q));
                }
                if old(self).backed(m0, dir as int) {
                    assert(heap_pages(mb, dir as int, HEAP_START as int / 4096, at as int / 4096));
                    assert(at as int / 4096 < 1023 * 1024);
                    lemma_heap_pages_grow(mb, mem@, dir as int, HEAP_START as int / 4096, at as int / 4096);
                }
            }
            self.buffer = self.buffer + PAGE_SIZE;
        }
        proof {
            let b = self.buffer as int;
            if b > b0 {
                let k = (b - b0) / 4096;
                assert(k <= size as int / 4096 + 1) by (nonlinear_arith)
                    requires b - b0 == 4096 * k, b < size + 4096, b0 >= 0;
                assert(mem@.len() <= m0.len() + 2048 * (size as int / 4096 + 1)) by (nonlinear_arith)
                    requires mem@.len() * 2 <= m0.len() * 2 + (b - b0), b - b0 == 4096 * k, k <= size as int / 4096 + 1;
            }
        }
        assert((PRESENT | WRITE | USER) == 7u32) by (bit_vector);
        let ptr = self.next;
        self.next = self.next + size;
        self.buffer = self.buffer - size;
        proof {
            if old(self).backed(m0, dir as int) {
                assert forall|q: int| ptr / 4096 <= q < (ptr + size + 4095) / 4096 implies #[trigger] mapped(mem@, dir as int, q)
                    && crate::pte::entry_flags(pte_word(mem@, dir as int, q)) == (PRESENT | WRITE | USER) as int by {
                    assert(HEAP_START / 4096 <= q);
                    assert(q < (self.next as int + self.buffer as int) / 4096);
                    assert(data_page(mem@, dir as int, q));
                }
            }
        }
        ptr
    }

    /// A new block of `size` bytes holding a copy of the `size` bytes at
    /// `p`: `malloc`, then a byte-by-byte copy, then `free(p)`,
    /// which keeps the old block as it is. The old block must lie in the
    /// heap below the cursor.
    pub fn realloc(&mut self, mem: &mut PhysMem, dir: u32, p: u32, size: u32) -> (r: u32)
        requires
            old(self).wf(),
            old(mem).wf(),
            dir_ok(old(mem)@, dir as int),
            tables_ok(old(mem)@, dir as int),
            tables_distinct(old(mem)@, dir as int),
            old(self).backed(old(mem)@, dir as int),
            HEAP_START <= p,
            p as int + size as int <= old(self).next,
            old(self).next as int + size as int + 4096 <= PAGES,
            old(mem)@.len() + 2048 * (size as int / 4096 + 1) <= MAX_WORDS,
        ensures
            final(self).wf(),
            final(mem).wf(),
            dir_ok(final(mem)@, dir as int),
            tables_ok(final(mem)@, dir as int),
            tables_distinct(final(mem)@, dir as int),
            final(self).backed(final(mem)@, dir as int),
            r == old(self).next,
            final(self).next == old(self).next + size,
            old(mem)@.len() <= final(mem)@.len() <= old(mem)@.len() + 2048 * (size as int / 4096 + 1),
            forall|j: int| 0 <= j < size ==> #[trigger] user_byte(final(mem)@, dir as int, r + j)
                == user_byte(old(mem)@, dir as int, p + j),
            forall|j: int| 0 <= j < size ==> #[trigger] user_byte(final(mem)@, dir as int, p + j)
                == user_byte(old(mem)@, dir as int, p + j),
            forall|j: int| 0 <= j < size ==> #[trigger] user_byte(old(mem)@, dir as int, p + j) is Some,
    {
        let ghost m0 = mem@;
        let r = self.malloc(mem, dir, size);
        let ghost ms = mem@;
        let ghost lo = HEAP_START as int / 4096;
        let ghost hi = (self.next as int + self.buffer as int) / 4096;
        let ghost d = dir as int;
        proof {
            lemma_copy_start(m0, ms, d, lo, (old(self).next + old(self).buffer) / 4096, hi, p as int, size as int);
        }
        let mut i: u32 = 0;
        while i < size
            invariant
                i <= size,
                HEAP_START <= p,
                p as int + size as int <= r,
                r as int + size as int <= hi * 4096,
                lo == HEAP_START as int / 4096,
                hi <= 1023 * 1024,
                d == dir as int,
                mem.wf(),
                copy_state(ms, mem@, d, lo, hi, p as int, r as int, size as int, i as int),
            decreases size - i,
        {
            let ghost mb = mem@;
            proof { lemma_copy_ok(ms, mb, d, lo, hi, p as int, r as int, size as int, i as int); }
            let src = p + i;
            let dst = r + i;
            match read_user_byte(mem, dir, src) {
                Some(b) => {
                    write_user_byte(mem, dir, dst, b);
                    proof { lemma_copy_step(ms, mb, mem@, d, lo, hi, p as int, r as int, size as int, i as int, b); }
                },
                None => {
                    proof { lemma_copy_ok(ms, mb, d, lo, hi, p as int, r as int, size as int, i as int); }
                },
            }
            i = i + 1;
        }
        proof { lemma_copy_end(m0, ms, mem@, d, lo, hi, p as int, r as int, size as int); }
        free(p);
        r
    }
}

/// The state of `realloc`'s copy after `i` bytes, relative to memory `ms`
/// right after the allocation.
pub open spec fn copy_state(ms: Seq<u32>, m: Seq<u32>, d: int, lo: int, hi: int, p: int, r: int, size: int, i: int) -> bool {
    &&& m.len() == ms.len()
    &&& dir_ok(ms, d)
    &&& tables_ok(ms, d)
    &&& tables_distinct(ms, d)
    &&& (forall|k: int| 0 <= k < 1024 ==> #[trigger] pde(m, d, k) == pde(ms, d, k))
    &&& (forall|q: int| 0 <= q < 1023 * 1024 ==> #[trigger] pte_word(m, d, q) == pte_word(ms, d, q))
    &&& heap_pages(m, d, lo, hi)
    &&& (forall|j: int| 0 <= j < i ==> #[trigger] user_byte(m, d, r + j) == user_byte(ms, d, p + j))
    &&& (forall|j: int| 0 <= j < size ==> #[trigger] user_byte(m, d, p + j) == user_byte(ms, d, p + j))
    &&& (forall|j: int| 0 <= j < size ==> #[trigger] user_byte(ms, d, p + j) is Some)
}

#[verifier::rlimit(100)]
proof fn lemma_copy_start(m0: Seq<u32>, ms: Seq<u32>, d: int, lo: int, hi0: int, hi: int, p: int, size: int)
    requires
        dir_ok(m0, d),
        dir_ok(ms, d),
        tables_ok(ms, d),
        tables_distinct(ms, d),
        heap_pages(m0, d, lo, hi0),
        heap_pages(ms, d, lo, hi),
        0 <= lo,
        hi0 <= 1023 * 1024,
        lo * 4096 <= p,
        p + size <= hi0 * 4096,
        0 <= size,
        m0.len() <= ms.len(),
        keeps_data(m0, ms, d),
        forall|q: int| 0 <= q < hi0 ==> #[trigger] pte_word(ms, d, q) == pte_word(m0, d, q),
    ensures
        copy_state(ms, ms, d, lo, hi, p, 0, size, 0),
        forall|j: int| 0 <= j < size ==> #[trigger] user_byte(ms, d, p + j) == user_byte(m0, d, p + j),
{
    assert forall|j: int| 0 <= j < size implies #[trigger] user_byte(ms, d, p + j) == user_byte(m0, d, p + j)
        && user_byte(ms, d, p + j) is Some by {
        let x = p + j;
        assert(lo <= x / 4096 < hi0);
        assert(data_page(m0, d, x / 4096));
        assert(pte_word(ms, d, x / 4096) == pte_word(m0, d, x / 4096));
        lemma_start_byte(m0, ms, d, x);
    }
}

/// A heap byte before the allocation is still there, and readable.
proof fn lemma_start_byte(m0: Seq<u32>, ms: Seq<u32>, d: int, x: int)
    requires
        dir_ok(m0, d),
        0 <= x,
        data_page(m0, d, x / 4096),
        pte_word(ms, d, x / 4096) == pte_word(m0, d, x / 4096),
        m0.len() <= ms.len(),
        keeps_data(m0, ms, d),
    ensures
        user_byte(ms, d, x) == user_byte(m0, d, x),
        user_byte(m0, d, x) is Some,
{
    lemma_heap_byte_kept(m0, ms, d, x);
    assert(frame(m0, d, x / 4096) % 4096 == 0);
}

/// In `copy_state`, the directory is well formed and both bytes of step
/// `i` are heap bytes.
#[verifier::rlimit(100)]
proof fn lemma_copy_ok(ms: Seq<u32>, m: Seq<u32>, d: int, lo: int, hi: int, p: int, r: int, size: int, i: int)
    requires
        copy_state(ms, m, d, lo, hi, p, r, size, i),
        0 <= i < size,
        0 <= lo,
        lo * 4096 <= p,
        p + size <= r,
        r + size <= hi * 4096,
    ensures
        dir_ok(m, d),
        tables_ok(m, d),
        lo <= (p + i) / 4096 < hi,
        lo <= (r + i) / 4096 < hi,
        user_byte(m, d, p + i) is Some,
        user_byte(m, d, r + i) is Some,
{
    lemma_same_tables(ms, m, d);
    lemma_page_bounds(lo, hi, p, r, size, i);
    lemma_heap_byte_some(m, d, lo, hi, r + i);
    assert(user_byte(m, d, p + i) == user_byte(ms, d, p + i));
}

proof fn lemma_page_bounds(lo: int, hi: int, p: int, r: int, size: int, i: int)
    requires
        0 <= i < size,
        lo * 4096 <= p,
        p + size <= r,
        r + size <= hi * 4096,
    ensures
        lo <= (p + i) / 4096 < hi,
        lo <= (r + i) / 4096 < hi,
{
}

/// Memory of the same length with the same directory entries has the same
/// tables.
proof fn lemma_same_tables(ms: Seq<u32>, m: Seq<u32>, d: int)
    requires
        m.len() == ms.len(),
        dir_ok(ms, d),
        tables_ok(ms, d),
        forall|k: int| 0 <= k < 1024 ==> #[trigger] pde(m, d, k) == pde(ms, d, k),
    ensures
        dir_ok(m, d),
        tables_ok(m, d),
{
    assert forall|k: int| 0 <= k < 1024 && #[trigger] entry_present(pde(m, d, k))
        implies entry_addr(pde(m, d, k)) / 4 + 1024 <= m.len() by {
        assert(pde(m, d, k) == pde(ms, d, k));
    }
}

/// Every heap byte can be read.
proof fn lemma_heap_byte_some(m: Seq<u32>, d: int, lo: int, hi: int, x: int)
    requires
        heap_pages(m, d, lo, hi),
        0 <= x,
        lo <= x / 4096 < hi,
    ensures
        user_byte(m, d, x) is Some,
{
    assert(data_page(m, d, x / 4096));
    assert(frame(m, d, x / 4096) % 4096 == 0);
}

#[verifier::rlimit(60)]
proof fn lemma_copy_step(ms: Seq<u32>, mb: Seq<u32>, m2: Seq<u32>, d: int, lo: int, hi: int, p: int, r: int, size: int, i: int, b: u8)
    requires
        copy_state(ms, mb, d, lo, hi, p, r, size, i),
        0 <= i < size,
        0 <= lo,
        hi <= 1023 * 1024,
        lo * 4096 <= p,
        p + size <= r,
        r + size <= hi * 4096,
        dir_ok(mb, d),
        tables_ok(mb, d),
        Some(b) == user_byte(mb, d, p + i),
        user_byte(mb, d, r + i) is Some,
        m2 == mb.update((frame(mb, d, (r + i) / 4096) + (r + i) % 4096) / 4,
            set_byte(mb[(frame(mb, d, (r + i) / 4096) + (r + i) % 4096) / 4], (frame(mb, d, (r + i) / 4096) + (r + i) % 4096) % 4, b)),
    ensures
        copy_state(ms, m2, d, lo, hi, p, r, size, i + 1),
{
    lemma_heap_byte_write(mb, m2, d, lo, hi, r + i, b);
    assert forall|j: int| 0 <= j < i + 1 implies #[trigger] user_byte(m2, d, r + j) == user_byte(ms, d, p + j) by {
        if j < i {
            assert(user_byte(m2, d, r + j) == user_byte(mb, d, r + j));
        }
    }
    assert forall|j: int| 0 <= j < size implies #[trigger] user_byte(m2, d, p + j) == user_byte(ms, d, p + j) by {
        assert(user_byte(m2, d, p + j) == user_byte(mb, d, p + j));
    }
    assert forall|k: int| 0 <= k < 1024 implies #[trigger] pde(m2, d, k) == pde(ms, d, k) by {
        assert(pde(m2, d, k) == pde(mb, d, k));
    }
    assert forall|q: int| 0 <= q < 1023 * 1024 implies #[trigger] pte_word(m2, d, q) == pte_word(ms, d, q) by {
        assert(pte_word(m2, d, q) == pte_word(mb, d, q));
    }
}

proof fn lemma_copy_end(m0: Seq<u32>, ms: Seq<u32>, m: Seq<u32>, d: int, lo: int, hi: int, p: int, r: int, size: int)
    requires
        copy_state(ms, m, d, lo, hi, p, r, size, size),
        forall|j: int| 0 <= j < size ==> #[trigger] user_byte(ms, d, p + j) == user_byte(m0, d, p + j),
    ensures
        dir_ok(m, d),
        tables_ok(m, d),
        tables_distinct(m, d),
        heap_pages(m, d, lo, hi),
        forall|j: int| 0 <= j < size ==> #[trigger] user_byte(m, d, r + j) == user_byte(m0, d, p + j),
        forall|j: int| 0 <= j < size ==> #[trigger] user_byte(m, d, p + j) == user_byte(m0, d, p + j),
        forall|j: int| 0 <= j < size ==> #[trigger] user_byte(m0, d, p + j) is Some,
{
    assert forall|k: int| 0 <= k < 1024 && #[trigger] entry_present(pde(m, d, k))
        implies entry_addr(pde(m, d, k)) / 4 + 1024 <= m.len() by {
        assert(pde(m, d, k) == pde(ms, d, k));
    }
    assert forall|k1: int, k2: int|
        0 <= k1 < 1023 && 0 <= k2 < 1023 && k1 != k2
        && #[trigger] entry_present(pde(m, d, k1)) && #[trigger] entry_present(pde(m, d, k2))
        implies entry_addr(pde(m, d, k1)) != entry_addr(pde(m, d, k2)) by {
        assert(pde(m, d, k1) == pde(ms, d, k1));
        assert(pde(m, d, k2) == pde(ms, d, k2));
    }
    assert forall|k: int| 0 <= k < 1023 && #[trigger] entry_present(pde(m, d, k))
        implies entry_addr(pde(m, d, k)) != d by {
        assert(pde(m, d, k) == pde(ms, d, k));
    }
    assert forall|j: int| 0 <= j < size implies #[trigger] user_byte(m0, d, p + j) is Some by {
        assert(user_byte(ms, d, p + j) is Some);
    }
}

/// Freeing is a no-op.
pub fn free(p: u32) {
}

} // verus!
